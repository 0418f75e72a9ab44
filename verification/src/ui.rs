//! The reader's screens and what each key does on them.
//!
//! The screen logic is a state machine.  `App::handle_key` takes one key
//! press, changes the state, and answers with an `Action` that names what is
//! to be done outside: fetch a message, refresh the inbox, delete, send.  When
//! that work is done, its result is handed back through one of the
//! completion methods (`opened`, `reply_opened`, `inbox_loaded`, `removed`,
//! `deleted`, `sent`).  The body of a message under composition lives in an editor
//! outside this state; the actions say when to clear it and when to pass a
//! key on to it.

use vstd::prelude::*;
use vstd::string::StringExecFns;
use crate::display::detail_text;
use crate::text::{
    chars_of, decimal, decimal_text, find_from, has_prefix, has_prefix_ignoring_case,
    position_from, slice_of, starts_with, starts_with_ignoring_case, string_of,
};

verus! {

/// Which screen is shown.
#[derive(Debug, Clone, Copy, PartialEq, Eq, Structural)]
pub enum Mode {
    /// The list of messages.
    Inbox,
    /// One message, opened.
    View,
    /// A message under composition.
    Compose,
    /// The question whether the selected message is to be deleted.
    ConfirmDelete,
}

/// Which field of a message under composition takes the keys.
#[derive(Debug, Clone, Copy, PartialEq, Eq, Structural)]
pub enum ComposeField {
    To,
    Subject,
    Body,
}

/// A key, as far as the reader tells keys apart.
#[derive(Debug, Clone, Copy, PartialEq, Eq, Structural)]
pub enum Key {
    Char(char),
    Esc,
    Tab,
    BackTab,
    Enter,
    Backspace,
    Up,
    Down,
    Other,
}

/// What is to be done outside the state machine after a key press.
#[derive(Debug, Clone, Copy, PartialEq, Eq, Structural)]
pub enum Action {
    /// Nothing: show the state and read the next key.
    Nothing,
    /// Leave the reader.
    Quit,
    /// Fetch the text of this message and hand it to `App::opened`.
    Open(u32),
    /// Fetch the text of this message, hand it to `App::reply_opened`, and
    /// clear the body editor.
    Reply(u32),
    /// Clear the body editor.
    ClearBody,
    /// Fetch the inbox view of this many messages and hand its lines to
    /// `App::inbox_loaded`.
    LoadMore(usize),
    /// Delete this message and, once it is deleted, ask `App::removed` what
    /// follows.
    Delete(u32),
    /// Fetch the inbox view of this many messages anew and hand its lines to
    /// `App::deleted`.
    Reload(usize),
    /// Send the composed message, with the body taken from the body editor,
    /// and call `App::sent`.
    Send,
    /// Pass the key on to the body editor.
    EditBody,
}

/// How many messages one request for more adds to the inbox view.
pub const LOAD_STEP: usize = 10;

/// The state of the reader.
pub struct App {
    items: Vec<(u32, String)>,
    selected: usize,
    mode: Mode,
    view_buffer: String,
    view_scroll: u16,
    compose_to: String,
    compose_subject: String,
    compose_field: ComposeField,
    inbox_count: usize,
    tooltip: String,
}

/// The state of the reader as a mathematical value.
#[verifier::ext_equal]
pub ghost struct AppView {
    /// The lines of the inbox: identifier and text.
    pub items: Seq<(u32, Seq<char>)>,
    /// The position of the highlighted line.
    pub selected: int,
    pub mode: Mode,
    /// The text of the opened message.
    pub view_buffer: Seq<char>,
    /// How many lines the opened message is scrolled down.
    pub view_scroll: int,
    pub compose_to: Seq<char>,
    pub compose_subject: Seq<char>,
    pub compose_field: ComposeField,
    /// How many messages the inbox view asks for.
    pub inbox_count: int,
    /// The status line.
    pub tooltip: Seq<char>,
}

/// The lines of an inbox as mathematical values.
pub open spec fn items_view(items: Seq<(u32, String)>) -> Seq<(u32, Seq<char>)> {
    items.map_values(|e: (u32, String)| (e.0, e.1@))
}

/// The first line of a text: what stands before the first line feed, less
/// one carriage return directly in front of that line feed; the whole text
/// when it holds no line feed; `None` when the text is empty.
pub open spec fn first_line(text: Seq<char>) -> Option<Seq<char>> {
    let stop = position_from(text, '\n', 0);
    if text.len() == 0 {
        None
    } else if 0 < stop < text.len() && text[stop - 1] == '\r' {
        Some(text.take(stop - 1))
    } else {
        Some(text.take(stop))
    }
}

/// What follows the first line of a text: everything after the first line
/// feed, nothing when there is none.
pub open spec fn after_first_line(text: Seq<char>) -> Seq<char> {
    let stop = position_from(text, '\n', 0);
    if stop < text.len() {
        text.skip(stop + 1)
    } else {
        Seq::empty()
    }
}

/// What `line` says after the label `label`; empty when there is no line or
/// the line does not begin with the label.
pub open spec fn labelled(line: Option<Seq<char>>, label: Seq<char>) -> Seq<char> {
    match line {
        Some(l) => if starts_with(l, label) {
            l.skip(label.len() as int)
        } else {
            Seq::empty()
        },
        None => Seq::empty(),
    }
}

/// To whom a reply to the message with the text `text` goes: what its first
/// line says after `From: `.
pub open spec fn reply_recipient(text: Seq<char>) -> Seq<char> {
    labelled(first_line(text), "From: "@)
}

/// The subject of the message with the text `text`: what its second line
/// says after `Subject: `.
pub open spec fn subject_line(text: Seq<char>) -> Seq<char> {
    labelled(first_line(after_first_line(text)), "Subject: "@)
}

/// The subject of a reply: the subject itself if it begins with `re:` in any
/// case of letters, else the subject behind `Re: `.
pub open spec fn reply_subject(subject: Seq<char>) -> Seq<char> {
    if starts_with_ignoring_case(subject, "re:"@) {
        subject
    } else {
        "Re: "@ + subject
    }
}

/// The status line after the inbox has been loaded anew.
pub open spec fn loaded_text(count: int) -> Seq<char> {
    "Successfully loaded "@ + decimal(count) + " messages"@
}

/// The field that takes the keys after `field`.
pub open spec fn next_field(field: ComposeField) -> ComposeField {
    match field {
        ComposeField::To => ComposeField::Subject,
        ComposeField::Subject => ComposeField::Body,
        ComposeField::Body => ComposeField::To,
    }
}

/// The field that takes the keys before `field`.
pub open spec fn previous_field(field: ComposeField) -> ComposeField {
    match field {
        ComposeField::To => ComposeField::Body,
        ComposeField::Subject => ComposeField::To,
        ComposeField::Body => ComposeField::Subject,
    }
}

/// Tab and back tab undo each other, and three of either lead round to the
/// field they began with.
pub proof fn lemma_fields_go_round(field: ComposeField)
    ensures
        previous_field(next_field(field)) == field,
        next_field(previous_field(field)) == field,
        next_field(next_field(next_field(field))) == field,
        previous_field(previous_field(previous_field(field))) == field,
{
}

/// `text` without its last character; empty if it is empty.
pub open spec fn without_last(text: Seq<char>) -> Seq<char> {
    if text.len() == 0 {
        text
    } else {
        text.drop_last()
    }
}

/// The count after one request for more: ten more, but no more than the
/// largest count there is.
pub open spec fn raised(count: int) -> int {
    if count + LOAD_STEP <= usize::MAX {
        count + LOAD_STEP
    } else {
        usize::MAX as int
    }
}

/// The state after a key press on the inbox screen.
pub open spec fn inbox_key(s: AppView, key: Key) -> AppView {
    match key {
        Key::Char('c') => AppView {
            compose_to: Seq::empty(),
            compose_subject: Seq::empty(),
            compose_field: ComposeField::To,
            mode: Mode::Compose,
            tooltip: Seq::empty(),
            ..s
        },
        Key::Char('m') => AppView {
            tooltip: "Loading more\u{2026}"@,
            inbox_count: raised(s.inbox_count),
            ..s
        },
        Key::Char('d') => AppView {
            mode: Mode::ConfirmDelete,
            tooltip: "Are you sure you want to delete? Press 'd' again to confirm."@,
            ..s
        },
        Key::Down => AppView {
            selected: if s.items.len() == 0 {
                s.selected
            } else if s.selected + 1 < s.items.len() {
                s.selected + 1
            } else {
                0
            },
            tooltip: Seq::empty(),
            ..s
        },
        Key::Up => AppView {
            selected: if s.selected > 0 {
                s.selected - 1
            } else {
                s.selected
            },
            tooltip: Seq::empty(),
            ..s
        },
        _ => s,
    }
}

/// The state after a key press on the screen that asks whether to delete:
/// the state stays as it is while the deletion is carried out; every key but
/// `d`, and `d` on an empty inbox, leads back to the inbox with nothing done.
pub open spec fn confirm_key(s: AppView, key: Key) -> AppView {
    if key == Key::Char('d') && 0 <= s.selected < s.items.len() {
        s
    } else {
        AppView { mode: Mode::Inbox, tooltip: Seq::empty(), ..s }
    }
}

/// The state after a key press on the screen of an opened message.
pub open spec fn view_key(s: AppView, key: Key) -> AppView {
    match key {
        Key::Esc => AppView { mode: Mode::Inbox, tooltip: Seq::empty(), ..s },
        Key::Down => AppView {
            view_scroll: if s.view_scroll < u16::MAX {
                s.view_scroll + 1
            } else {
                s.view_scroll
            },
            ..s
        },
        Key::Up => AppView {
            view_scroll: if s.view_scroll > 0 {
                s.view_scroll - 1
            } else {
                s.view_scroll
            },
            ..s
        },
        _ => s,
    }
}

/// The state after a key press in a one-line field of a message under
/// composition, where `line` is what the field holds: the new content of the
/// field, the field that takes the keys next (`onward` after Enter), and the
/// status line.
pub open spec fn line_key(
    line: Seq<char>,
    field: ComposeField,
    onward: ComposeField,
    tooltip: Seq<char>,
    key: Key,
) -> (Seq<char>, ComposeField, Seq<char>) {
    match key {
        Key::Char(c) => (line.push(c), field, Seq::empty()),
        Key::Backspace => (without_last(line), field, tooltip),
        Key::Enter => (line, onward, tooltip),
        _ => (line, field, tooltip),
    }
}

/// The state after a key press on the screen of a message under composition.
/// `control` says that the control key, and no other modifier, was held.
pub open spec fn compose_key(s: AppView, key: Key, control: bool) -> AppView {
    if key == Key::Esc {
        AppView { mode: Mode::Inbox, tooltip: Seq::empty(), ..s }
    } else if key == Key::Tab {
        AppView { compose_field: next_field(s.compose_field), tooltip: Seq::empty(), ..s }
    } else if key == Key::BackTab {
        AppView { compose_field: previous_field(s.compose_field), tooltip: Seq::empty(), ..s }
    } else if key == Key::Char('s') && control {
        s
    } else {
        match s.compose_field {
            ComposeField::To => {
                let (line, field, tooltip) = line_key(
                    s.compose_to,
                    ComposeField::To,
                    ComposeField::Subject,
                    s.tooltip,
                    key,
                );
                AppView { compose_to: line, compose_field: field, tooltip: tooltip, ..s }
            },
            ComposeField::Subject => {
                let (line, field, tooltip) = line_key(
                    s.compose_subject,
                    ComposeField::Subject,
                    ComposeField::Body,
                    s.tooltip,
                    key,
                );
                AppView { compose_subject: line, compose_field: field, tooltip: tooltip, ..s }
            },
            ComposeField::Body => AppView { tooltip: Seq::empty(), ..s },
        }
    }
}

/// The state after a key press.
pub open spec fn after_key(s: AppView, key: Key, control: bool) -> AppView {
    match s.mode {
        Mode::Inbox => inbox_key(s, key),
        Mode::ConfirmDelete => confirm_key(s, key),
        Mode::View => view_key(s, key),
        Mode::Compose => compose_key(s, key, control),
    }
}

/// What is to be done outside after a key press in the state `s`.
pub open spec fn action_for(s: AppView, key: Key, control: bool) -> Action {
    match s.mode {
        Mode::Inbox => match key {
            Key::Char('q') => Action::Quit,
            Key::Char('v') => if 0 <= s.selected < s.items.len() {
                Action::Open(s.items[s.selected].0)
            } else {
                Action::Nothing
            },
            Key::Char('r') => if 0 <= s.selected < s.items.len() {
                Action::Reply(s.items[s.selected].0)
            } else {
                Action::Nothing
            },
            Key::Char('c') => Action::ClearBody,
            Key::Char('m') => Action::LoadMore(raised(s.inbox_count) as usize),
            _ => Action::Nothing,
        },
        Mode::ConfirmDelete => if key == Key::Char('d') && 0 <= s.selected < s.items.len() {
            Action::Delete(s.items[s.selected].0)
        } else {
            Action::Nothing
        },
        Mode::View => Action::Nothing,
        Mode::Compose => if key == Key::Esc || key == Key::Tab || key == Key::BackTab {
            Action::Nothing
        } else if key == Key::Char('s') && control {
            Action::Send
        } else if s.compose_field == ComposeField::Body {
            Action::EditBody
        } else {
            Action::Nothing
        },
    }
}

/// The state once the text of the message to open has arrived.
pub open spec fn after_opened(s: AppView, text: Seq<char>) -> AppView {
    AppView { view_buffer: text, view_scroll: 0, mode: Mode::View, tooltip: Seq::empty(), ..s }
}

/// The state once the text of the message to reply to has arrived.
pub open spec fn after_reply_opened(s: AppView, text: Seq<char>) -> AppView {
    AppView {
        compose_to: reply_recipient(text),
        compose_subject: reply_subject(subject_line(text)),
        compose_field: ComposeField::Body,
        mode: Mode::Compose,
        tooltip: Seq::empty(),
        ..s
    }
}

/// The state once the inbox has been loaded anew.
pub open spec fn after_inbox_loaded(s: AppView, items: Seq<(u32, Seq<char>)>) -> AppView {
    AppView { items: items, selected: 0, tooltip: loaded_text(s.inbox_count), ..s }
}

/// The state once a message has been deleted and the inbox loaded anew.
pub open spec fn after_deleted(s: AppView, items: Seq<(u32, Seq<char>)>) -> AppView {
    AppView { items: items, selected: 0, mode: Mode::Inbox, tooltip: "Deleted!"@, ..s }
}

/// The state once the composed message has been sent.
pub open spec fn after_sent(s: AppView) -> AppView {
    AppView { mode: Mode::Inbox, tooltip: "Sent!"@, ..s }
}

/// The highlighted line is a line of the inbox, or the first position of an
/// empty inbox.
pub open spec fn selection_in_range(s: AppView) -> bool {
    0 <= s.selected && (s.selected == 0 || s.selected < s.items.len())
}

/// Whatever the key, the highlight stays on a line of the inbox.
pub proof fn lemma_selection_stays_in_range(s: AppView, key: Key, control: bool)
    requires
        selection_in_range(s),
    ensures
        selection_in_range(after_key(s, key, control)),
{
}

/// On the screen that asks whether to delete, every key leads back to the
/// inbox or leaves the screen as it is while the deletion is carried out;
/// only `d` deletes, and any other key changes nothing but the screen and
/// the status line.
pub proof fn lemma_only_d_deletes(s: AppView, key: Key, control: bool)
    requires
        s.mode == Mode::ConfirmDelete,
    ensures
        action_for(s, key, control) is Delete ==> key == Key::Char('d'),
        !(action_for(s, key, control) is Delete) ==> action_for(s, key, control) == Action::Nothing
            && after_key(s, key, control) == (AppView {
            mode: Mode::Inbox,
            tooltip: Seq::empty(),
            ..s
        }),
{
}

/// The screens follow one another only along these paths: from the inbox to
/// an opened message, a message under composition or the question whether to
/// delete, and from each of these back to the inbox.
pub open spec fn may_follow(before: Mode, after: Mode) -> bool {
    before == after || before == Mode::Inbox || after == Mode::Inbox
}

/// No key press and no completion leads from one screen to another but along
/// the paths of `may_follow`, where the completions that open a message or a
/// reply are taken on the inbox screen.
pub proof fn lemma_screens_follow_paths(
    s: AppView,
    key: Key,
    control: bool,
    text: Seq<char>,
    items: Seq<(u32, Seq<char>)>,
)
    ensures
        may_follow(s.mode, after_key(s, key, control).mode),
        after_key(s, key, control).mode == Mode::View ==> s.mode == Mode::View,
        s.mode == Mode::Inbox ==> may_follow(s.mode, after_opened(s, text).mode),
        s.mode == Mode::Inbox ==> may_follow(s.mode, after_reply_opened(s, text).mode),
        may_follow(s.mode, after_inbox_loaded(s, items).mode),
        may_follow(s.mode, after_deleted(s, items).mode),
        may_follow(s.mode, after_sent(s).mode),
{
}

/// `s` holds no line feed and does not end with a carriage return.
pub open spec fn fits_one_line(s: Seq<char>) -> bool {
    &&& forall|i: int| 0 <= i < s.len() ==> s[i] != '\n'
    &&& s.len() > 0 ==> s.last() != '\r'
}

proof fn lemma_first_line_of(head: Seq<char>, tail: Seq<char>)
    requires
        head.len() > 0,
        fits_one_line(head),
    ensures
        first_line(head + seq!['\n'] + tail) == Some(head),
        after_first_line(head + seq!['\n'] + tail) == tail,
{
    let text = head + seq!['\n'] + tail;
    lemma_position_past(text, head.len() as int, 0);
    assert(text.take(head.len() as int) == head);
    assert(text.skip(head.len() as int + 1) == tail);
    assert(text[head.len() - 1] == head.last());
}

proof fn lemma_position_past(text: Seq<char>, stop: int, from: int)
    requires
        0 <= from <= stop < text.len(),
        text[stop] == '\n',
        forall|i: int| from <= i < stop ==> text[i] != '\n',
    ensures
        position_from(text, '\n', from) == stop,
    decreases stop - from,
{
    if from < stop {
        lemma_position_past(text, stop, from + 1);
    }
}

/// A reply to an opened message goes to the sender that is shown, under the
/// subject that is shown: what is read back from the text of an opened
/// message are its From and Subject fields, whatever its date and its body
/// hold, as long as each of the two fields fits one line.
pub proof fn lemma_reply_reads_what_is_shown(
    from: Seq<char>,
    subject: Seq<char>,
    date: Seq<char>,
    body: Seq<char>,
)
    requires
        fits_one_line(from),
        fits_one_line(subject),
    ensures
        reply_recipient(detail_text(from, subject, date, body)) == from,
        subject_line(detail_text(from, subject, date, body)) == subject,
{
    reveal_strlit("From: ");
    reveal_strlit("\nSubject: ");
    reveal_strlit("Subject: ");
    reveal_strlit("\nDate: ");
    reveal_strlit("Date: ");
    reveal_strlit("\n\n");
    let text = detail_text(from, subject, date, body);
    let first = "From: "@ + from;
    let second = "Subject: "@ + subject;
    let after_second = "Date: "@ + date + "\n\n"@ + body;
    let after_first = second + seq!['\n'] + after_second;
    assert("\nSubject: "@ == seq!['\n'] + "Subject: "@);
    assert("\nDate: "@ == seq!['\n'] + "Date: "@);
    assert(text == first + seq!['\n'] + after_first);
    assert(fits_one_line(first)) by {
        assert(first.last() == if from.len() > 0 {
            from.last()
        } else {
            ' '
        });
    }
    assert(fits_one_line(second)) by {
        assert(second.last() == if subject.len() > 0 {
            subject.last()
        } else {
            ' '
        });
    }
    lemma_first_line_of(first, after_first);
    lemma_first_line_of(second, after_second);
    assert(first.take(6) == "From: "@);
    assert(first.skip(6) == from);
    assert(second.take(9) == "Subject: "@);
    assert(second.skip(9) == subject);
}

/// To whom a reply to the message with the text `text` goes, and the subject
/// of the message: what the first line says after `From: ` and what the
/// second line says after `Subject: `.
pub fn reply_fields(text: &str) -> (out: (String, String))
    ensures
        out.0@ == reply_recipient(text@),
        out.1@ == subject_line(text@),
{
    let chars = chars_of(text);
    let first = line_of(&chars);
    let stop = find_from(&chars, '\n', 0);
    let rest = if stop < chars.len() {
        slice_of(&chars, stop + 1, chars.len())
    } else {
        Vec::new()
    };
    assert(rest@ == after_first_line(chars@));
    let second = line_of(&rest);
    let to = after_label(&first, "From: ");
    let subject = after_label(&second, "Subject: ");
    (string_of(&to), string_of(&subject))
}

fn line_of(text: &Vec<char>) -> (line: Option<Vec<char>>)
    ensures
        match line {
            Some(l) => first_line(text@) == Some(l@),
            None => first_line(text@).is_none(),
        },
{
    if text.len() == 0 {
        return None;
    }
    let stop = find_from(text, '\n', 0);
    if 0 < stop && stop < text.len() && text[stop - 1] == '\r' {
        Some(slice_of(text, 0, stop - 1))
    } else {
        Some(slice_of(text, 0, stop))
    }
}

fn after_label(line: &Option<Vec<char>>, label: &str) -> (out: Vec<char>)
    ensures
        out@ == labelled(
            match *line {
                Some(l) => Some(l@),
                None => None,
            },
            label@,
        ),
{
    let label_chars = chars_of(label);
    match line {
        Some(l) => {
            if has_prefix(l, &label_chars) {
                slice_of(l, label_chars.len(), l.len())
            } else {
                Vec::new()
            }
        },
        None => Vec::new(),
    }
}

/// The subject of a reply to a message with the subject `subject`.
pub fn reply_subject_of(subject: &str) -> (out: String)
    ensures
        out@ == reply_subject(subject@),
{
    let chars = chars_of(subject);
    let mark = chars_of("re:");
    if has_prefix_ignoring_case(&chars, &mark) {
        string_of(&chars)
    } else {
        let mut out = "Re: ".to_owned();
        out.append(subject);
        out
    }
}

impl App {
    #[verifier::type_invariant]
    spec fn selection_valid(self) -> bool {
        self.selected == 0 || self.selected < self.items.len()
    }

    /// The state as a mathematical value.
    pub closed spec fn view(&self) -> AppView {
        AppView {
            items: items_view(self.items@),
            selected: self.selected as int,
            mode: self.mode,
            view_buffer: self.view_buffer@,
            view_scroll: self.view_scroll as int,
            compose_to: self.compose_to@,
            compose_subject: self.compose_subject@,
            compose_field: self.compose_field,
            inbox_count: self.inbox_count as int,
            tooltip: self.tooltip@,
        }
    }

    /// The reader on its inbox screen, with the given lines, the first of
    /// them highlighted.
    pub fn new(items: Vec<(u32, String)>, inbox_count: usize, tooltip: String) -> (app: App)
        ensures
            app@ == (AppView {
                items: items_view(items@),
                selected: 0,
                mode: Mode::Inbox,
                view_buffer: Seq::empty(),
                view_scroll: 0,
                compose_to: Seq::empty(),
                compose_subject: Seq::empty(),
                compose_field: ComposeField::To,
                inbox_count: inbox_count as int,
                tooltip: tooltip@,
            }),
    {
        App {
            items,
            selected: 0,
            mode: Mode::Inbox,
            view_buffer: String::new(),
            view_scroll: 0,
            compose_to: String::new(),
            compose_subject: String::new(),
            compose_field: ComposeField::To,
            inbox_count,
            tooltip,
        }
    }

    /// Takes one key press.  `control` says that the control key, and no
    /// other modifier, was held.
    pub fn handle_key(&mut self, key: Key, control: bool) -> (action: Action)
        ensures
            final(self)@ == after_key(old(self)@, key, control),
            action == action_for(old(self)@, key, control),
            selection_in_range(final(self)@),
    {
        proof {
            use_type_invariant(&*self);
        }
        match self.mode {
            Mode::Inbox => self.inbox_key(key),
            Mode::ConfirmDelete => self.confirm_key(key),
            Mode::View => self.view_key(key),
            Mode::Compose => self.compose_key(key, control),
        }
    }

    fn inbox_key(&mut self, key: Key) -> (action: Action)
        requires
            old(self).mode == Mode::Inbox,
        ensures
            final(self)@ == inbox_key(old(self)@, key),
            action == action_for(old(self)@, key, false),
            selection_in_range(final(self)@),
    {
        proof {
            use_type_invariant(&*self);
        }
        match key {
            Key::Char('q') => Action::Quit,
            Key::Char('v') => {
                if self.selected < self.items.len() {
                    Action::Open(self.items[self.selected].0)
                } else {
                    Action::Nothing
                }
            },
            Key::Char('r') => {
                if self.selected < self.items.len() {
                    Action::Reply(self.items[self.selected].0)
                } else {
                    Action::Nothing
                }
            },
            Key::Char('c') => {
                self.compose_to = String::new();
                self.compose_subject = String::new();
                self.compose_field = ComposeField::To;
                self.mode = Mode::Compose;
                self.tooltip = String::new();
                Action::ClearBody
            },
            Key::Char('m') => {
                self.tooltip = "Loading more\u{2026}".to_owned();
                self.inbox_count = if self.inbox_count <= usize::MAX - LOAD_STEP {
                    self.inbox_count + LOAD_STEP
                } else {
                    usize::MAX
                };
                Action::LoadMore(self.inbox_count)
            },
            Key::Char('d') => {
                self.mode = Mode::ConfirmDelete;
                self.tooltip =
                "Are you sure you want to delete? Press 'd' again to confirm.".to_owned();
                Action::Nothing
            },
            Key::Down => {
                if self.items.len() > 0 {
                    self.selected = if self.selected + 1 < self.items.len() {
                        self.selected + 1
                    } else {
                        0
                    };
                }
                self.tooltip = String::new();
                Action::Nothing
            },
            Key::Up => {
                if self.selected > 0 {
                    self.selected = self.selected - 1;
                }
                self.tooltip = String::new();
                Action::Nothing
            },
            _ => Action::Nothing,
        }
    }

    fn confirm_key(&mut self, key: Key) -> (action: Action)
        requires
            old(self).mode == Mode::ConfirmDelete,
        ensures
            final(self)@ == confirm_key(old(self)@, key),
            action == action_for(old(self)@, key, false),
            selection_in_range(final(self)@),
    {
        proof {
            use_type_invariant(&*self);
        }
        let is_d = match key {
            Key::Char('d') => true,
            _ => false,
        };
        if is_d && self.selected < self.items.len() {
            Action::Delete(self.items[self.selected].0)
        } else {
            self.mode = Mode::Inbox;
            self.tooltip = String::new();
            Action::Nothing
        }
    }

    fn view_key(&mut self, key: Key) -> (action: Action)
        requires
            old(self).mode == Mode::View,
        ensures
            final(self)@ == view_key(old(self)@, key),
            action == Action::Nothing,
            selection_in_range(final(self)@),
    {
        proof {
            use_type_invariant(&*self);
        }
        match key {
            Key::Esc => {
                self.mode = Mode::Inbox;
                self.tooltip = String::new();
            },
            Key::Down => {
                if self.view_scroll < u16::MAX {
                    self.view_scroll = self.view_scroll + 1;
                }
            },
            Key::Up => {
                if self.view_scroll > 0 {
                    self.view_scroll = self.view_scroll - 1;
                }
            },
            _ => {},
        }
        Action::Nothing
    }

    fn compose_key(&mut self, key: Key, control: bool) -> (action: Action)
        requires
            old(self).mode == Mode::Compose,
        ensures
            final(self)@ == compose_key(old(self)@, key, control),
            action == action_for(old(self)@, key, control),
            selection_in_range(final(self)@),
    {
        proof {
            use_type_invariant(&*self);
        }
        match key {
            Key::Esc => {
                self.mode = Mode::Inbox;
                self.tooltip = String::new();
                return Action::Nothing;
            },
            Key::Tab => {
                self.compose_field = match self.compose_field {
                    ComposeField::To => ComposeField::Subject,
                    ComposeField::Subject => ComposeField::Body,
                    ComposeField::Body => ComposeField::To,
                };
                self.tooltip = String::new();
                return Action::Nothing;
            },
            Key::BackTab => {
                self.compose_field = match self.compose_field {
                    ComposeField::To => ComposeField::Body,
                    ComposeField::Subject => ComposeField::To,
                    ComposeField::Body => ComposeField::Subject,
                };
                self.tooltip = String::new();
                return Action::Nothing;
            },
            Key::Char('s') => {
                if control {
                    return Action::Send;
                }
            },
            _ => {},
        }
        match self.compose_field {
            ComposeField::To => {
                match key {
                    Key::Char(c) => {
                        let mut line = self.compose_to.clone();
                        line.push(c);
                        self.compose_to = line;
                        self.tooltip = String::new();
                    },
                    Key::Backspace => {
                        let mut line = self.compose_to.clone();
                        line.pop();
                        self.compose_to = line;
                    },
                    Key::Enter => {
                        self.compose_field = ComposeField::Subject;
                    },
                    _ => {},
                }
                Action::Nothing
            },
            ComposeField::Subject => {
                match key {
                    Key::Char(c) => {
                        let mut line = self.compose_subject.clone();
                        line.push(c);
                        self.compose_subject = line;
                        self.tooltip = String::new();
                    },
                    Key::Backspace => {
                        let mut line = self.compose_subject.clone();
                        line.pop();
                        self.compose_subject = line;
                    },
                    Key::Enter => {
                        self.compose_field = ComposeField::Body;
                    },
                    _ => {},
                }
                Action::Nothing
            },
            ComposeField::Body => {
                self.tooltip = String::new();
                Action::EditBody
            },
        }
    }

    /// Shows the message whose text has arrived.
    pub fn opened(&mut self, text: String)
        ensures
            final(self)@ == after_opened(old(self)@, text@),
    {
        proof {
            use_type_invariant(&*self);
        }
        self.view_buffer = text;
        self.view_scroll = 0;
        self.mode = Mode::View;
        self.tooltip = String::new();
    }

    /// Starts a reply to the message whose text has arrived: the recipient
    /// and the subject are filled in, and the body takes the keys.
    pub fn reply_opened(&mut self, text: &str)
        ensures
            final(self)@ == after_reply_opened(old(self)@, text@),
    {
        proof {
            use_type_invariant(&*self);
        }
        let fields = reply_fields(text);
        self.compose_to = fields.0;
        self.compose_subject = reply_subject_of(fields.1.as_str());
        self.compose_field = ComposeField::Body;
        self.mode = Mode::Compose;
        self.tooltip = String::new();
    }

    /// Shows the inbox that has been loaded anew, its first line highlighted.
    pub fn inbox_loaded(&mut self, items: Vec<(u32, String)>)
        ensures
            final(self)@ == after_inbox_loaded(old(self)@, items_view(items@)),
    {
        proof {
            use_type_invariant(&*self);
        }
        self.selected = 0;
        self.items = items;
        let mut tooltip = "Successfully loaded ".to_owned();
        tooltip.append(decimal_text(self.inbox_count).as_str());
        tooltip.append(" messages");
        self.tooltip = tooltip;
    }

    /// Says what follows a deletion that has gone through: the inbox view is
    /// fetched anew, with the count in force.  Nothing follows a deletion
    /// that has failed.
    pub fn removed(&self) -> (action: Action)
        ensures
            action == Action::Reload(self@.inbox_count as usize),
    {
        Action::Reload(self.inbox_count)
    }

    /// Shows the inbox as loaded after a deletion.
    pub fn deleted(&mut self, items: Vec<(u32, String)>)
        ensures
            final(self)@ == after_deleted(old(self)@, items_view(items@)),
    {
        proof {
            use_type_invariant(&*self);
        }
        self.selected = 0;
        self.items = items;
        self.mode = Mode::Inbox;
        self.tooltip = "Deleted!".to_owned();
    }

    /// Returns to the inbox after the composed message has been sent.
    pub fn sent(&mut self)
        ensures
            final(self)@ == after_sent(old(self)@),
    {
        proof {
            use_type_invariant(&*self);
        }
        self.mode = Mode::Inbox;
        self.tooltip = "Sent!".to_owned();
    }

    /// The lines of the inbox.
    pub fn items(&self) -> (items: &Vec<(u32, String)>)
        ensures
            items_view(items@) == self@.items,
    {
        &self.items
    }

    /// The position of the highlighted line.
    pub fn selected(&self) -> (selected: usize)
        ensures
            selected == self@.selected,
            selection_in_range(self@),
    {
        proof {
            use_type_invariant(self);
        }
        self.selected
    }

    /// The screen that is shown.
    pub fn mode(&self) -> (mode: Mode)
        ensures
            mode == self@.mode,
    {
        self.mode
    }

    /// The text of the opened message.
    pub fn view_buffer(&self) -> (text: &str)
        ensures
            text@ == self@.view_buffer,
    {
        self.view_buffer.as_str()
    }

    /// How many lines the opened message is scrolled down.
    pub fn view_scroll(&self) -> (lines: u16)
        ensures
            lines == self@.view_scroll,
    {
        self.view_scroll
    }

    /// The recipient of the message under composition.
    pub fn compose_to(&self) -> (text: &str)
        ensures
            text@ == self@.compose_to,
    {
        self.compose_to.as_str()
    }

    /// The subject of the message under composition.
    pub fn compose_subject(&self) -> (text: &str)
        ensures
            text@ == self@.compose_subject,
    {
        self.compose_subject.as_str()
    }

    /// The field that takes the keys.
    pub fn compose_field(&self) -> (field: ComposeField)
        ensures
            field == self@.compose_field,
    {
        self.compose_field
    }

    /// How many messages the inbox view asks for.
    pub fn inbox_count(&self) -> (count: usize)
        ensures
            count == self@.inbox_count,
    {
        self.inbox_count
    }

    /// The status line.
    pub fn tooltip(&self) -> (text: &str)
        ensures
            text@ == self@.tooltip,
    {
        self.tooltip.as_str()
    }
}

} // verus!
