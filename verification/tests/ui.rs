use mail_reader::display::MailDetail;
use mail_reader::ui::{reply_fields, reply_subject_of, Action, App, ComposeField, Key, Mode};

fn inbox(n: u32) -> Vec<(u32, String)> {
    (0..n).map(|i| (100 + i, format!("line {}", i))).collect()
}

fn app(n: u32) -> App {
    App::new(inbox(n), 20, String::new())
}

fn press(app: &mut App, key: Key) -> Action {
    app.handle_key(key, false)
}

fn type_text(app: &mut App, text: &str) {
    for c in text.chars() {
        assert_eq!(press(app, Key::Char(c)), Action::Nothing);
    }
}

#[test]
fn reader_starts_on_the_inbox_with_the_first_line_highlighted() {
    let app = App::new(inbox(3), 20, "hello".to_string());
    assert_eq!(app.mode(), Mode::Inbox);
    assert_eq!(app.selected(), 0);
    assert_eq!(app.items(), &inbox(3));
    assert_eq!(app.inbox_count(), 20);
    assert_eq!(app.tooltip(), "hello");
    assert_eq!(app.view_buffer(), "");
    assert_eq!(app.view_scroll(), 0);
    assert_eq!(app.compose_to(), "");
    assert_eq!(app.compose_subject(), "");
    assert_eq!(app.compose_field(), ComposeField::To);
}

#[test]
fn q_quits_only_on_the_inbox() {
    let mut a = app(2);
    assert_eq!(press(&mut a, Key::Char('q')), Action::Quit);
    assert_eq!(a.mode(), Mode::Inbox);
    a.opened("text".to_string());
    assert_eq!(press(&mut a, Key::Char('q')), Action::Nothing);
    assert_eq!(a.mode(), Mode::View);
}

#[test]
fn highlight_moves_down_around_and_up_to_the_top() {
    let mut a = App::new(inbox(3), 20, "old".to_string());
    assert_eq!(press(&mut a, Key::Down), Action::Nothing);
    assert_eq!(a.selected(), 1);
    assert_eq!(a.tooltip(), "");
    press(&mut a, Key::Down);
    assert_eq!(a.selected(), 2);
    press(&mut a, Key::Down);
    assert_eq!(a.selected(), 0);
    press(&mut a, Key::Up);
    assert_eq!(a.selected(), 0);
    press(&mut a, Key::Down);
    press(&mut a, Key::Down);
    press(&mut a, Key::Up);
    assert_eq!(a.selected(), 1);
    let mut empty = app(0);
    press(&mut empty, Key::Down);
    assert_eq!(empty.selected(), 0);
    press(&mut empty, Key::Up);
    assert_eq!(empty.selected(), 0);
}

#[test]
fn v_opens_the_highlighted_message() {
    let mut a = app(3);
    press(&mut a, Key::Down);
    assert_eq!(press(&mut a, Key::Char('v')), Action::Open(101));
    assert_eq!(a.mode(), Mode::Inbox);
    a.opened("From: x\n\nbody".to_string());
    assert_eq!(a.mode(), Mode::View);
    assert_eq!(a.view_buffer(), "From: x\n\nbody");
    assert_eq!(a.view_scroll(), 0);
    assert_eq!(a.tooltip(), "");
    assert_eq!(a.selected(), 1);
}

#[test]
fn nothing_is_opened_answered_or_deleted_on_an_empty_inbox() {
    let mut a = app(0);
    assert_eq!(press(&mut a, Key::Char('v')), Action::Nothing);
    assert_eq!(press(&mut a, Key::Char('r')), Action::Nothing);
    assert_eq!(a.mode(), Mode::Inbox);
    assert_eq!(press(&mut a, Key::Char('d')), Action::Nothing);
    assert_eq!(a.mode(), Mode::ConfirmDelete);
    assert_eq!(press(&mut a, Key::Char('d')), Action::Nothing);
    assert_eq!(a.mode(), Mode::Inbox);
    assert_eq!(a.tooltip(), "");
}

#[test]
fn opened_message_scrolls_and_closes() {
    let mut a = app(1);
    a.opened("text".to_string());
    assert_eq!(press(&mut a, Key::Up), Action::Nothing);
    assert_eq!(a.view_scroll(), 0);
    press(&mut a, Key::Down);
    press(&mut a, Key::Down);
    assert_eq!(a.view_scroll(), 2);
    press(&mut a, Key::Up);
    assert_eq!(a.view_scroll(), 1);
    press(&mut a, Key::Char('x'));
    press(&mut a, Key::Enter);
    assert_eq!(a.mode(), Mode::View);
    assert_eq!(a.view_scroll(), 1);
    assert_eq!(press(&mut a, Key::Esc), Action::Nothing);
    assert_eq!(a.mode(), Mode::Inbox);
    assert_eq!(a.tooltip(), "");
    // The next message opens at its top.
    a.opened("other".to_string());
    assert_eq!(a.view_scroll(), 0);
}

#[test]
fn scrolling_stops_at_the_largest_offset() {
    let mut a = app(1);
    a.opened("text".to_string());
    let mut i: u32 = 0;
    while i < 65535 + 10 {
        press(&mut a, Key::Down);
        i += 1;
    }
    assert_eq!(a.view_scroll(), u16::MAX);
}

#[test]
fn m_loads_ten_more() {
    let mut a = app(2);
    press(&mut a, Key::Down);
    assert_eq!(press(&mut a, Key::Char('m')), Action::LoadMore(30));
    assert_eq!(a.inbox_count(), 30);
    assert_eq!(a.tooltip(), "Loading more\u{2026}");
    a.inbox_loaded(inbox(5));
    assert_eq!(a.items(), &inbox(5));
    assert_eq!(a.selected(), 0);
    assert_eq!(a.tooltip(), "Successfully loaded 30 messages");
    assert_eq!(a.mode(), Mode::Inbox);
    assert_eq!(press(&mut a, Key::Char('m')), Action::LoadMore(40));
}

#[test]
fn count_never_passes_the_largest_count() {
    let mut a = App::new(inbox(1), usize::MAX - 3, String::new());
    assert_eq!(press(&mut a, Key::Char('m')), Action::LoadMore(usize::MAX));
    assert_eq!(a.inbox_count(), usize::MAX);
    let mut b = App::new(inbox(1), usize::MAX - 10, String::new());
    assert_eq!(press(&mut b, Key::Char('m')), Action::LoadMore(usize::MAX));
    a.inbox_loaded(Vec::new());
    assert_eq!(a.tooltip(), format!("Successfully loaded {} messages", usize::MAX));
}

#[test]
fn d_asks_and_second_d_deletes() {
    let mut a = app(3);
    press(&mut a, Key::Down);
    press(&mut a, Key::Down);
    assert_eq!(press(&mut a, Key::Char('d')), Action::Nothing);
    assert_eq!(a.mode(), Mode::ConfirmDelete);
    assert_eq!(a.tooltip(), "Are you sure you want to delete? Press 'd' again to confirm.");
    assert_eq!(press(&mut a, Key::Char('d')), Action::Delete(102));
    assert_eq!(a.mode(), Mode::ConfirmDelete);
    assert_eq!(a.removed(), Action::Reload(20));
    assert_eq!(a.mode(), Mode::ConfirmDelete);
    assert_eq!(a.items(), &inbox(3));
    a.deleted(inbox(2));
    assert_eq!(a.mode(), Mode::Inbox);
    assert_eq!(a.items(), &inbox(2));
    assert_eq!(a.selected(), 0);
    assert_eq!(a.tooltip(), "Deleted!");
    assert_eq!(a.inbox_count(), 20);
}

#[test]
fn any_other_key_cancels_the_deletion() {
    let keys = [
        Key::Esc,
        Key::Char('D'),
        Key::Char('y'),
        Key::Enter,
        Key::Tab,
        Key::BackTab,
        Key::Backspace,
        Key::Up,
        Key::Down,
        Key::Other,
    ];
    for key in keys {
        let mut a = app(3);
        press(&mut a, Key::Down);
        press(&mut a, Key::Char('d'));
        assert_eq!(press(&mut a, key), Action::Nothing);
        assert_eq!(a.mode(), Mode::Inbox);
        assert_eq!(a.tooltip(), "");
        assert_eq!(a.selected(), 1);
        assert_eq!(a.items(), &inbox(3));
    }
}

#[test]
fn c_starts_an_empty_message() {
    let mut a = app(1);
    a.reply_opened("From: old@x.com\nSubject: old\n");
    press(&mut a, Key::Esc);
    assert_eq!(press(&mut a, Key::Char('c')), Action::ClearBody);
    assert_eq!(a.mode(), Mode::Compose);
    assert_eq!(a.compose_to(), "");
    assert_eq!(a.compose_subject(), "");
    assert_eq!(a.compose_field(), ComposeField::To);
    assert_eq!(a.tooltip(), "");
}

#[test]
fn keys_fill_the_fields_in_turn() {
    let mut a = app(1);
    press(&mut a, Key::Char('c'));
    type_text(&mut a, "jane@x.comm");
    assert_eq!(press(&mut a, Key::Backspace), Action::Nothing);
    assert_eq!(a.compose_to(), "jane@x.com");
    assert_eq!(press(&mut a, Key::Enter), Action::Nothing);
    assert_eq!(a.compose_field(), ComposeField::Subject);
    type_text(&mut a, "Hi s");
    assert_eq!(a.compose_subject(), "Hi s");
    assert_eq!(a.compose_to(), "jane@x.com");
    press(&mut a, Key::Backspace);
    press(&mut a, Key::Backspace);
    press(&mut a, Key::Backspace);
    press(&mut a, Key::Backspace);
    press(&mut a, Key::Backspace);
    assert_eq!(a.compose_subject(), "");
    press(&mut a, Key::Up);
    press(&mut a, Key::Other);
    assert_eq!(a.compose_field(), ComposeField::Subject);
    press(&mut a, Key::Enter);
    assert_eq!(a.compose_field(), ComposeField::Body);
    assert_eq!(press(&mut a, Key::Char('x')), Action::EditBody);
    assert_eq!(press(&mut a, Key::Enter), Action::EditBody);
    assert_eq!(press(&mut a, Key::Backspace), Action::EditBody);
    assert_eq!(press(&mut a, Key::Up), Action::EditBody);
    assert_eq!(a.compose_field(), ComposeField::Body);
    assert_eq!(a.compose_to(), "jane@x.com");
}

#[test]
fn tab_and_back_tab_go_round_the_fields() {
    let mut a = app(1);
    press(&mut a, Key::Char('c'));
    let forward = [ComposeField::Subject, ComposeField::Body, ComposeField::To];
    for field in forward {
        assert_eq!(press(&mut a, Key::Tab), Action::Nothing);
        assert_eq!(a.compose_field(), field);
    }
    let backward = [ComposeField::Body, ComposeField::Subject, ComposeField::To];
    for field in backward {
        assert_eq!(press(&mut a, Key::BackTab), Action::Nothing);
        assert_eq!(a.compose_field(), field);
    }
}

#[test]
fn control_s_sends_from_any_field() {
    for tabs in 0..3 {
        let mut a = app(1);
        press(&mut a, Key::Char('c'));
        for _ in 0..tabs {
            press(&mut a, Key::Tab);
        }
        assert_eq!(a.handle_key(Key::Char('s'), true), Action::Send);
        assert_eq!(a.mode(), Mode::Compose);
        assert_eq!(a.compose_to(), "");
        a.sent();
        assert_eq!(a.mode(), Mode::Inbox);
        assert_eq!(a.tooltip(), "Sent!");
    }
}

#[test]
fn s_alone_and_control_with_other_letters_are_typed() {
    let mut a = app(1);
    press(&mut a, Key::Char('c'));
    assert_eq!(a.handle_key(Key::Char('s'), false), Action::Nothing);
    assert_eq!(a.handle_key(Key::Char('a'), true), Action::Nothing);
    assert_eq!(a.handle_key(Key::Char('S'), true), Action::Nothing);
    assert_eq!(a.compose_to(), "saS");
}

#[test]
fn escape_leaves_the_message_under_composition() {
    let mut a = app(1);
    press(&mut a, Key::Char('c'));
    type_text(&mut a, "x");
    assert_eq!(press(&mut a, Key::Esc), Action::Nothing);
    assert_eq!(a.mode(), Mode::Inbox);
    assert_eq!(a.compose_to(), "x");
}

#[test]
fn completions_set_or_clear_the_status_line() {
    let mut a = App::new(inbox(1), 20, "note".to_string());
    a.reply_opened("From: a@b.c\nSubject: s\n");
    assert_eq!(a.tooltip(), "");
    let mut b = App::new(inbox(1), 20, "note".to_string());
    b.opened("t".to_string());
    assert_eq!(b.tooltip(), "");
    let mut c = App::new(inbox(1), 20, "note".to_string());
    c.sent();
    assert_eq!(c.tooltip(), "Sent!");
    c.deleted(inbox(1));
    assert_eq!(c.tooltip(), "Deleted!");
    c.inbox_loaded(inbox(1));
    assert_eq!(c.tooltip(), "Successfully loaded 20 messages");
}

#[test]
fn r_answers_the_highlighted_message() {
    let mut a = app(2);
    press(&mut a, Key::Down);
    assert_eq!(press(&mut a, Key::Char('r')), Action::Reply(101));
    assert_eq!(a.mode(), Mode::Inbox);
    a.reply_opened("From: Jane <jane@x.com>\nSubject: Hello\nDate: today\n\nbody");
    assert_eq!(a.mode(), Mode::Compose);
    assert_eq!(a.compose_to(), "Jane <jane@x.com>");
    assert_eq!(a.compose_subject(), "Re: Hello");
    assert_eq!(a.compose_field(), ComposeField::Body);
    assert_eq!(a.tooltip(), "");
}

#[test]
fn reply_reads_the_first_two_lines_of_the_shown_text() {
    let both = |t: &str| {
        let (to, subject) = reply_fields(t);
        (to, subject)
    };
    assert_eq!(both("From: a\nSubject: b\n"), ("a".to_string(), "b".to_string()));
    assert_eq!(both("From: a\r\nSubject: b\r\nrest"), ("a".to_string(), "b".to_string()));
    assert_eq!(both("From: a"), ("a".to_string(), String::new()));
    assert_eq!(both("From: a\n"), ("a".to_string(), String::new()));
    assert_eq!(both(""), (String::new(), String::new()));
    assert_eq!(both("\n"), (String::new(), String::new()));
    assert_eq!(both("from: a\nsubject: b"), (String::new(), String::new()));
    assert_eq!(both("From:a\nSubject:b"), (String::new(), String::new()));
    assert_eq!(both("Subject: b\nFrom: a"), (String::new(), String::new()));
    assert_eq!(both("From: \nSubject: "), (String::new(), String::new()));
    assert_eq!(both("From: a\r"), ("a\r".to_string(), String::new()));
    assert_eq!(both("From: a\r\r\nSubject: b\r"), ("a\r".to_string(), "b\r".to_string()));
    assert_eq!(both("X\nSubject: s\nFrom: late"), (String::new(), "s".to_string()));
}

#[test]
fn reply_fields_agree_with_the_lines_of_the_standard_library() {
    let texts = [
        "From: a\nSubject: b\nDate: c\n\nbody",
        "From: a\r\nSubject: b",
        "\r\nSubject: x",
        "From: q\n\nSubject: not second",
        "From: a\rSubject: b\n",
        "",
        "\n\n",
        "From: only",
        "From: a\nSubject: Re: b\r\n",
    ];
    for text in texts {
        let mut lines = text.lines();
        let to = lines.next().and_then(|l| l.strip_prefix("From: ")).unwrap_or("").to_string();
        let subject =
            lines.next().and_then(|l| l.strip_prefix("Subject: ")).unwrap_or("").to_string();
        assert_eq!(reply_fields(text), (to, subject), "{:?}", text);
    }
}

#[test]
fn reply_subject_gets_one_re_and_no_more() {
    assert_eq!(reply_subject_of("Hello"), "Re: Hello");
    assert_eq!(reply_subject_of("Re: Hello"), "Re: Hello");
    assert_eq!(reply_subject_of("RE: Hello"), "RE: Hello");
    assert_eq!(reply_subject_of("re:hello"), "re:hello");
    assert_eq!(reply_subject_of("rE:"), "rE:");
    assert_eq!(reply_subject_of(""), "Re: ");
    assert_eq!(reply_subject_of("Re"), "Re: Re");
    assert_eq!(reply_subject_of(" Re: x"), "Re:  Re: x");
    assert_eq!(reply_subject_of("Regarding"), "Re: Regarding");
}

#[test]
fn reply_to_an_opened_message_goes_to_its_sender() {
    let detail = MailDetail {
        from: "Jane <jane@x.com>".to_string(),
        subject: "re: plans".to_string(),
        date: "today".to_string(),
        body: "From: trap\nSubject: trap".to_string(),
    };
    let mut a = app(1);
    a.reply_opened(&detail.text());
    assert_eq!(a.compose_to(), "Jane <jane@x.com>");
    assert_eq!(a.compose_subject(), "re: plans");
}

#[test]
fn unknown_keys_change_nothing_on_the_inbox() {
    let mut a = App::new(inbox(2), 20, "note".to_string());
    let keys =
        [Key::Esc, Key::Tab, Key::BackTab, Key::Enter, Key::Backspace, Key::Other, Key::Char('x')];
    for key in keys {
        assert_eq!(press(&mut a, key), Action::Nothing);
        assert_eq!(a.mode(), Mode::Inbox);
        assert_eq!(a.tooltip(), "note");
        assert_eq!(a.selected(), 0);
    }
}

#[test]
fn inbox_is_loaded_anew_after_a_deletion_with_the_count_in_force() {
    let mut a = app(3);
    press(&mut a, Key::Char('m'));
    a.inbox_loaded(inbox(3));
    press(&mut a, Key::Char('d'));
    assert_eq!(press(&mut a, Key::Char('d')), Action::Delete(100));
    assert_eq!(a.removed(), Action::Reload(30));
    a.deleted(inbox(2));
    assert_eq!(a.inbox_count(), 30);
    assert_eq!(a.mode(), Mode::Inbox);
}
