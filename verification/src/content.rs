//! Content resolution: the one text that is shown for a message.
//!
//! A message is a tree of parts.  Each part has a content type; a part may
//! hold text, and a multipart container holds further parts in the order in
//! which they stand in the message.  Any plain-text part beats any HTML part:
//! the tree is searched whole, in pre-order, for a `text/plain` part, and
//! only if there is none, searched again for a `text/html` part, which is
//! rendered to plain text of 80 columns.  Where neither exists, where the
//! message or the chosen part cannot be decoded, and where the HTML cannot be
//! rendered or cannot safely be handed to the renderer, the raw message is
//! shown as text instead.

use vstd::prelude::*;
use vstd::utf8::{decode_utf8, valid_utf8};
use crate::error::MailError;
use crate::text::{
    chars_of, count_char, count_of, decode_lossy, eq_ignoring_case, folded, found_at,
    holds_word, lossy_text, mentions, same_ignoring_case, stands_at,
};

verus! {

/// The width, in columns, to which HTML is rendered.
pub const RENDER_WIDTH: usize = 80;

/// One part of a message, with the parts nested in it.
///
/// `body` is the part's content as text, with its transfer encoding undone
/// and its character set decoded; it is `None` where that decoding fails.
#[derive(Debug)]
pub struct MimePart {
    pub mimetype: String,
    pub body: Option<String>,
    pub subparts: Vec<MimePart>,
}

/// A part as a mathematical value.
pub ghost struct PartView {
    pub mimetype: Seq<char>,
    pub body: Option<Seq<char>>,
    pub subparts: Seq<PartView>,
}

/// The view of an optional text.
pub open spec fn text_view(text: Option<String>) -> Option<Seq<char>> {
    match text {
        Some(t) => Some(t@),
        None => None,
    }
}

/// The views of a run of parts.
pub open spec fn parts_view(parts: Seq<MimePart>) -> Seq<PartView>
    decreases parts,
{
    if parts.len() == 0 {
        Seq::empty()
    } else {
        parts_view(parts.drop_last()).push(part_view(parts.last()))
    }
}

/// The view of a part.
pub open spec fn part_view(part: MimePart) -> PartView
    decreases part,
{
    PartView {
        mimetype: part.mimetype@,
        body: text_view(part.body),
        subparts: parts_view(part.subparts@),
    }
}

impl View for MimePart {
    type V = PartView;

    open spec fn view(&self) -> PartView {
        part_view(*self)
    }
}

/// The views of a run of parts, one by one.
pub proof fn lemma_parts_view(parts: Seq<MimePart>)
    ensures
        parts_view(parts).len() == parts.len(),
        forall|i: int|
            0 <= i < parts.len() ==> (#[trigger] parts_view(parts)[i]) == part_view(parts[i]),
    decreases parts.len(),
{
    if parts.len() > 0 {
        lemma_parts_view(parts.drop_last());
    }
}

/// The first part of type `wanted` in the tree under `part`, in pre-order:
/// the part itself, or else the first such part of its first subpart that
/// has one.  Types are compared up to the case of ASCII letters.
pub open spec fn first_of_type(part: PartView, wanted: Seq<char>) -> Option<PartView>
    decreases part, 1int,
{
    if same_ignoring_case(part.mimetype, wanted) {
        Some(part)
    } else {
        first_among(part.subparts, wanted)
    }
}

/// The first part of type `wanted` in the trees under `parts`, in pre-order.
pub open spec fn first_among(parts: Seq<PartView>, wanted: Seq<char>) -> Option<PartView>
    decreases parts, 0int,
{
    if parts.len() == 0 {
        None
    } else {
        match first_of_type(parts.first(), wanted) {
            Some(found) => Some(found),
            None => first_among(parts.drop_first(), wanted),
        }
    }
}

/// The parts of the tree under `part`, in pre-order.
pub open spec fn in_order(part: PartView) -> Seq<PartView>
    decreases part, 1int,
{
    seq![part] + all_in_order(part.subparts)
}

/// The parts of the trees under `parts`, in pre-order.
pub open spec fn all_in_order(parts: Seq<PartView>) -> Seq<PartView>
    decreases parts, 0int,
{
    if parts.len() == 0 {
        Seq::empty()
    } else {
        in_order(parts.first()) + all_in_order(parts.drop_first())
    }
}

/// Position `k` holds the first part of type `wanted` among `parts`.
pub open spec fn is_first_of_type(parts: Seq<PartView>, wanted: Seq<char>, k: int) -> bool {
    &&& 0 <= k < parts.len()
    &&& same_ignoring_case(parts[k].mimetype, wanted)
    &&& forall|j: int| 0 <= j < k ==> !same_ignoring_case((#[trigger] parts[j]).mimetype, wanted)
}

/// No part among `parts` is of type `wanted`.
pub open spec fn none_of_type(parts: Seq<PartView>, wanted: Seq<char>) -> bool {
    forall|j: int|
        0 <= j < parts.len() ==> !same_ignoring_case((#[trigger] parts[j]).mimetype, wanted)
}

/// `found` is the first part of type `wanted` among `parts`, or `None` where
/// they hold no such part.
pub open spec fn is_first_found(
    parts: Seq<PartView>,
    wanted: Seq<char>,
    found: Option<PartView>,
) -> bool {
    match found {
        Some(p) => exists|k: int| is_first_of_type(parts, wanted, k) && parts[k] == p,
        None => none_of_type(parts, wanted),
    }
}

/// The search of a tree finds the first part of the wanted type in the
/// pre-order of the tree's parts, at whatever depth it stands.
pub proof fn lemma_first_of_type(part: PartView, wanted: Seq<char>)
    ensures
        is_first_found(in_order(part), wanted, first_of_type(part, wanted)),
    decreases part, 1int,
{
    let all = in_order(part);
    let below = all_in_order(part.subparts);
    assert(all[0] == part);
    if same_ignoring_case(part.mimetype, wanted) {
        assert(is_first_of_type(all, wanted, 0));
    } else {
        lemma_first_among(part.subparts, wanted);
        lemma_shifted(seq![part], below, wanted, first_among(part.subparts, wanted));
    }
}

/// The search of a run of trees finds the first part of the wanted type in
/// the pre-order of their parts.
pub proof fn lemma_first_among(parts: Seq<PartView>, wanted: Seq<char>)
    ensures
        is_first_found(all_in_order(parts), wanted, first_among(parts, wanted)),
    decreases parts, 0int,
{
    if parts.len() > 0 {
        let head = in_order(parts.first());
        let tail = all_in_order(parts.drop_first());
        lemma_first_of_type(parts.first(), wanted);
        match first_of_type(parts.first(), wanted) {
            Some(p) => {
                let k = choose|k: int| is_first_of_type(head, wanted, k) && head[k] == p;
                assert((head + tail)[k] == head[k]);
                assert forall|j: int| 0 <= j < k implies !same_ignoring_case(
                    (#[trigger] (head + tail)[j]).mimetype,
                    wanted,
                ) by {
                    assert((head + tail)[j] == head[j]);
                }
                assert(is_first_of_type(head + tail, wanted, k));
            },
            None => {
                lemma_first_among(parts.drop_first(), wanted);
                lemma_shifted(head, tail, wanted, first_among(parts.drop_first(), wanted));
            },
        }
    }
}

proof fn lemma_shifted(
    head: Seq<PartView>,
    tail: Seq<PartView>,
    wanted: Seq<char>,
    found: Option<PartView>,
)
    requires
        none_of_type(head, wanted),
        is_first_found(tail, wanted, found),
    ensures
        is_first_found(head + tail, wanted, found),
{
    let all = head + tail;
    match found {
        Some(p) => {
            let k = choose|k: int| is_first_of_type(tail, wanted, k) && tail[k] == p;
            assert(all[head.len() + k] == tail[k]);
            assert forall|j: int| 0 <= j < head.len() + k implies !same_ignoring_case(
                (#[trigger] all[j]).mimetype,
                wanted,
            ) by {
                if j < head.len() {
                    assert(all[j] == head[j]);
                } else {
                    assert(all[j] == tail[j - head.len()]);
                }
            }
            assert(is_first_of_type(all, wanted, head.len() + k));
        },
        None => {
            assert forall|j: int| 0 <= j < all.len() implies !same_ignoring_case(
                (#[trigger] all[j]).mimetype,
                wanted,
            ) by {
                if j < head.len() {
                    assert(all[j] == head[j]);
                } else {
                    assert(all[j] == tail[j - head.len()]);
                }
            }
        },
    }
}

/// The text that HTML renders to at a width of `width` columns, as
/// `html2text` produces it with its plain decorator; `None` where it reports
/// that it cannot render.
pub uninterp spec fn rendered_html(html: Seq<char>, width: nat) -> Option<Seq<char>>;

/// The tree that `mailparse::parse_mail` builds of a raw message, each part
/// holding the type that `mailparse` read for it and, as body, the text that
/// `ParsedMail::get_body` gives for it (`None` where that fails); `None` where
/// `parse_mail` fails.
pub uninterp spec fn parsed_message(raw: Seq<u8>) -> Option<PartView>;

/// `mailparse::ParsedMail`, the tree as `mailparse` holds it.  Nothing of its
/// inside is known here; it is only copied into a tree of `MimePart`.
#[verifier::external_type_specification]
#[verifier::external_body]
pub struct ExParsedMail<'a>(mailparse::ParsedMail<'a>);

/// Copies a tree of `mailparse::ParsedMail` into a tree of `MimePart`: the
/// type from `ctype.mimetype`, the body from `ParsedMail::get_body`, the
/// subparts in their order.  Nothing is claimed of the result here.
#[verifier::external_body]
fn part_of(mail: &mailparse::ParsedMail<'_>) -> MimePart {
    MimePart {
        mimetype: mail.ctype.mimetype.clone(),
        body: mail.get_body().ok(),
        subparts: mail.subparts.iter().map(part_of).collect(),
    }
}

/// Calls `mailparse::parse_mail` and copies what it returns.  The result is
/// named `parsed_message`: the same bytes give the same tree.
#[verifier::external_body]
fn parse_message(raw: &[u8]) -> (tree: Option<MimePart>)
    ensures
        match tree {
            Some(t) => parsed_message(raw@) == Some(t@),
            None => parsed_message(raw@).is_none(),
        },
{
    match mailparse::parse_mail(raw) {
        Ok(mail) => Some(part_of(&mail)),
        Err(_) => None,
    }
}

/// `c` is white space between the parts of a tag.
pub open spec fn is_tag_space(c: char) -> bool {
    c == '\t' || c == '\n' || c == '\x0C' || c == '\r' || c == ' '
}

/// The first position at or after `from` that holds no white space.
pub open spec fn past_space(s: Seq<char>, from: int) -> int
    decreases s.len() - from,
{
    if 0 <= from < s.len() && is_tag_space(s[from]) {
        past_space(s, from + 1)
    } else {
        from
    }
}

/// Where the value of an attribute begins whose name ends in front of
/// position `from`: behind an equals sign, with white space allowed on both
/// sides of it, and behind one quotation mark if one stands there.  `None`
/// where no equals sign follows the name.
pub open spec fn value_start(s: Seq<char>, from: int) -> Option<int> {
    let sign = past_space(s, from);
    if 0 <= sign < s.len() && s[sign] == '=' {
        let begin = past_space(s, sign + 1);
        if 0 <= begin < s.len() && (s[begin] == '"' || s[begin] == '\'') {
            Some(begin + 1)
        } else {
            Some(begin)
        }
    } else {
        None
    }
}

/// `c` cannot stand in a value that is read as a number: white space, a
/// quotation mark, or the end of the tag.
pub open spec fn ends_number(c: char) -> bool {
    is_tag_space(c) || c == '"' || c == '\'' || c == '>'
}

/// How many characters from position `from` on could belong to a value that
/// is read as a number.
pub open spec fn number_len(s: Seq<char>, from: int) -> nat
    decreases s.len() - from,
{
    if 0 <= from < s.len() && !ends_number(s[from]) {
        1 + number_len(s, from + 1)
    } else {
        0
    }
}

/// The word `name` stands at position `at`, and behind it begins a value of
/// `n` or more characters that could be read as a number.
pub open spec fn long_value_at(s: Seq<char>, name: Seq<char>, at: int, n: nat) -> bool {
    &&& found_at(s, name, at)
    &&& value_start(s, at + name.len()) matches Some(begin)
    &&& number_len(s, begin) >= n
}

/// Somewhere in `s` the word `name`, in any case of ASCII letters, is
/// followed by a value of `n` or more characters that could be read as a
/// number.
pub open spec fn holds_long_value(s: Seq<char>, name: Seq<char>, n: nat) -> bool {
    exists|at: int| long_value_at(s, name, at, n)
}

/// The most characters of a value that is read as a number and added up.
pub const MOST_DIGITS: usize = 9;

/// The most tags of markup in which numbers are added up.
pub const MOST_TAGS: usize = 0xFFFF;

/// The markup has so few tags that sums over them cannot overflow.
pub open spec fn few_tags(html: Seq<char>) -> bool {
    let tags = count_of(html, '<');
    tags <= MOST_TAGS && tags * tags * 1_000_000_000 <= usize::MAX
}

/// The markup may hold a table cell with a span.
pub open spec fn holds_span(html: Seq<char>) -> bool {
    (mentions(html, "<td"@) || mentions(html, "<th"@)) && mentions(html, "colspan"@)
}

/// The markup may hold an ordered list with a start.
pub open spec fn holds_start(html: Seq<char>) -> bool {
    mentions(html, "<ol"@) && mentions(html, "start"@)
}

/// HTML that may be handed to the renderer: markup in which no number that
/// the renderer adds up is so large that a sum can overflow.
///
/// What is added up.  `html2text` reads two numbers out of the markup: the
/// `colspan` of a table cell, and the `start` of an ordered list.  It adds the
/// spans of the cells of a row to one another, gives a span of 0 the largest
/// such sum of its rows, and adds the spans of each row again; and it adds
/// the start of a list to the count of its items.  A sum that overflows makes
/// it panic or walk past the end of its columns.
///
/// Where the numbers stand.  The renderer finds them only in an attribute
/// named `colspan` of an element named `td` or `th`, and in an attribute
/// named `start` of an element named `ol`.  `html5ever` makes a name only of
/// characters that follow one another in the markup, capitals of ASCII
/// lowered, and makes these three elements of nothing but their own tags.  It
/// takes an attribute's value from behind the name, an equals sign and at
/// most one quotation mark, white space in between skipped.  A value is read
/// as a number only if it is all digits behind at most one sign; in the
/// markup such a value is written without white space, quotation mark or
/// `>`, and with a character or more for each digit, character references
/// included.
///
/// What is left out.  Markup in which `colspan` or `start` is followed by a
/// value of ten or more such characters, so that every number read is below
/// 1 000 000 000; and markup with more than 65 535 tags.  A cell and a list
/// item each take a tag of their own: with `t` tags, the spans of a row add
/// up to less than `t` times 1 000 000 000, a span put in for 0 is at most
/// that, and the spans of a row add up to no more than `t * t` times
/// 1 000 000 000 then.  Markup without a cell's tag is not held to what
/// follows `colspan`, nor markup without a list's tag to what follows
/// `start`.
pub open spec fn renderable(html: Seq<char>) -> bool {
    &&& holds_span(html) ==> few_tags(html) && !holds_long_value(
        html,
        "colspan"@,
        (MOST_DIGITS + 1) as nat,
    )
    &&& holds_start(html) ==> few_tags(html) && !holds_long_value(
        html,
        "start"@,
        (MOST_DIGITS + 1) as nat,
    )
}

/// Markup without a table cell and without an ordered list is handed to the
/// renderer, whatever words and numbers it holds: it is enough that no `<`
/// is followed by a `t` or an `o`, in either case, as in markup made of
/// paragraphs, line breaks, links and emphasis.
pub proof fn lemma_renderable_without_cells_and_lists(html: Seq<char>)
    requires
        forall|i: int|
            0 <= i && i + 1 < html.len() && html[i] == '<' ==> {
                let c = #[trigger] html[i + 1];
                c != 't' && c != 'T' && c != 'o' && c != 'O'
            },
    ensures
        renderable(html),
{
    reveal_strlit("<td");
    reveal_strlit("<th");
    reveal_strlit("<ol");
    assert forall|at: int| !found_at(html, "<td"@, at) by {
        if found_at(html, "<td"@, at) {
            let window = html.subrange(at, at + 3);
            assert(folded(window[0]) == folded('<') && folded(window[1]) == folded('t'));
            assert(window[0] == html[at] && window[1] == html[at + 1]);
        }
    }
    assert forall|at: int| !found_at(html, "<th"@, at) by {
        if found_at(html, "<th"@, at) {
            let window = html.subrange(at, at + 3);
            assert(folded(window[0]) == folded('<') && folded(window[1]) == folded('t'));
            assert(window[0] == html[at] && window[1] == html[at + 1]);
        }
    }
    assert forall|at: int| !found_at(html, "<ol"@, at) by {
        if found_at(html, "<ol"@, at) {
            let window = html.subrange(at, at + 3);
            assert(folded(window[0]) == folded('<') && folded(window[1]) == folded('o'));
            assert(window[0] == html[at] && window[1] == html[at + 1]);
        }
    }
}

/// What the renderer makes of HTML at a width of `width` columns: the
/// rendering if the HTML may be handed to it, `None` if it may not or if the
/// renderer reports that it cannot render.
pub open spec fn rendering(html: Seq<char>, width: nat) -> Option<Seq<char>> {
    if renderable(html) {
        rendered_html(html, width)
    } else {
        None
    }
}

/// Calls `html2text`'s plain rendering, `config::plain().string_from_read`,
/// on the bytes of `html`.  The result is named `rendered_html`.  HTML that
/// is not `renderable` is left out, because a sum of the renderer can
/// overflow on it.
#[verifier::external_body]
fn render_html(html: &str, width: usize) -> (text: Option<String>)
    requires
        renderable(html@),
    ensures
        match text {
            Some(t) => rendered_html(html@, width as nat) == Some(t@),
            None => rendered_html(html@, width as nat).is_none(),
        },
{
    html2text::config::plain().string_from_read(html.as_bytes(), width).ok()
}

fn skip_tag_space(text: &Vec<char>, from: usize) -> (at: usize)
    ensures
        at == past_space(text@, from as int),
        from <= at,
        from <= text.len() ==> at <= text.len(),
{
    let mut at: usize = from;
    while at < text.len() && (text[at] == '\t' || text[at] == '\n' || text[at] == '\x0C'
        || text[at] == '\r' || text[at] == ' ')
        invariant
            from <= at,
            from <= text.len() ==> at <= text.len(),
            past_space(text@, from as int) == past_space(text@, at as int),
        decreases text.len() - at,
    {
        at += 1;
    }
    at
}

fn find_value(text: &Vec<char>, from: usize) -> (begin: Option<usize>)
    requires
        from <= text.len(),
    ensures
        match begin {
            Some(b) => value_start(text@, from as int) == Some(b as int) && b <= text.len(),
            None => value_start(text@, from as int).is_none(),
        },
{
    let sign = skip_tag_space(text, from);
    if sign < text.len() && text[sign] == '=' {
        let begin = skip_tag_space(text, sign + 1);
        if begin < text.len() && (text[begin] == '"' || text[begin] == '\'') {
            Some(begin + 1)
        } else {
            Some(begin)
        }
    } else {
        None
    }
}

fn number_reaches(text: &Vec<char>, from: usize, n: usize) -> (r: bool)
    requires
        from <= text.len(),
    ensures
        r == (number_len(text@, from as int) >= n),
{
    let mut at: usize = from;
    let mut seen: usize = 0;
    while seen < n
        invariant
            from <= at <= text.len(),
            seen <= n,
            at == from + seen,
            number_len(text@, from as int) == seen + number_len(text@, at as int),
        decreases n - seen,
    {
        if at >= text.len() {
            return false;
        }
        let c = text[at];
        if c == '\t' || c == '\n' || c == '\x0C' || c == '\r' || c == ' ' || c == '"' || c == '\''
            || c == '>' {
            return false;
        }
        at += 1;
        seen += 1;
    }
    true
}

/// Tests whether somewhere in `text` the word `name`, in any case of ASCII
/// letters, is followed by a value of `n` or more characters that could be
/// read as a number.
pub fn has_long_value(text: &Vec<char>, name: &Vec<char>, n: usize) -> (r: bool)
    ensures
        r == holds_long_value(text@, name@, n as nat),
{
    if name.len() > text.len() {
        assert forall|at: int| !long_value_at(text@, name@, at, n as nat) by {}
        return false;
    }
    let last: usize = text.len() - name.len();
    let mut at: usize = 0;
    while at <= last
        invariant
            last == text.len() - name.len(),
            at <= last + 1,
            forall|k: int| 0 <= k < at ==> !long_value_at(text@, name@, k, n as nat),
        decreases last + 1 - at,
    {
        if stands_at(text, name, at) {
            match find_value(text, at + name.len()) {
                Some(begin) => {
                    if number_reaches(text, begin, n) {
                        assert(long_value_at(text@, name@, at as int, n as nat));
                        return true;
                    }
                },
                None => {},
            }
        }
        if at == last {
            assert forall|k: int| !long_value_at(text@, name@, k, n as nat) by {}
            return false;
        }
        at += 1;
    }
    assert forall|k: int| !long_value_at(text@, name@, k, n as nat) by {}
    false
}

fn has_few_tags(text: &Vec<char>) -> (r: bool)
    ensures
        r == few_tags(text@),
{
    let tags = count_char(text, '<');
    if tags > MOST_TAGS {
        return false;
    }
    assert(tags * tags <= 0xFFFF * 0xFFFF) by (nonlinear_arith)
        requires
            0 <= tags <= 0xFFFF,
    ;
    let squared: u64 = tags as u64 * tags as u64;
    let most: u64 = squared * 1_000_000_000;
    most <= usize::MAX as u64
}

/// Tests whether HTML may be handed to the renderer.
pub fn is_renderable(html: &str) -> (r: bool)
    ensures
        r == renderable(html@),
{
    let text = chars_of(html);
    let span = (holds_word(&text, &chars_of("<td")) || holds_word(&text, &chars_of("<th")))
        && holds_word(&text, &chars_of("colspan"));
    let start = holds_word(&text, &chars_of("<ol")) && holds_word(&text, &chars_of("start"));
    if !span && !start {
        return true;
    }
    if !has_few_tags(&text) {
        return false;
    }
    if span && has_long_value(&text, &chars_of("colspan"), MOST_DIGITS + 1) {
        return false;
    }
    !(start && has_long_value(&text, &chars_of("start"), MOST_DIGITS + 1))
}

/// Renders HTML to plain text of `width` columns, if it may be handed to the
/// renderer and the renderer can render it.
pub fn render_text(html: &str, width: usize) -> (text: Option<String>)
    ensures
        text_view(text) == rendering(html@, width as nat),
{
    if is_renderable(html) {
        render_html(html, width)
    } else {
        None
    }
}

/// Finds the first part of type `wanted` in the tree under `part`.
pub fn find_part<'a>(part: &'a MimePart, wanted: &Vec<char>) -> (found: Option<&'a MimePart>)
    ensures
        match found {
            Some(p) => first_of_type(part@, wanted@) == Some(p@),
            None => first_of_type(part@, wanted@).is_none(),
        },
    decreases part,
{
    let mimetype = chars_of(part.mimetype.as_str());
    if eq_ignoring_case(&mimetype, wanted) {
        return Some(part);
    }
    let ghost parts = parts_view(part.subparts@);
    proof {
        lemma_parts_view(part.subparts@);
    }
    let mut i: usize = 0;
    assert(parts.skip(0) == parts);
    while i < part.subparts.len()
        invariant
            i <= part.subparts.len(),
            parts == parts_view(part.subparts@),
            parts.len() == part.subparts.len(),
            forall|j: int|
                0 <= j < parts.len() ==> (#[trigger] parts[j]) == part_view(part.subparts@[j]),
            first_of_type(part@, wanted@) == first_among(parts.skip(i as int), wanted@),
        decreases part.subparts.len() - i,
    {
        assert(parts.skip(i as int).first() == parts[i as int]);
        assert(parts.skip(i as int).drop_first() == parts.skip(i + 1));
        let found = find_part(&part.subparts[i], wanted);
        if found.is_some() {
            return found;
        }
        i += 1;
    }
    None
}

/// The text of the first `text/plain` part of the message, in pre-order.
/// `Ok(None)` when the message has no such part; `MailError::Parse` when it
/// has one and that part's body could not be decoded.
pub fn find_plain(mail: &MimePart) -> (out: Result<Option<String>, MailError>)
    ensures
        text_of_first(mail@, "text/plain"@, out),
{
    text_of(mail, "text/plain")
}

/// The HTML of the first `text/html` part of the message, in pre-order, as it
/// stands in the message.  `Ok(None)` when the message has no such part;
/// `MailError::Parse` when it has one and that part's body could not be
/// decoded.
pub fn find_html(mail: &MimePart) -> (out: Result<Option<String>, MailError>)
    ensures
        text_of_first(mail@, "text/html"@, out),
{
    text_of(mail, "text/html")
}

/// `out` is the outcome of looking for the text of the first part of type
/// `wanted`.
pub open spec fn text_of_first(
    mail: PartView,
    wanted: Seq<char>,
    out: Result<Option<String>, MailError>,
) -> bool {
    match first_of_type(mail, wanted) {
        None => out == Ok::<Option<String>, MailError>(None),
        Some(part) => match part.body {
            Some(text) => out matches Ok(Some(t)) && t@ == text,
            None => out == Err::<Option<String>, MailError>(MailError::Parse),
        },
    }
}

fn text_of(mail: &MimePart, wanted: &str) -> (out: Result<Option<String>, MailError>)
    ensures
        text_of_first(mail@, wanted@, out),
{
    let wanted_chars = chars_of(wanted);
    match find_part(mail, &wanted_chars) {
        None => Ok(None),
        Some(part) => match &part.body {
            Some(text) => Ok(Some(text.clone())),
            None => Err(MailError::Parse),
        },
    }
}

/// The text shown for a message, given the tree that parsing made of it
/// (`None` where the message could not be parsed) and the text `raw_text`
/// that stands in where the tree gives none.
pub open spec fn resolution_or(tree: Option<PartView>, raw_text: Seq<char>) -> Seq<char> {
    match tree {
        None => raw_text,
        Some(mail) => match first_of_type(mail, "text/plain"@) {
            Some(part) => match part.body {
                Some(text) => text,
                None => raw_text,
            },
            None => match first_of_type(mail, "text/html"@) {
                Some(part) => match part.body {
                    Some(html) => match rendering(html, RENDER_WIDTH as nat) {
                        Some(text) => text,
                        None => raw_text,
                    },
                    None => raw_text,
                },
                None => raw_text,
            },
        },
    }
}

/// The text shown for a message, given the tree that parsing made of it
/// (`None` where the message could not be parsed) and the raw message.
pub open spec fn resolution(tree: Option<PartView>, raw: Seq<u8>) -> Seq<char> {
    resolution_or(tree, lossy_text(raw))
}

/// The text shown for a raw message.
pub open spec fn resolved_text(raw: Seq<u8>) -> Seq<char> {
    resolution(parsed_message(raw), raw)
}

/// Any plain-text part beats any HTML part.  If the part at position `k` of
/// the message's parts in pre-order is the first of type `text/plain` and
/// holds the text `text`, the message resolves to `text`, wherever in the
/// tree that part stands and whatever HTML parts stand before it, beside it
/// or after it.
pub proof fn lemma_plain_text_wins(mail: PartView, raw: Seq<u8>, k: int, text: Seq<char>)
    requires
        is_first_of_type(in_order(mail), "text/plain"@, k),
        in_order(mail)[k].body == Some(text),
    ensures
        resolution(Some(mail), raw) == text,
{
    let parts = in_order(mail);
    lemma_first_of_type(mail, "text/plain"@);
    match first_of_type(mail, "text/plain"@) {
        Some(p) => {
            let at = choose|at: int| is_first_of_type(parts, "text/plain"@, at) && parts[at] == p;
            if at < k {
                assert(!same_ignoring_case(parts[at].mimetype, "text/plain"@));
            }
            if k < at {
                assert(!same_ignoring_case(parts[k].mimetype, "text/plain"@));
            }
        },
        None => {
            assert(!same_ignoring_case(parts[k].mimetype, "text/plain"@));
        },
    }
}

/// A message without any `text/plain` and without any `text/html` part
/// resolves to the raw message read as text.
pub proof fn lemma_no_text_part_falls_back(mail: PartView, raw: Seq<u8>)
    requires
        none_of_type(in_order(mail), "text/plain"@),
        none_of_type(in_order(mail), "text/html"@),
    ensures
        resolution(Some(mail), raw) == lossy_text(raw),
{
    let parts = in_order(mail);
    lemma_first_of_type(mail, "text/plain"@);
    lemma_first_of_type(mail, "text/html"@);
    if first_of_type(mail, "text/plain"@) is Some {
        let k = choose|k: int| is_first_of_type(parts, "text/plain"@, k);
        assert(!same_ignoring_case(parts[k].mimetype, "text/plain"@));
    }
    if first_of_type(mail, "text/html"@) is Some {
        let k = choose|k: int| is_first_of_type(parts, "text/html"@, k);
        assert(!same_ignoring_case(parts[k].mimetype, "text/html"@));
    }
}

/// A message without a `text/plain` part whose first `text/html` part holds
/// HTML that may not be handed to the renderer resolves to the raw message
/// read as text: the renderer is not asked.
pub proof fn lemma_unrenderable_falls_back(mail: PartView, raw: Seq<u8>, k: int, html: Seq<char>)
    requires
        none_of_type(in_order(mail), "text/plain"@),
        is_first_of_type(in_order(mail), "text/html"@, k),
        in_order(mail)[k].body == Some(html),
        !renderable(html),
    ensures
        resolution(Some(mail), raw) == lossy_text(raw),
{
    let parts = in_order(mail);
    lemma_first_of_type(mail, "text/plain"@);
    lemma_first_of_type(mail, "text/html"@);
    if first_of_type(mail, "text/plain"@) is Some {
        let at = choose|at: int| is_first_of_type(parts, "text/plain"@, at);
        assert(!same_ignoring_case(parts[at].mimetype, "text/plain"@));
    }
    match first_of_type(mail, "text/html"@) {
        Some(p) => {
            let at = choose|at: int| is_first_of_type(parts, "text/html"@, at) && parts[at] == p;
            if at < k {
                assert(!same_ignoring_case(parts[at].mimetype, "text/html"@));
            }
            if k < at {
                assert(!same_ignoring_case(parts[k].mimetype, "text/html"@));
            }
        },
        None => {
            assert(!same_ignoring_case(parts[k].mimetype, "text/html"@));
        },
    }
}

/// A message that could not be parsed resolves to the raw message read as
/// text.
pub proof fn lemma_unparsed_falls_back(raw: Seq<u8>)
    ensures
        resolution(None, raw) == lossy_text(raw),
{
}

/// Resolves the text of a message from its tree of parts: the text of the
/// first `text/plain` part if there is one, else the rendering of the first
/// `text/html` part if there is one.  The raw message, read as text, stands
/// in where the message has neither, where it could not be parsed (`tree` is
/// `None`), where the chosen part could not be decoded or rendered, and where
/// the HTML is not `renderable`.  A raw message of well-formed UTF-8 is read
/// as the text that it encodes.
pub fn resolve_content(tree: &Option<MimePart>, raw: &[u8]) -> (out: String)
    ensures
        out@ == resolution(
            match *tree {
                Some(t) => Some(t@),
                None => None,
            },
            raw@,
        ),
        valid_utf8(raw@) ==> out@ == resolution_or(
            match *tree {
                Some(t) => Some(t@),
                None => None,
            },
            decode_utf8(raw@),
        ),
{
    match tree {
        None => decode_lossy(raw),
        Some(mail) => match find_plain(mail) {
            Ok(Some(text)) => text,
            Err(_) => decode_lossy(raw),
            Ok(None) => match find_html(mail) {
                Ok(Some(html)) => match render_text(html.as_str(), RENDER_WIDTH) {
                    Some(text) => text,
                    None => decode_lossy(raw),
                },
                _ => decode_lossy(raw),
            },
        },
    }
}

/// Resolves the text shown for a raw message: parses it and resolves the
/// content of the tree.
pub fn resolve_body(raw: &[u8]) -> (out: String)
    ensures
        out@ == resolved_text(raw@),
        valid_utf8(raw@) ==> out@ == resolution_or(parsed_message(raw@), decode_utf8(raw@)),
{
    let tree = parse_message(raw);
    resolve_content(&tree, raw)
}

} // verus!
