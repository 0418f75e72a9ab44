//! Header field extraction.
//!
//! A header block is a run of bytes.  It is read as text (malformed UTF-8
//! replaced), cut into lines at every CR LF pair, and searched for the last
//! line that begins with a field's name and a colon.  Continuation lines are
//! not joined.  Nothing here fails: what is missing comes out empty.

use vstd::prelude::*;
use vstd::utf8::{decode_utf8, valid_utf8};
use crate::text::{
    chars_of, decode_lossy, find_from, has_prefix_ignoring_case, lemma_trimmed,
    lemma_trimmed_twice, lossy_text, position_from, slice_of, starts_with_ignoring_case,
    string_of, trim, trimmed,
};

verus! {

/// The lines of `s` from `start` on, where `at >= start` is how far the
/// current line has been scanned without meeting a CR LF pair.
pub open spec fn split_at(s: Seq<char>, start: int, at: int) -> Seq<Seq<char>>
    decreases s.len() - at,
{
    if at < 0 || at + 1 >= s.len() {
        seq![s.subrange(start, s.len() as int)]
    } else if s[at] == '\r' && s[at + 1] == '\n' {
        seq![s.subrange(start, at)] + split_at(s, at + 2, at + 2)
    } else {
        split_at(s, start, at + 1)
    }
}

/// The pieces of `s` between its CR LF pairs, in order.  A text without any
/// pair is one line; a pair at the very end leaves an empty last line.
pub open spec fn crlf_lines(s: Seq<char>) -> Seq<Seq<char>> {
    split_at(s, 0, 0)
}

/// `line` is a line of the field `name`: it begins with the name and a colon,
/// in any mix of upper and lower case.
pub open spec fn names_field(line: Seq<char>, name: Seq<char>) -> bool {
    starts_with_ignoring_case(line, name.push(':'))
}

/// What a line of the field `name` says: the rest of the line after the
/// colon, without surrounding white space.
pub open spec fn line_value(line: Seq<char>, name: Seq<char>) -> Seq<char> {
    trimmed(line.skip(name.len() as int + 1))
}

/// The value of the last line of the field `name` among `lines`; empty when
/// no line is of that field.
pub open spec fn field_in(lines: Seq<Seq<char>>, name: Seq<char>) -> Seq<char>
    decreases lines.len(),
{
    if lines.len() == 0 {
        Seq::empty()
    } else if names_field(lines.last(), name) {
        line_value(lines.last(), name)
    } else {
        field_in(lines.drop_last(), name)
    }
}

/// The value of the field `name` in the header text `text`.
pub open spec fn field_text(text: Seq<char>, name: Seq<char>) -> Seq<char> {
    field_in(crlf_lines(text), name)
}

/// The bare address of a From value: what stands between the first `<` and
/// the first `>` after it, or everything after the `<` when no `>` follows,
/// or the whole value when it holds no `<`.
pub open spec fn bare_address(value: Seq<char>) -> Seq<char> {
    let open = position_from(value, '<', 0);
    if open >= value.len() {
        value
    } else {
        value.subrange(open + 1, position_from(value, '>', open + 1))
    }
}

/// The views of a vector's lines.
pub open spec fn lines_view(lines: Vec<Vec<char>>) -> Seq<Seq<char>> {
    lines@.map_values(|l: Vec<char>| l@)
}

/// The lines put together again, with a CR LF pair between each two.
pub open spec fn rejoined(lines: Seq<Seq<char>>) -> Seq<char>
    decreases lines.len(),
{
    if lines.len() == 0 {
        Seq::empty()
    } else if lines.len() == 1 {
        lines[0]
    } else {
        lines[0] + seq!['\r', '\n'] + rejoined(lines.drop_first())
    }
}

/// A CR LF pair begins at position `i` of `s`.
pub open spec fn break_at(s: Seq<char>, i: int) -> bool {
    0 <= i && i + 1 < s.len() && s[i] == '\r' && s[i + 1] == '\n'
}

/// No CR LF pair begins anywhere in `s`.
pub open spec fn unbroken(s: Seq<char>) -> bool {
    forall|i: int| !break_at(s, i)
}

/// Cutting a text into lines loses nothing and leaves no pair uncut: the
/// lines, put together again with CR LF pairs between them, are the text,
/// and no line holds a CR LF pair.
pub proof fn lemma_lines_rejoin(s: Seq<char>)
    ensures
        crlf_lines(s).len() >= 1,
        rejoined(crlf_lines(s)) == s,
        forall|k: int| 0 <= k < crlf_lines(s).len() ==> unbroken(#[trigger] crlf_lines(s)[k]),
{
    lemma_split_rejoins(s, 0, 0);
    assert(s.subrange(0, s.len() as int) == s);
}

proof fn lemma_split_rejoins(s: Seq<char>, start: int, at: int)
    requires
        0 <= start <= at <= s.len(),
        forall|i: int| start <= i < at ==> !break_at(s, i),
    ensures
        split_at(s, start, at).len() >= 1,
        rejoined(split_at(s, start, at)) == s.subrange(start, s.len() as int),
        forall|k: int|
            0 <= k < split_at(s, start, at).len() ==> unbroken(
                #[trigger] split_at(s, start, at)[k],
            ),
    decreases s.len() - at,
{
    let lines = split_at(s, start, at);
    if at + 1 >= s.len() {
        let only = s.subrange(start, s.len() as int);
        assert(lines == seq![only]);
        assert forall|i: int| !break_at(only, i) by {
            if break_at(only, i) {
                assert(break_at(s, start + i));
            }
        }
        assert(unbroken(lines[0]));
    } else if s[at] == '\r' && s[at + 1] == '\n' {
        let head = s.subrange(start, at);
        let rest = split_at(s, at + 2, at + 2);
        lemma_split_rejoins(s, at + 2, at + 2);
        assert(lines == seq![head] + rest);
        assert(lines[0] == head);
        assert(lines.drop_first() == rest);
        assert(head + seq!['\r', '\n'] + s.subrange(at + 2, s.len() as int) == s.subrange(
            start,
            s.len() as int,
        ));
        assert forall|i: int| !break_at(head, i) by {
            if break_at(head, i) {
                assert(break_at(s, start + i));
            }
        }
        assert forall|k: int| 0 <= k < lines.len() implies unbroken(#[trigger] lines[k]) by {
            if k > 0 {
                assert(lines[k] == rest[k - 1]);
            }
        }
    } else {
        assert forall|i: int| start <= i < at + 1 implies !break_at(s, i) by {}
        lemma_split_rejoins(s, start, at + 1);
    }
}

/// A field that no line names has the empty value.
pub proof fn lemma_absent_field_is_empty(lines: Seq<Seq<char>>, name: Seq<char>)
    requires
        forall|i: int| 0 <= i < lines.len() ==> !names_field(#[trigger] lines[i], name),
    ensures
        field_in(lines, name) == Seq::<char>::empty(),
    decreases lines.len(),
{
    if lines.len() > 0 {
        lemma_absent_field_is_empty(lines.drop_last(), name);
    }
}

/// The value of a field is that of the last line that names it, whatever
/// stands in the lines before and whatever lines of other fields follow.
pub proof fn lemma_last_line_wins(lines: Seq<Seq<char>>, name: Seq<char>, k: int)
    requires
        0 <= k < lines.len(),
        names_field(lines[k], name),
        forall|i: int| k < i < lines.len() ==> !names_field(#[trigger] lines[i], name),
    ensures
        field_in(lines, name) == line_value(lines[k], name),
    decreases lines.len(),
{
    if k < lines.len() - 1 {
        lemma_last_line_wins(lines.drop_last(), name, k);
    }
}

/// The value of a field is trimmed: trimming it again changes nothing, so
/// that the bare address of a From value is the same whether it is taken
/// from the value as looked up or from the header block.
pub proof fn lemma_field_is_trimmed(lines: Seq<Seq<char>>, name: Seq<char>)
    ensures
        trimmed(field_in(lines, name)) == field_in(lines, name),
        bare_address(trimmed(field_in(lines, name))) == bare_address(field_in(lines, name)),
    decreases lines.len(),
{
    if lines.len() == 0 {
        lemma_trimmed_twice(Seq::<char>::empty());
        lemma_trimmed(Seq::<char>::empty());
        assert(trimmed(Seq::<char>::empty()) == Seq::<char>::empty());
    } else if names_field(lines.last(), name) {
        lemma_trimmed_twice(lines.last().skip(name.len() as int + 1));
    } else {
        lemma_field_is_trimmed(lines.drop_last(), name);
    }
}

/// Cuts a text into its lines at every CR LF pair.
pub fn split_lines(text: &Vec<char>) -> (out: Vec<Vec<char>>)
    ensures
        lines_view(out) == crlf_lines(text@),
{
    let mut out: Vec<Vec<char>> = Vec::new();
    let mut start: usize = 0;
    let mut at: usize = 0;
    assert(lines_view(out) + split_at(text@, 0, 0) == crlf_lines(text@));
    while text.len() - at >= 2
        invariant
            start <= at <= text.len(),
            lines_view(out) + split_at(text@, start as int, at as int) == crlf_lines(text@),
        decreases text.len() - at,
    {
        if text[at] == '\r' && text[at + 1] == '\n' {
            let line = slice_of(text, start, at);
            let ghost before = lines_view(out);
            out.push(line);
            assert(lines_view(out) == before.push(line@));
            assert(before.push(line@) + split_at(text@, at + 2, at + 2) == before + (seq![line@]
                + split_at(text@, at + 2, at + 2)));
            at += 2;
            start = at;
        } else {
            at += 1;
        }
    }
    let line = slice_of(text, start, text.len());
    let ghost before = lines_view(out);
    out.push(line);
    assert(lines_view(out) == before.push(line@));
    assert(before.push(line@) == before + seq![line@]);
    out
}

/// Looks a field up among the lines of a header: the value of the last line
/// that names it, or the empty text.
pub fn field_among(lines: &Vec<Vec<char>>, name: &Vec<char>) -> (out: Vec<char>)
    ensures
        out@ == field_in(lines_view(*lines), name@),
        (forall|i: int| 0 <= i < lines.len() ==> !names_field(#[trigger] lines[i]@, name@))
            ==> out@.len() == 0,
{
    let mut prefix = slice_of(name, 0, name.len());
    prefix.push(':');
    assert(prefix@ == name@.push(':'));
    let ghost all = lines_view(*lines);
    let mut out: Vec<char> = Vec::new();
    let mut i: usize = 0;
    assert(all.take(0) == Seq::<Seq<char>>::empty());
    while i < lines.len()
        invariant
            i <= lines.len(),
            all == lines_view(*lines),
            prefix@ == name@.push(':'),
            prefix@.len() == name@.len() + 1,
            out@ == field_in(all.take(i as int), name@),
        decreases lines.len() - i,
    {
        let line = &lines[i];
        assert(all.take(i + 1).drop_last() == all.take(i as int));
        assert(all.take(i + 1).last() == line@);
        if has_prefix_ignoring_case(line, &prefix) {
            let rest = slice_of(line, prefix.len(), line.len());
            assert(rest@ == line@.skip(name@.len() as int + 1));
            out = trim(&rest);
        }
        i += 1;
    }
    assert(all.take(lines.len() as int) == all);
    proof {
        if forall|i: int| 0 <= i < lines.len() ==> !names_field(#[trigger] lines[i]@, name@) {
            assert forall|i: int| 0 <= i < all.len() implies !names_field(
                #[trigger] all[i],
                name@,
            ) by {
                assert(all[i] == lines[i]@);
            }
            lemma_absent_field_is_empty(all, name@);
        }
    }
    out
}

/// Reduces a From value to the bare address.
pub fn address_in(value: &Vec<char>) -> (out: Vec<char>)
    ensures
        out@ == bare_address(value@),
{
    let open = find_from(value, '<', 0);
    if open >= value.len() {
        let whole = slice_of(value, 0, value.len());
        assert(whole@ == value@);
        whole
    } else {
        let close = find_from(value, '>', open + 1);
        slice_of(value, open + 1, close)
    }
}

/// The value of the header field `name` in a raw header block: the rest of
/// the last line that begins with the name and a colon (in any case of
/// letters), trimmed; the empty string when the block has no such line.  A
/// block of well-formed UTF-8 is read as the text that it encodes.
pub fn header_field(block: &[u8], name: &str) -> (out: String)
    ensures
        out@ == field_text(lossy_text(block@), name@),
        valid_utf8(block@) ==> out@ == field_text(decode_utf8(block@), name@),
        (forall|i: int|
            0 <= i < crlf_lines(lossy_text(block@)).len() ==> !names_field(
                #[trigger] crlf_lines(lossy_text(block@))[i],
                name@,
            )) ==> out@.len() == 0,
{
    let text = chars_of(decode_lossy(block).as_str());
    let lines = split_lines(&text);
    let name_chars = chars_of(name);
    proof {
        let all = lines_view(lines);
        assert forall|i: int| 0 <= i < lines.len() implies all[i] == (#[trigger] lines[i])@ by {}
    }
    let value = field_among(&lines, &name_chars);
    string_of(&value)
}

/// The bare address of a From value: the value is trimmed, and if it holds a
/// `<`, only what follows it up to the next `>` (or to the end) is kept.
pub fn sender_address(value: &str) -> (out: String)
    ensures
        out@ == bare_address(trimmed(value@)),
{
    let chars = chars_of(value);
    let clean = trim(&chars);
    let address = address_in(&clean);
    string_of(&address)
}

/// The sender shown in the inbox list for a message with the given header
/// block: the bare address of its From field.  A block of well-formed UTF-8
/// is read as the text that it encodes.
pub fn summary_sender(block: &[u8]) -> (out: String)
    ensures
        out@ == bare_address(field_text(lossy_text(block@), "from"@)),
        valid_utf8(block@) ==> out@ == bare_address(field_text(decode_utf8(block@), "from"@)),
{
    let text = chars_of(decode_lossy(block).as_str());
    let lines = split_lines(&text);
    let name = chars_of("from");
    let value = field_among(&lines, &name);
    let address = address_in(&value);
    string_of(&address)
}

/// The From, Subject and Date fields of a raw header block, each as
/// `header_field` gives it.  A block of well-formed UTF-8 is read as the text
/// that it encodes.
pub fn parse_headers(block: &[u8]) -> (out: (String, String, String))
    ensures
        out.0@ == field_text(lossy_text(block@), "from"@),
        out.1@ == field_text(lossy_text(block@), "subject"@),
        out.2@ == field_text(lossy_text(block@), "date"@),
        valid_utf8(block@) ==> {
            &&& out.0@ == field_text(decode_utf8(block@), "from"@)
            &&& out.1@ == field_text(decode_utf8(block@), "subject"@)
            &&& out.2@ == field_text(decode_utf8(block@), "date"@)
        },
{
    let text = chars_of(decode_lossy(block).as_str());
    let lines = split_lines(&text);
    let from = field_among(&lines, &chars_of("from"));
    let subject = field_among(&lines, &chars_of("subject"));
    let date = field_among(&lines, &chars_of("date"));
    (string_of(&from), string_of(&subject), string_of(&date))
}

} // verus!
