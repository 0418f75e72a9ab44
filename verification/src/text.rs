//! Character-level text operations and their mathematical meaning.
//!
//! Text is handled as a sequence of Unicode scalar values.  Every operation
//! here is stated over `Seq<char>` and carried out on `Vec<char>`.

use vstd::prelude::*;

verus! {

/// `String::push` appends one character.
pub assume_specification[ String::push ](s: &mut String, ch: char)
    ensures
        final(s)@ == old(s)@.push(ch),
;

/// `String::pop` removes the last character and returns it, or returns
/// `None` and leaves the string untouched when it is empty.
pub assume_specification[ String::pop ](s: &mut String) -> (r: Option<char>)
    ensures
        old(s)@.len() == 0 ==> r.is_none() && final(s)@ == old(s)@,
        old(s)@.len() > 0 ==> r == Some(old(s)@.last()) && final(s)@ == old(s)@.drop_last(),
;

/// The text that `String::from_utf8_lossy` makes of `bytes`: the decoded
/// characters, with U+FFFD in place of each malformed sequence.
pub uninterp spec fn lossy_text(bytes: Seq<u8>) -> Seq<char>;

/// Calls `String::from_utf8_lossy`.  The result is named `lossy_text`; on
/// well-formed UTF-8 it is the decoded text itself, as the documentation of
/// that function says.
#[verifier::external_body]
pub(crate) fn decode_lossy(bytes: &[u8]) -> (out: String)
    ensures
        out@ == lossy_text(bytes@),
        vstd::utf8::valid_utf8(bytes@) ==> out@ == vstd::utf8::decode_utf8(bytes@),
{
    String::from_utf8_lossy(bytes).into_owned()
}

/// The characters of a string, in order.
pub fn chars_of(s: &str) -> (out: Vec<char>)
    ensures
        out@ == s@,
{
    let mut out: Vec<char> = Vec::new();
    for c in it: s.chars()
        invariant
            out@ == it.seq().take(it.index() as int),
            it.seq() == s@,
    {
        out.push(c);
    }
    out
}

/// The string made of the given characters, in order.
pub fn string_of(chars: &Vec<char>) -> (out: String)
    ensures
        out@ == chars@,
{
    let mut out = String::new();
    let mut i: usize = 0;
    while i < chars.len()
        invariant
            i <= chars.len(),
            out@ == chars@.take(i as int),
        decreases chars.len() - i,
    {
        out.push(chars[i]);
        i += 1;
    }
    out
}

/// The characters at positions `from..to` of `text`.
pub fn slice_of(text: &Vec<char>, from: usize, to: usize) -> (out: Vec<char>)
    requires
        from <= to <= text.len(),
    ensures
        out@ == text@.subrange(from as int, to as int),
{
    let mut out: Vec<char> = Vec::new();
    let mut i: usize = from;
    while i < to
        invariant
            from <= i <= to <= text.len(),
            out@ == text@.subrange(from as int, i as int),
        decreases to - i,
    {
        out.push(text[i]);
        i += 1;
    }
    out
}

/// Whether `c` has the Unicode `White_Space` property.
pub open spec fn is_space(c: char) -> bool {
    let v = c as u32;
    ||| 0x09 <= v <= 0x0D
    ||| v == 0x20
    ||| v == 0x85
    ||| v == 0xA0
    ||| v == 0x1680
    ||| 0x2000 <= v <= 0x200A
    ||| v == 0x2028
    ||| v == 0x2029
    ||| v == 0x202F
    ||| v == 0x205F
    ||| v == 0x3000
}

/// Tests a character for the Unicode `White_Space` property.
pub fn is_whitespace(c: char) -> (b: bool)
    ensures
        b == is_space(c),
{
    let v: u32 = c as u32;
    (0x09 <= v && v <= 0x0D) || v == 0x20 || v == 0x85 || v == 0xA0 || v == 0x1680 || (0x2000 <= v
        && v <= 0x200A) || v == 0x2028 || v == 0x2029 || v == 0x202F || v == 0x205F || v == 0x3000
}

/// The code of `c` with the ASCII capitals mapped onto the ASCII small
/// letters; every other character keeps its own code.
pub open spec fn folded(c: char) -> int {
    if 'A' <= c <= 'Z' {
        c as int + 32
    } else {
        c as int
    }
}

/// Two texts that differ at most in the case of ASCII letters.
pub open spec fn same_ignoring_case(a: Seq<char>, b: Seq<char>) -> bool {
    &&& a.len() == b.len()
    &&& forall|i: int| 0 <= i < a.len() ==> folded(#[trigger] a[i]) == folded(b[i])
}

/// `text` begins with `prefix`, up to the case of ASCII letters.
pub open spec fn starts_with_ignoring_case(text: Seq<char>, prefix: Seq<char>) -> bool {
    &&& prefix.len() <= text.len()
    &&& same_ignoring_case(text.take(prefix.len() as int), prefix)
}

fn fold_char(c: char) -> (v: u32)
    ensures
        v == folded(c),
{
    if 'A' <= c && c <= 'Z' {
        c as u32 + 32
    } else {
        c as u32
    }
}

/// Compares two texts up to the case of ASCII letters.
pub fn eq_ignoring_case(a: &Vec<char>, b: &Vec<char>) -> (r: bool)
    ensures
        r == same_ignoring_case(a@, b@),
{
    if a.len() != b.len() {
        return false;
    }
    let mut i: usize = 0;
    while i < a.len()
        invariant
            i <= a.len(),
            a.len() == b.len(),
            forall|j: int| 0 <= j < i ==> folded(#[trigger] a@[j]) == folded(b@[j]),
        decreases a.len() - i,
    {
        if fold_char(a[i]) != fold_char(b[i]) {
            return false;
        }
        i += 1;
    }
    true
}

/// Tests whether `text` begins with `prefix`, up to the case of ASCII letters.
pub fn has_prefix_ignoring_case(text: &Vec<char>, prefix: &Vec<char>) -> (r: bool)
    ensures
        r == starts_with_ignoring_case(text@, prefix@),
{
    if prefix.len() > text.len() {
        return false;
    }
    let mut i: usize = 0;
    while i < prefix.len()
        invariant
            i <= prefix.len() <= text.len(),
            forall|j: int|
                0 <= j < i ==> folded(#[trigger] text@.take(prefix.len() as int)[j]) == folded(
                    prefix@[j],
                ),
        decreases prefix.len() - i,
    {
        if fold_char(text[i]) != fold_char(prefix[i]) {
            assert(text@.take(prefix.len() as int)[i as int] == text@[i as int]);
            return false;
        }
        assert(text@.take(prefix.len() as int)[i as int] == text@[i as int]);
        i += 1;
    }
    true
}

/// `word` stands in `text` at position `at`, up to the case of ASCII letters.
pub open spec fn found_at(text: Seq<char>, word: Seq<char>, at: int) -> bool {
    &&& 0 <= at
    &&& at + word.len() <= text.len()
    &&& same_ignoring_case(text.subrange(at, at + word.len()), word)
}

/// `word` stands somewhere in `text`, up to the case of ASCII letters.
pub open spec fn mentions(text: Seq<char>, word: Seq<char>) -> bool {
    exists|at: int| found_at(text, word, at)
}

/// Tests whether `word` stands in `text` at position `at`, up to the case of
/// ASCII letters.
pub fn stands_at(text: &Vec<char>, word: &Vec<char>, at: usize) -> (r: bool)
    ensures
        r == found_at(text@, word@, at as int),
{
    if at > text.len() || word.len() > text.len() - at {
        return false;
    }
    let ghost window = text@.subrange(at as int, at + word.len());
    let mut i: usize = 0;
    while i < word.len()
        invariant
            i <= word.len(),
            at + word.len() <= text.len(),
            window == text@.subrange(at as int, at + word.len()),
            forall|j: int| 0 <= j < i ==> folded(#[trigger] window[j]) == folded(word@[j]),
        decreases word.len() - i,
    {
        assert(window[i as int] == text@[at + i]);
        if fold_char(text[at + i]) != fold_char(word[i]) {
            return false;
        }
        i += 1;
    }
    true
}

/// Tests whether `word` stands somewhere in `text`, up to the case of ASCII
/// letters.
pub fn holds_word(text: &Vec<char>, word: &Vec<char>) -> (r: bool)
    ensures
        r == mentions(text@, word@),
{
    if word.len() > text.len() {
        assert forall|at: int| !found_at(text@, word@, at) by {}
        return false;
    }
    let last: usize = text.len() - word.len();
    let mut at: usize = 0;
    while at <= last
        invariant
            last == text.len() - word.len(),
            at <= last + 1,
            forall|k: int| 0 <= k < at ==> !found_at(text@, word@, k),
        decreases last + 1 - at,
    {
        if stands_at(text, word, at) {
            return true;
        }
        at += 1;
    }
    assert forall|k: int| !found_at(text@, word@, k) by {}
    false
}

/// How often `c` stands in `s`.
pub open spec fn count_of(s: Seq<char>, c: char) -> nat
    decreases s.len(),
{
    if s.len() == 0 {
        0
    } else {
        count_of(s.drop_last(), c) + if s.last() == c {
            1nat
        } else {
            0nat
        }
    }
}

/// Counts how often `c` stands in `text`.
pub fn count_char(text: &Vec<char>, c: char) -> (n: usize)
    ensures
        n == count_of(text@, c),
        n <= text.len(),
{
    let mut n: usize = 0;
    let mut i: usize = 0;
    assert(text@.take(0) == Seq::<char>::empty());
    while i < text.len()
        invariant
            i <= text.len(),
            n <= i,
            n == count_of(text@.take(i as int), c),
        decreases text.len() - i,
    {
        assert(text@.take(i + 1).drop_last() == text@.take(i as int));
        assert(text@.take(i + 1).last() == text@[i as int]);
        if text[i] == c {
            n += 1;
        }
        i += 1;
    }
    assert(text@.take(text.len() as int) == text@);
    n
}

/// `text` begins with exactly `prefix`.
pub open spec fn starts_with(text: Seq<char>, prefix: Seq<char>) -> bool {
    prefix.len() <= text.len() && text.take(prefix.len() as int) == prefix
}

/// Tests whether `text` begins with exactly `prefix`.
pub fn has_prefix(text: &Vec<char>, prefix: &Vec<char>) -> (r: bool)
    ensures
        r == starts_with(text@, prefix@),
{
    if prefix.len() > text.len() {
        return false;
    }
    let mut i: usize = 0;
    while i < prefix.len()
        invariant
            i <= prefix.len() <= text.len(),
            text@.take(i as int) == prefix@.take(i as int),
        decreases prefix.len() - i,
    {
        if text[i] != prefix[i] {
            assert(text@.take(prefix.len() as int)[i as int] != prefix@[i as int]);
            return false;
        }
        assert(text@.take(i + 1) == text@.take(i as int).push(text@[i as int]));
        assert(prefix@.take(i + 1) == prefix@.take(i as int).push(prefix@[i as int]));
        i += 1;
    }
    assert(prefix@.take(prefix.len() as int) == prefix@);
    true
}

/// The first position at or after `from` where `s` holds `c`; `s.len()` when
/// there is none.
pub open spec fn position_from(s: Seq<char>, c: char, from: int) -> int
    decreases s.len() - from,
{
    if from < 0 || from >= s.len() {
        s.len() as int
    } else if s[from] == c {
        from
    } else {
        position_from(s, c, from + 1)
    }
}

/// `position_from` returns the least matching position.
pub proof fn lemma_position_from(s: Seq<char>, c: char, from: int)
    requires
        0 <= from <= s.len(),
    ensures
        from <= position_from(s, c, from) <= s.len(),
        position_from(s, c, from) < s.len() ==> s[position_from(s, c, from)] == c,
        forall|j: int| from <= j < position_from(s, c, from) ==> s[j] != c,
    decreases s.len() - from,
{
    if from < s.len() && s[from] != c {
        lemma_position_from(s, c, from + 1);
    }
}

/// Finds the first position at or after `from` where `text` holds `c`;
/// `text.len()` when there is none.
pub fn find_from(text: &Vec<char>, c: char, from: usize) -> (at: usize)
    ensures
        at == position_from(text@, c, from as int),
        at <= text.len(),
        from <= text.len() ==> from <= at,
{
    if from > text.len() {
        return text.len();
    }
    let mut i: usize = from;
    while i < text.len()
        invariant
            from <= i <= text.len(),
            position_from(text@, c, from as int) == position_from(text@, c, i as int),
        decreases text.len() - i,
    {
        if text[i] == c {
            return i;
        }
        i += 1;
    }
    i
}

/// The first position at or after `from` that holds no white space;
/// `s.len()` when there is none.
pub open spec fn skip_spaces(s: Seq<char>, from: int) -> int
    decreases s.len() - from,
{
    if from < 0 || from >= s.len() {
        s.len() as int
    } else if is_space(s[from]) {
        skip_spaces(s, from + 1)
    } else {
        from
    }
}

/// The least `end >= floor` such that no position in `end..upto` holds
/// anything but white space.
pub open spec fn drop_spaces(s: Seq<char>, floor: int, upto: int) -> int
    decreases upto - floor,
{
    if upto <= floor || upto > s.len() {
        floor
    } else if is_space(s[upto - 1]) {
        drop_spaces(s, floor, upto - 1)
    } else {
        upto
    }
}

/// `s` without its leading and trailing white space.
pub open spec fn trimmed(s: Seq<char>) -> Seq<char> {
    let start = skip_spaces(s, 0);
    s.subrange(start, drop_spaces(s, start, s.len() as int))
}

/// What `trimmed` removes and what it keeps: only white space is cut, from
/// both ends, and what remains neither begins nor ends with white space.
pub proof fn lemma_trimmed(s: Seq<char>)
    ensures
        ({
            let a = skip_spaces(s, 0);
            let b = drop_spaces(s, a, s.len() as int);
            &&& 0 <= a <= b <= s.len()
            &&& trimmed(s) == s.subrange(a, b)
            &&& forall|i: int| 0 <= i < a ==> is_space(s[i])
            &&& forall|i: int| b <= i < s.len() ==> is_space(s[i])
            &&& a < b ==> !is_space(s[a]) && !is_space(s[b - 1])
        }),
{
    lemma_skip_spaces(s, 0);
    let a = skip_spaces(s, 0);
    lemma_drop_spaces(s, a, s.len() as int);
}

/// Trimming what is trimmed changes nothing.
pub proof fn lemma_trimmed_twice(s: Seq<char>)
    ensures
        trimmed(trimmed(s)) == trimmed(s),
{
    lemma_trimmed(s);
    let t = trimmed(s);
    if t.len() > 0 {
        assert(!is_space(t[0]));
        assert(!is_space(t[t.len() - 1]));
        assert(skip_spaces(t, 0) == 0);
        assert(drop_spaces(t, 0, t.len() as int) == t.len());
        assert(t.subrange(0, t.len() as int) == t);
    } else {
        assert(skip_spaces(t, 0) == 0);
        assert(drop_spaces(t, 0, 0) == 0);
        assert(t.subrange(0, 0) == t);
    }
}

proof fn lemma_skip_spaces(s: Seq<char>, from: int)
    requires
        0 <= from <= s.len(),
    ensures
        from <= skip_spaces(s, from) <= s.len(),
        forall|i: int| from <= i < skip_spaces(s, from) ==> is_space(s[i]),
        skip_spaces(s, from) < s.len() ==> !is_space(s[skip_spaces(s, from)]),
    decreases s.len() - from,
{
    if from < s.len() && is_space(s[from]) {
        lemma_skip_spaces(s, from + 1);
    }
}

proof fn lemma_drop_spaces(s: Seq<char>, floor: int, upto: int)
    requires
        0 <= floor <= upto <= s.len(),
    ensures
        floor <= drop_spaces(s, floor, upto) <= upto,
        forall|i: int| drop_spaces(s, floor, upto) <= i < upto ==> is_space(s[i]),
        floor < drop_spaces(s, floor, upto) ==> !is_space(s[drop_spaces(s, floor, upto) - 1]),
    decreases upto - floor,
{
    if floor < upto && is_space(s[upto - 1]) {
        lemma_drop_spaces(s, floor, upto - 1);
    }
}

/// Removes leading and trailing white space.
pub fn trim(text: &Vec<char>) -> (out: Vec<char>)
    ensures
        out@ == trimmed(text@),
{
    let mut start: usize = 0;
    while start < text.len() && is_whitespace(text[start])
        invariant
            start <= text.len(),
            skip_spaces(text@, 0) == skip_spaces(text@, start as int),
        decreases text.len() - start,
    {
        start += 1;
    }
    let mut end: usize = text.len();
    while end > start && is_whitespace(text[end - 1])
        invariant
            start <= end <= text.len(),
            drop_spaces(text@, start as int, text.len() as int) == drop_spaces(
                text@,
                start as int,
                end as int,
            ),
        decreases end - start,
    {
        end -= 1;
    }
    slice_of(text, start, end)
}

/// The decimal digit of a number below ten.
pub open spec fn digit(d: int) -> char {
    if d == 0 {
        '0'
    } else if d == 1 {
        '1'
    } else if d == 2 {
        '2'
    } else if d == 3 {
        '3'
    } else if d == 4 {
        '4'
    } else if d == 5 {
        '5'
    } else if d == 6 {
        '6'
    } else if d == 7 {
        '7'
    } else if d == 8 {
        '8'
    } else {
        '9'
    }
}

/// A natural number in decimal notation, without leading zeros.
pub open spec fn decimal(n: int) -> Seq<char>
    decreases n,
{
    if n < 10 {
        seq![digit(n)]
    } else {
        decimal(n / 10).push(digit(n % 10))
    }
}

/// The number that a text of decimal digits writes.
pub open spec fn number_of(digits: Seq<char>) -> int
    decreases digits.len(),
{
    if digits.len() == 0 {
        0
    } else {
        number_of(digits.drop_last()) * 10 + (digits.last() as int - '0' as int)
    }
}

/// Decimal notation writes the number itself, in digits only, and begins
/// with a zero for no number but zero.
pub proof fn lemma_decimal(n: int)
    requires
        n >= 0,
    ensures
        number_of(decimal(n)) == n,
        decimal(n).len() >= 1,
        forall|i: int| 0 <= i < decimal(n).len() ==> '0' <= #[trigger] decimal(n)[i] <= '9',
        n > 0 ==> decimal(n)[0] != '0',
    decreases n,
{
    if n < 10 {
        assert(decimal(n).drop_last() == Seq::<char>::empty());
        assert(number_of(decimal(n)) == number_of(Seq::<char>::empty()) * 10 + n);
    } else {
        lemma_decimal(n / 10);
        assert(decimal(n).drop_last() == decimal(n / 10));
        assert(decimal(n)[0] == decimal(n / 10)[0]);
    }
}

fn digit_char(d: usize) -> (c: char)
    requires
        d < 10,
    ensures
        c == digit(d as int),
{
    if d == 0 {
        '0'
    } else if d == 1 {
        '1'
    } else if d == 2 {
        '2'
    } else if d == 3 {
        '3'
    } else if d == 4 {
        '4'
    } else if d == 5 {
        '5'
    } else if d == 6 {
        '6'
    } else if d == 7 {
        '7'
    } else if d == 8 {
        '8'
    } else {
        '9'
    }
}

/// Writes a number in decimal notation.
pub fn decimal_text(n: usize) -> (out: String)
    ensures
        out@ == decimal(n as int),
{
    let mut digits: Vec<char> = Vec::new();
    digits.push(digit_char(n % 10));
    let mut rest: usize = n / 10;
    // `digits` holds the low digits of `n`, lowest first.
    let ghost mut done: int = n as int;
    while rest > 0
        invariant
            digits@.len() >= 1,
            0 <= rest == done / 10,
            0 <= done <= n,
            decimal(n as int) == decimal(done).drop_last() + digits@.reverse(),
            decimal(done).len() >= 1,
        decreases rest,
    {
        let ghost before = digits@;
        digits.push(digit_char(rest % 10));
        proof {
            assert(decimal(done) == decimal(rest as int).push(digit(done % 10)));
            assert(decimal(done).drop_last() == decimal(rest as int));
            let r = rest as int;
            assert(decimal(r) == decimal(r).drop_last().push(decimal(r).last()));
            assert(decimal(r).last() == digit(r % 10));
            assert(digits@.reverse() == seq![digit(r % 10)] + before.reverse());
            assert(decimal(r).drop_last().push(digit(r % 10)) + before.reverse() == decimal(
                r,
            ).drop_last() + (seq![digit(r % 10)] + before.reverse()));
            done = r;
        }
        rest = rest / 10;
    }
    proof {
        assert(decimal(done) == seq![digit(done)]);
        assert(decimal(done).drop_last() + digits@.reverse() == digits@.reverse());
    }
    let mut ordered: Vec<char> = Vec::new();
    let mut i: usize = digits.len();
    while i > 0
        invariant
            i <= digits.len(),
            ordered@ == digits@.reverse().take(digits.len() - i),
        decreases i,
    {
        i -= 1;
        ordered.push(digits[i]);
        assert(digits@.reverse().take(digits.len() - i) == digits@.reverse().take(
            digits.len() - i - 1,
        ).push(digits@[i as int]));
    }
    assert(digits@.reverse().take(digits.len() as int) == digits@.reverse());
    string_of(&ordered)
}

} // verus!
