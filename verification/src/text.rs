//! Characters and character sequences: ASCII classes, conversion between
//! strings and vectors of characters, suffix and substring tests.
//!
//! Every contract in the crate speaks of text as a `Seq<char>`, the view of a
//! `str` or a `String`.

use vstd::prelude::*;

verus! {

/// `String::push` appends the character to the end of the string and changes
/// nothing else.
pub assume_specification[ String::push ](s: &mut String, c: char)
    ensures
        final(s)@ == old(s)@.push(c),
;

/// Two string slices are equal exactly when they hold the same characters.
pub assume_specification[ <str as PartialEq>::eq ](a: &str, b: &str) -> (r: bool)
    ensures
        r == (a@ == b@),
;

pub open spec fn is_ascii_upper(c: char) -> bool {
    'A' <= c && c <= 'Z'
}

pub open spec fn is_ascii_lower(c: char) -> bool {
    'a' <= c && c <= 'z'
}

pub open spec fn is_ascii_digit(c: char) -> bool {
    '0' <= c && c <= '9'
}

pub open spec fn is_ascii_alnum(c: char) -> bool {
    is_ascii_upper(c) || is_ascii_lower(c) || is_ascii_digit(c)
}

/// The lowercase form of an ASCII uppercase letter; any other character is
/// itself.
pub open spec fn ascii_lower(c: char) -> char {
    if is_ascii_upper(c) {
        ((c as u8) + 32) as char
    } else {
        c
    }
}

/// The uppercase form of an ASCII lowercase letter; any other character is
/// itself.
pub open spec fn ascii_upper(c: char) -> char {
    if is_ascii_lower(c) {
        ((c as u8) - 32) as char
    } else {
        c
    }
}

/// `s` with every character replaced by its ASCII lowercase form.
pub open spec fn ascii_lower_seq(s: Seq<char>) -> Seq<char> {
    Seq::new(s.len(), |i: int| ascii_lower(s[i]))
}

/// Every character of `s` is an ASCII character.
pub open spec fn is_ascii_text(s: Seq<char>) -> bool {
    forall|i: int| 0 <= i < s.len() ==> #[trigger] s[i] <= '\u{7f}'
}

/// `s` with every occurrence of `from` replaced by `to`.
pub open spec fn replace_char(s: Seq<char>, from: char, to: char) -> Seq<char> {
    Seq::new(s.len(), |i: int| if s[i] == from { to } else { s[i] })
}

/// `needle` stands in `hay` at position `i`.
pub open spec fn occurs_at(hay: Seq<char>, needle: Seq<char>, i: int) -> bool {
    0 <= i && i + needle.len() <= hay.len() && hay.subrange(i, i + needle.len()) == needle
}

/// `needle` stands somewhere in `hay`.
pub open spec fn contains_text(hay: Seq<char>, needle: Seq<char>) -> bool {
    exists|i: int| occurs_at(hay, needle, i)
}

pub fn char_is_upper(c: char) -> (r: bool)
    ensures
        r == is_ascii_upper(c),
{
    c >= 'A' && c <= 'Z'
}

pub fn char_is_lower(c: char) -> (r: bool)
    ensures
        r == is_ascii_lower(c),
{
    c >= 'a' && c <= 'z'
}

pub fn char_is_digit(c: char) -> (r: bool)
    ensures
        r == is_ascii_digit(c),
{
    c >= '0' && c <= '9'
}

pub fn char_is_alnum(c: char) -> (r: bool)
    ensures
        r == is_ascii_alnum(c),
{
    char_is_upper(c) || char_is_lower(c) || char_is_digit(c)
}

pub fn char_to_lower(c: char) -> (r: char)
    ensures
        r == ascii_lower(c),
{
    if char_is_upper(c) {
        let b: u8 = c as u8;
        (b + 32) as char
    } else {
        c
    }
}

pub fn char_to_upper(c: char) -> (r: char)
    ensures
        r == ascii_upper(c),
{
    if char_is_lower(c) {
        let b: u8 = c as u8;
        (b - 32) as char
    } else {
        c
    }
}

/// The characters of a string slice, in order.
pub fn chars_of(s: &str) -> (v: Vec<char>)
    ensures
        v@ == s@,
{
    let mut v: Vec<char> = Vec::new();
    for c in it: s.chars()
        invariant
            it.seq() == s@,
            v@ == s@.take(it.index() as int),
    {
        v.push(c);
        assert(s@.take(it.index() + 1) == s@.take(it.index() as int).push(s@[it.index() as int]));
    }
    assert(s@.take(s@.len() as int) == s@);
    v
}

/// The string that holds the given characters, in order.
pub fn string_of(v: &Vec<char>) -> (s: String)
    ensures
        s@ == v@,
{
    let mut s = String::new();
    let mut i: usize = 0;
    while i < v.len()
        invariant
            i <= v.len(),
            s@ == v@.take(i as int),
        decreases v.len() - i,
    {
        s.push(v[i]);
        assert(v@.take(i + 1) == v@.take(i as int).push(v@[i as int]));
        i += 1;
    }
    assert(v@.take(v@.len() as int) == v@);
    s
}

/// Appends the characters of `tail` to `out`.
pub fn push_all(out: &mut Vec<char>, tail: &Vec<char>)
    ensures
        final(out)@ == old(out)@ + tail@,
{
    let mut i: usize = 0;
    while i < tail.len()
        invariant
            i <= tail.len(),
            out@ == old(out)@ + tail@.take(i as int),
        decreases tail.len() - i,
    {
        out.push(tail[i]);
        assert(tail@.take(i + 1) == tail@.take(i as int).push(tail@[i as int]));
        i += 1;
    }
    assert(tail@.take(tail@.len() as int) == tail@);
}

/// Whether the last characters of `s` are those of `suffix`.
pub fn ends_with(s: &Vec<char>, suffix: &Vec<char>) -> (r: bool)
    ensures
        r == suffix@.is_suffix_of(s@),
{
    if suffix.len() > s.len() {
        return false;
    }
    let start: usize = s.len() - suffix.len();
    let mut i: usize = 0;
    while i < suffix.len()
        invariant
            i <= suffix.len(),
            start + suffix.len() == s.len(),
            forall|j: int| 0 <= j < i ==> s@[start + j] == suffix@[j],
        decreases suffix.len() - i,
    {
        if s[start + i] != suffix[i] {
            assert(s@.subrange(start as int, s@.len() as int)[i as int] != suffix@[i as int]);
            return false;
        }
        i += 1;
    }
    assert(suffix@ =~= s@.subrange(start as int, s@.len() as int));
    true
}

/// Whether `needle` stands in `hay` at position `at`.
pub fn matches_at(hay: &Vec<char>, needle: &Vec<char>, at: usize) -> (r: bool)
    ensures
        r == occurs_at(hay@, needle@, at as int),
{
    if needle.len() > hay.len() || at > hay.len() - needle.len() {
        return false;
    }
    let mut i: usize = 0;
    while i < needle.len()
        invariant
            i <= needle.len(),
            at + needle.len() <= hay.len(),
            forall|j: int| 0 <= j < i ==> hay@[at + j] == needle@[j],
        decreases needle.len() - i,
    {
        if hay[at + i] != needle[i] {
            assert(hay@.subrange(at as int, at + needle@.len())[i as int] != needle@[i as int]);
            return false;
        }
        i += 1;
    }
    assert(needle@ =~= hay@.subrange(at as int, at + needle@.len()));
    true
}

/// Whether `needle` stands somewhere in `hay`.
pub fn contains(hay: &Vec<char>, needle: &Vec<char>) -> (r: bool)
    ensures
        r == contains_text(hay@, needle@),
{
    if needle.len() > hay.len() {
        assert(forall|i: int| !occurs_at(hay@, needle@, i));
        return false;
    }
    let last: usize = hay.len() - needle.len();
    let mut at: usize = 0;
    while at < last
        invariant
            at <= last,
            last + needle.len() == hay.len(),
            forall|i: int| 0 <= i < at ==> !occurs_at(hay@, needle@, i),
        decreases last - at,
    {
        if matches_at(hay, needle, at) {
            return true;
        }
        at += 1;
    }
    let found = matches_at(hay, needle, last);
    assert(!found ==> forall|i: int| !occurs_at(hay@, needle@, i));
    found
}

/// The characters of `s`, each in its ASCII lowercase form.
pub fn to_ascii_lower(s: &Vec<char>) -> (r: Vec<char>)
    ensures
        r@ == ascii_lower_seq(s@),
{
    let mut r: Vec<char> = Vec::new();
    let mut i: usize = 0;
    while i < s.len()
        invariant
            i <= s.len(),
            r@.len() == i,
            forall|j: int| 0 <= j < i ==> r@[j] == ascii_lower(s@[j]),
        decreases s.len() - i,
    {
        r.push(char_to_lower(s[i]));
        i += 1;
    }
    assert(r@ =~= ascii_lower_seq(s@));
    r
}

/// A character with the Unicode property White_Space.
pub open spec fn is_whitespace(c: char) -> bool {
    ||| c == ' '
    ||| '\u{9}' <= c <= '\u{d}'
    ||| c == '\u{85}'
    ||| c == '\u{a0}'
    ||| c == '\u{1680}'
    ||| '\u{2000}' <= c <= '\u{200a}'
    ||| c == '\u{2028}'
    ||| c == '\u{2029}'
    ||| c == '\u{202f}'
    ||| c == '\u{205f}'
    ||| c == '\u{3000}'
}

/// `s` without the whitespace at its beginning and at its end.
pub open spec fn trimmed(s: Seq<char>) -> Seq<char>
    decreases s.len(),
{
    if s.len() > 0 && is_whitespace(s[0]) {
        trimmed(s.drop_first())
    } else if s.len() > 0 && is_whitespace(s.last()) {
        trimmed(s.drop_last())
    } else {
        s
    }
}

pub fn char_is_whitespace(c: char) -> (r: bool)
    ensures
        r == is_whitespace(c),
{
    c == ' ' || ('\u{9}' <= c && c <= '\u{d}') || c == '\u{85}' || c == '\u{a0}' || c == '\u{1680}'
        || ('\u{2000}' <= c && c <= '\u{200a}') || c == '\u{2028}' || c == '\u{2029}' || c
        == '\u{202f}' || c == '\u{205f}' || c == '\u{3000}'
}

/// The characters of `s` from `from` up to `to`, without the whitespace at
/// their beginning and at their end.
pub fn trim_range(s: &Vec<char>, from: usize, to: usize) -> (r: Vec<char>)
    requires
        from <= to <= s.len(),
    ensures
        r@ == trimmed(s@.subrange(from as int, to as int)),
{
    let ghost whole = s@.subrange(from as int, to as int);
    let mut start: usize = from;
    let mut end: usize = to;
    while start < end && char_is_whitespace(s[start])
        invariant
            from <= start <= end,
            end == to,
            to <= s.len(),
            trimmed(whole) == trimmed(s@.subrange(start as int, end as int)),
        decreases end - start,
    {
        assert(s@.subrange(start as int, end as int).drop_first() == s@.subrange(
            start + 1,
            end as int,
        ));
        start += 1;
    }
    while start < end && char_is_whitespace(s[end - 1])
        invariant
            from <= start <= end <= to,
            to <= s.len(),
            start < end ==> !is_whitespace(s@[start as int]),
            trimmed(whole) == trimmed(s@.subrange(start as int, end as int)),
        decreases end - start,
    {
        assert(s@.subrange(start as int, end as int).drop_last() == s@.subrange(
            start as int,
            end - 1,
        ));
        end -= 1;
    }
    let ghost kept = s@.subrange(start as int, end as int);
    assert(trimmed(kept) == kept);
    let mut r: Vec<char> = Vec::new();
    let mut i: usize = start;
    while i < end
        invariant
            start <= i <= end <= s.len(),
            r@ == s@.subrange(start as int, i as int),
        decreases end - i,
    {
        r.push(s[i]);
        assert(s@.subrange(start as int, i + 1) == s@.subrange(start as int, i as int).push(
            s@[i as int],
        ));
        i += 1;
    }
    r
}

} // verus!
