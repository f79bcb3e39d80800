//! Text primitives over `str` and `String`, stated over sequences of characters.

use vstd::prelude::*;

verus! {

/// `String::push` appends one character at the end of the string.
pub assume_specification[ String::push ](s: &mut String, ch: char)
    ensures
        final(s)@ == old(s)@.push(ch),
;

/// The characters of a string.
pub fn chars_of(s: &str) -> (r: Vec<char>)
    ensures
        r@ == s@,
{
    let mut out: Vec<char> = Vec::new();
    for c in it: s.chars()
        invariant
            it.seq() == s@,
            out@ == s@.take(it.index()),
    {
        out.push(c);
    }
    out
}

/// The string made of the characters `v[from..to]`.
pub fn text_between(v: &Vec<char>, from: usize, to: usize) -> (r: String)
    requires
        from <= to <= v@.len(),
    ensures
        r@ == v@.subrange(from as int, to as int),
{
    let mut out = String::new();
    let mut i: usize = from;
    while i < to
        invariant
            from <= i <= to <= v@.len(),
            out@ == v@.subrange(from as int, i as int),
        decreases to - i,
    {
        out.push(v[i]);
        i += 1;
    }
    out
}

/// The number of bytes of a text in UTF-8.
pub open spec fn utf8_len(s: Seq<char>) -> nat {
    vstd::utf8::encode_utf8(s).len()
}

/// Only the empty text has no bytes.
pub proof fn lemma_utf8_empty(s: Seq<char>)
    ensures
        utf8_len(s) == 0 <==> s.len() == 0,
{
    vstd::utf8::encode_utf8_decode_utf8(s);
    if utf8_len(s) == 0 {
        assert(vstd::utf8::encode_utf8(s) =~= Seq::<u8>::empty());
        assert(vstd::utf8::encode_utf8(Seq::<char>::empty()) =~= Seq::<u8>::empty());
        vstd::utf8::encode_utf8_decode_utf8(Seq::<char>::empty());
    }
}

pub fn byte_len(s: &str) -> (r: usize)
    ensures
        r == utf8_len(s@),
{
    s.as_bytes().len()
}

/// Whether two strings hold the same characters.
pub fn same_text(a: &str, b: &str) -> (r: bool)
    ensures
        r == (a@ == b@),
{
    let x = a.as_bytes();
    let y = b.as_bytes();
    proof {
        vstd::utf8::encode_utf8_decode_utf8(a@);
        vstd::utf8::encode_utf8_decode_utf8(b@);
    }
    if x.len() != y.len() {
        return false;
    }
    let mut i: usize = 0;
    while i < x.len()
        invariant
            i <= x@.len(),
            x@.len() == y@.len(),
            x@ == vstd::utf8::encode_utf8(a@),
            y@ == vstd::utf8::encode_utf8(b@),
            forall|j: int| 0 <= j < i ==> x@[j] == y@[j],
        decreases x@.len() - i,
    {
        if x[i] != y[i] {
            return false;
        }
        i += 1;
    }
    assert(x@ =~= y@);
    true
}


// ---------------------------------------------------------------------------
// Character classes
// ---------------------------------------------------------------------------

/// The ASCII lower-case form of a character; any other character is unchanged.
pub open spec fn lower_char(c: char) -> char {
    if 'A' <= c && c <= 'Z' {
        ((c as u8) + 32) as char
    } else {
        c
    }
}

/// The ASCII upper-case form of a character; any other character is unchanged.
pub open spec fn upper_char(c: char) -> char {
    if 'a' <= c && c <= 'z' {
        ((c as u8) - 32) as char
    } else {
        c
    }
}

pub open spec fn lower_text(s: Seq<char>) -> Seq<char> {
    Seq::new(s.len(), |i: int| lower_char(s[i]))
}

pub open spec fn upper_text(s: Seq<char>) -> Seq<char> {
    Seq::new(s.len(), |i: int| upper_char(s[i]))
}

/// The characters with the Unicode `White_Space` property.
pub open spec fn is_space(c: char) -> bool {
    ||| '\u{9}' <= c && c <= '\u{d}'
    ||| c == ' '
    ||| c == '\u{85}'
    ||| c == '\u{a0}'
    ||| c == '\u{1680}'
    ||| '\u{2000}' <= c && c <= '\u{200a}'
    ||| c == '\u{2028}'
    ||| c == '\u{2029}'
    ||| c == '\u{202f}'
    ||| c == '\u{205f}'
    ||| c == '\u{3000}'
}

/// The characters of the Unicode general category `Cc`.
pub open spec fn is_control(c: char) -> bool {
    ||| c <= '\u{1f}'
    ||| '\u{7f}' <= c && c <= '\u{9f}'
}

pub open spec fn is_letter(c: char) -> bool {
    ||| 'a' <= c && c <= 'z'
    ||| 'A' <= c && c <= 'Z'
}

pub open spec fn is_digit(c: char) -> bool {
    '0' <= c && c <= '9'
}

pub fn lower_of(c: char) -> (r: char)
    ensures
        r == lower_char(c),
{
    if 'A' <= c && c <= 'Z' {
        (c as u8 + 32) as char
    } else {
        c
    }
}

pub fn upper_of(c: char) -> (r: char)
    ensures
        r == upper_char(c),
{
    if 'a' <= c && c <= 'z' {
        (c as u8 - 32) as char
    } else {
        c
    }
}

pub fn space(c: char) -> (r: bool)
    ensures
        r == is_space(c),
{
    ('\u{9}' <= c && c <= '\u{d}') || c == ' ' || c == '\u{85}' || c == '\u{a0}' || c == '\u{1680}'
        || ('\u{2000}' <= c && c <= '\u{200a}') || c == '\u{2028}' || c == '\u{2029}' || c
        == '\u{202f}' || c == '\u{205f}' || c == '\u{3000}'
}

pub fn control(c: char) -> (r: bool)
    ensures
        r == is_control(c),
{
    c <= '\u{1f}' || ('\u{7f}' <= c && c <= '\u{9f}')
}

pub fn letter(c: char) -> (r: bool)
    ensures
        r == is_letter(c),
{
    ('a' <= c && c <= 'z') || ('A' <= c && c <= 'Z')
}

// ---------------------------------------------------------------------------
// Case folding and comparison
// ---------------------------------------------------------------------------

/// The string with its ASCII letters in lower case.
pub fn to_lower(s: &str) -> (r: String)
    ensures
        r@ == lower_text(s@),
{
    let v = chars_of(s);
    let mut out = String::new();
    let mut i: usize = 0;
    while i < v.len()
        invariant
            i <= v@.len(),
            v@ == s@,
            out@ == lower_text(s@).take(i as int),
        decreases v@.len() - i,
    {
        out.push(lower_of(v[i]));
        i += 1;
        assert(out@ =~= lower_text(s@).take(i as int));
    }
    assert(lower_text(s@).take(i as int) =~= lower_text(s@));
    out
}

/// The string with its ASCII letters in upper case.
pub fn to_upper(s: &str) -> (r: String)
    ensures
        r@ == upper_text(s@),
{
    let v = chars_of(s);
    let mut out = String::new();
    let mut i: usize = 0;
    while i < v.len()
        invariant
            i <= v@.len(),
            v@ == s@,
            out@ == upper_text(s@).take(i as int),
        decreases v@.len() - i,
    {
        out.push(upper_of(v[i]));
        i += 1;
        assert(out@ =~= upper_text(s@).take(i as int));
    }
    assert(upper_text(s@).take(i as int) =~= upper_text(s@));
    out
}

/// Whether two strings are equal up to the case of their ASCII letters.
pub open spec fn equal_fold(a: Seq<char>, b: Seq<char>) -> bool {
    lower_text(a) == lower_text(b)
}

pub fn same_fold(a: &str, b: &str) -> (r: bool)
    ensures
        r == equal_fold(a@, b@),
{
    let x = to_lower(a);
    let y = to_lower(b);
    same_text(x.as_str(), y.as_str())
}

/// The texts of a list.
pub open spec fn texts(list: Seq<&str>) -> Seq<Seq<char>> {
    Seq::new(list.len(), |i: int| list[i]@)
}

/// The texts of a list of owned texts.
pub open spec fn strings(list: Seq<String>) -> Seq<Seq<char>> {
    Seq::new(list.len(), |i: int| list[i]@)
}

/// A copy of a list.
pub fn copy_slice(list: &[String]) -> (r: Vec<String>)
    ensures
        r.deep_view() == strings(list@),
{
    let mut out: Vec<String> = Vec::new();
    for i in 0..list.len()
        invariant
            out@.len() == i,
            forall|j: int| 0 <= j < i ==> (#[trigger] out@[j])@ == list@[j]@,
    {
        out.push(list[i].clone());
    }
    assert(out.deep_view() =~= strings(list@));
    out
}

/// Whether a text is one of a list.
pub fn is_one_of(s: &str, list: &[&str]) -> (r: bool)
    ensures
        r == texts(list@).contains(s@),
{
    let mut i: usize = 0;
    while i < list.len()
        invariant
            i <= list@.len(),
            forall|j: int| 0 <= j < i ==> s@ != (#[trigger] texts(list@)[j]),
        decreases list@.len() - i,
    {
        if same_text(s, list[i]) {
            assert(texts(list@)[i as int] == s@);
            return true;
        }
        i += 1;
    }
    false
}

/// Whether a text equals one of a list, whatever the case of ASCII letters.
pub open spec fn any_fold(list: Seq<Seq<char>>, s: Seq<char>) -> bool {
    exists|i: int| 0 <= i < list.len() && equal_fold(#[trigger] list[i], s)
}

pub fn any_same_fold(list: &Vec<String>, s: &str) -> (r: bool)
    ensures
        r == any_fold(list.deep_view(), s@),
{
    let mut i: usize = 0;
    while i < list.len()
        invariant
            i <= list@.len(),
            forall|j: int| 0 <= j < i ==> !equal_fold(#[trigger] list.deep_view()[j], s@),
        decreases list@.len() - i,
    {
        if same_fold(list[i].as_str(), s) {
            assert(equal_fold(list.deep_view()[i as int], s@));
            return true;
        }
        i += 1;
    }
    false
}

// ---------------------------------------------------------------------------
// Searching
// ---------------------------------------------------------------------------

/// `needle` stands in `hay` at position `i`.
pub open spec fn occurs_at(hay: Seq<char>, needle: Seq<char>, i: int) -> bool {
    &&& 0 <= i
    &&& i + needle.len() <= hay.len()
    &&& hay.subrange(i, i + needle.len()) == needle
}

/// `needle` stands somewhere in `hay`.
pub open spec fn has_text(hay: Seq<char>, needle: Seq<char>) -> bool {
    exists|i: int| #[trigger] occurs_at(hay, needle, i)
}

pub open spec fn has_prefix(s: Seq<char>, p: Seq<char>) -> bool {
    p.len() <= s.len() && s.take(p.len() as int) == p
}

pub open spec fn has_suffix(s: Seq<char>, p: Seq<char>) -> bool {
    p.len() <= s.len() && s.skip(s.len() - p.len()) == p
}

fn stands_at(hay: &Vec<char>, needle: &Vec<char>, at: usize) -> (r: bool)
    requires
        at + needle@.len() <= hay@.len(),
    ensures
        r == occurs_at(hay@, needle@, at as int),
{
    let size: usize = hay.len();
    let mut j: usize = 0;
    while j < needle.len()
        invariant
            j <= needle@.len(),
            size == hay@.len(),
            at + needle@.len() <= hay@.len(),
            forall|k: int| 0 <= k < j ==> hay@[at + k] == needle@[k],
        decreases needle@.len() - j,
    {
        if hay[at + j] != needle[j] {
            assert(hay@.subrange(at as int, at + needle@.len())[j as int] != needle@[j as int]);
            return false;
        }
        j += 1;
    }
    assert(hay@.subrange(at as int, at + needle@.len()) =~= needle@);
    true
}

/// Whether `needle` stands in `hay`, both given as characters.
pub fn chars_contain(h: &Vec<char>, n: &Vec<char>) -> (r: bool)
    ensures
        r == has_text(h@, n@),
{
    if n.len() > h.len() {
        return false;
    }
    let last: usize = h.len() - n.len();
    let mut i: usize = 0;
    loop
        invariant
            i <= last,
            last == h@.len() - n@.len(),
            forall|k: int| 0 <= k < i ==> !occurs_at(h@, n@, k),
        decreases last - i,
    {
        if stands_at(h, n, i) {
            return true;
        }
        if i == last {
            return false;
        }
        i += 1;
    }
}

pub fn contains(hay: &str, needle: &str) -> (r: bool)
    ensures
        r == has_text(hay@, needle@),
{
    let h = chars_of(hay);
    let n = chars_of(needle);
    chars_contain(&h, &n)
}

/// Whether one of the needles occurs.
pub open spec fn has_any(hay: Seq<char>, needles: Seq<Seq<char>>) -> bool {
    exists|i: int| 0 <= i < needles.len() && has_text(hay, #[trigger] needles[i])
}

pub fn contains_any(hay: &str, needles: &[&str]) -> (r: bool)
    ensures
        r == has_any(hay@, texts(needles@)),
{
    let h = chars_of(hay);
    let mut i: usize = 0;
    while i < needles.len()
        invariant
            i <= needles@.len(),
            h@ == hay@,
            forall|j: int| 0 <= j < i ==> !has_text(hay@, #[trigger] texts(needles@)[j]),
        decreases needles@.len() - i,
    {
        let n = chars_of(needles[i]);
        if chars_contain(&h, &n) {
            assert(has_text(hay@, texts(needles@)[i as int]));
            return true;
        }
        i += 1;
    }
    false
}

pub fn starts_with(s: &str, p: &str) -> (r: bool)
    ensures
        r == has_prefix(s@, p@),
{
    let h = chars_of(s);
    let n = chars_of(p);
    if n.len() > h.len() {
        return false;
    }
    assert(s@.take(p@.len() as int) =~= s@.subrange(0, p@.len() as int));
    stands_at(&h, &n, 0)
}

pub fn ends_with(s: &str, p: &str) -> (r: bool)
    ensures
        r == has_suffix(s@, p@),
{
    let h = chars_of(s);
    let n = chars_of(p);
    if n.len() > h.len() {
        return false;
    }
    let at: usize = h.len() - n.len();
    assert(s@.skip(s@.len() - p@.len()) =~= s@.subrange(at as int, at + p@.len()));
    stands_at(&h, &n, at)
}

pub fn contains_char(s: &str, c: char) -> (r: bool)
    ensures
        r == s@.contains(c),
{
    let v = chars_of(s);
    let mut i: usize = 0;
    while i < v.len()
        invariant
            i <= v@.len(),
            v@ == s@,
            forall|j: int| 0 <= j < i ==> v@[j] != c,
        decreases v@.len() - i,
    {
        if v[i] == c {
            assert(s@[i as int] == c);
            return true;
        }
        i += 1;
    }
    false
}

// ---------------------------------------------------------------------------
// Cutting
// ---------------------------------------------------------------------------

/// The first `n` characters of `s`, or all of them.
pub open spec fn head(s: Seq<char>, n: nat) -> Seq<char> {
    if s.len() <= n {
        s
    } else {
        s.take(n as int)
    }
}

pub fn first_chars(s: &str, n: usize) -> (r: String)
    ensures
        r@ == head(s@, n as nat),
{
    let v = chars_of(s);
    let end: usize = if v.len() <= n {
        v.len()
    } else {
        n
    };
    assert(v@.subrange(0, end as int) =~= head(s@, n as nat));
    text_between(&v, 0, end)
}

/// `s` without the characters at both ends that satisfy `p`.
pub open spec fn stripped(s: Seq<char>, p: spec_fn(char) -> bool) -> Seq<char>
    decreases s.len(),
{
    if s.len() == 0 {
        s
    } else if p(s.first()) {
        stripped(s.drop_first(), p)
    } else if p(s.last()) {
        stripped(s.drop_last(), p)
    } else {
        s
    }
}

/// `s` without the white space at both ends.
pub open spec fn trimmed(s: Seq<char>) -> Seq<char> {
    stripped(s, |c: char| is_space(c))
}

pub open spec fn is_quote(c: char) -> bool {
    c == '"'
}

/// `s` without the double quotes at both ends.
pub open spec fn unquoted(s: Seq<char>) -> Seq<char> {
    stripped(s, |c: char| is_quote(c))
}

pub fn trim(s: &str) -> (r: String)
    ensures
        r@ == trimmed(s@),
{
    let v = chars_of(s);
    let ghost p = |c: char| is_space(c);
    let mut from: usize = 0;
    let mut to: usize = v.len();
    assert(v@.subrange(0, v@.len() as int) =~= v@);
    while from < to && space(v[from])
        invariant
            from <= to <= v@.len(),
            p == (|c: char| is_space(c)),
            stripped(v@.subrange(from as int, to as int), p) == stripped(v@, p),
        decreases to - from,
    {
        assert(v@.subrange(from as int, to as int).drop_first() =~= v@.subrange(
            from + 1,
            to as int,
        ));
        from += 1;
    }
    while from < to && space(v[to - 1])
        invariant
            from <= to <= v@.len(),
            p == (|c: char| is_space(c)),
            from < to ==> !is_space(v@[from as int]),
            stripped(v@.subrange(from as int, to as int), p) == stripped(v@, p),
        decreases to - from,
    {
        assert(v@.subrange(from as int, to as int).drop_last() =~= v@.subrange(
            from as int,
            to - 1,
        ));
        to -= 1;
    }
    text_between(&v, from, to)
}

pub fn unquote(s: &str) -> (r: String)
    ensures
        r@ == unquoted(s@),
{
    let v = chars_of(s);
    let ghost p = |c: char| is_quote(c);
    let mut from: usize = 0;
    let mut to: usize = v.len();
    assert(v@.subrange(0, v@.len() as int) =~= v@);
    while from < to && v[from] == '"'
        invariant
            from <= to <= v@.len(),
            p == (|c: char| is_quote(c)),
            stripped(v@.subrange(from as int, to as int), p) == stripped(v@, p),
        decreases to - from,
    {
        assert(v@.subrange(from as int, to as int).drop_first() =~= v@.subrange(
            from + 1,
            to as int,
        ));
        from += 1;
    }
    while from < to && v[to - 1] == '"'
        invariant
            from <= to <= v@.len(),
            p == (|c: char| is_quote(c)),
            from < to ==> !is_quote(v@[from as int]),
            stripped(v@.subrange(from as int, to as int), p) == stripped(v@, p),
        decreases to - from,
    {
        assert(v@.subrange(from as int, to as int).drop_last() =~= v@.subrange(
            from as int,
            to - 1,
        ));
        to -= 1;
    }
    text_between(&v, from, to)
}

/// The position of the first `c` in `s`, or the length of `s`.
pub open spec fn first_at(s: Seq<char>, c: char) -> int
    decreases s.len(),
{
    if s.len() == 0 || s[0] == c {
        0
    } else {
        1 + first_at(s.drop_first(), c)
    }
}

/// `first_at` gives the first position of `c`, or the length where there is none.
pub proof fn lemma_first_at(s: Seq<char>, c: char, i: int)
    requires
        0 <= i <= s.len(),
        forall|j: int| 0 <= j < i ==> s[j] != c,
        i < s.len() ==> s[i] == c,
    ensures
        first_at(s, c) == i,
    decreases s.len(),
{
    if i > 0 {
        assert forall|j: int| 0 <= j < i - 1 implies s.drop_first()[j] != c by {
            assert(s[j + 1] != c);
        }
        lemma_first_at(s.drop_first(), c, i - 1);
    }
}

pub proof fn lemma_first_at_bounds(s: Seq<char>, c: char)
    ensures
        0 <= first_at(s, c) <= s.len(),
        forall|j: int| 0 <= j < first_at(s, c) ==> s[j] != c,
        first_at(s, c) < s.len() ==> s[first_at(s, c)] == c,
    decreases s.len(),
{
    if s.len() > 0 && s[0] != c {
        lemma_first_at_bounds(s.drop_first(), c);
        assert forall|j: int| 0 <= j < first_at(s, c) implies s[j] != c by {
            if j > 0 {
                assert(s.drop_first()[j - 1] != c);
            }
        }
    }
}

/// What stands before and after the first `c`, if there is one.
pub open spec fn cut_at(s: Seq<char>, c: char) -> Option<(Seq<char>, Seq<char>)> {
    let i = first_at(s, c);
    if i < s.len() {
        Some((s.take(i), s.skip(i + 1)))
    } else {
        None
    }
}

/// The position of the first `c` in `v` at or after `from`, or the length of `v`.
fn position_from(v: &Vec<char>, from: usize, c: char) -> (r: usize)
    requires
        from <= v@.len(),
    ensures
        from <= r <= v@.len(),
        r - from == first_at(v@.skip(from as int), c),
{
    let mut i: usize = from;
    while i < v.len() && v[i] != c
        invariant
            from <= i <= v@.len(),
            forall|j: int| from <= j < i ==> v@[j] != c,
        decreases v@.len() - i,
    {
        i += 1;
    }
    proof {
        assert forall|j: int| 0 <= j < i - from implies v@.skip(from as int)[j] != c by {
            assert(v@[from + j] != c);
        }
        lemma_first_at(v@.skip(from as int), c, i - from);
    }
    i
}

pub fn split_once(s: &str, c: char) -> (r: Option<(String, String)>)
    ensures
        r.deep_view() == cut_at(s@, c),
{
    let v = chars_of(s);
    assert(v@.skip(0) =~= v@);
    let i = position_from(&v, 0, c);
    if i < v.len() {
        let a = text_between(&v, 0, i);
        let b = text_between(&v, i + 1, v.len());
        assert(a@ =~= s@.take(i as int));
        assert(b@ =~= s@.skip(i + 1));
        Some((a, b))
    } else {
        None
    }
}

/// The pieces of `s` between the occurrences of `c`.
pub open spec fn pieces(s: Seq<char>, c: char) -> Seq<Seq<char>>
    decreases s.len(),
    via pieces_decreases
{
    let i = first_at(s, c);
    if i < s.len() {
        seq![s.take(i)] + pieces(s.skip(i + 1), c)
    } else {
        seq![s]
    }
}

#[via_fn]
proof fn pieces_decreases(s: Seq<char>, c: char) {
    lemma_first_at_bounds(s, c);
}

pub fn split(s: &str, c: char) -> (r: Vec<String>)
    ensures
        r.deep_view() == pieces(s@, c),
        r@.len() >= 1,
{
    let v = chars_of(s);
    let mut out: Vec<String> = Vec::new();
    let mut from: usize = 0;
    assert(v@.skip(0) =~= v@);
    loop
        invariant
            from <= v@.len(),
            v@ == s@,
            pieces(s@, c) == out.deep_view() + pieces(v@.skip(from as int), c),
        decreases v@.len() - from,
    {
        let i = position_from(&v, from, c);
        let ghost rest = v@.skip(from as int);
        let piece = text_between(&v, from, i);
        assert(piece@ =~= rest.take(i - from));
        let ghost before = out.deep_view();
        out.push(piece);
        assert(out.deep_view() =~= before + seq![piece@]);
        if i < v.len() {
            assert(rest.skip(i - from + 1) =~= v@.skip(i + 1));
            assert(before + pieces(rest, c) =~= out.deep_view() + pieces(v@.skip(i + 1), c));
            from = i + 1;
        } else {
            assert(piece@ =~= rest);
            assert(before + pieces(rest, c) =~= out.deep_view());
            return out;
        }
    }
}

/// Whether a line ends at `i`.
pub open spec fn ends_line(s: Seq<char>, i: int) -> bool {
    0 <= i && i + 1 < s.len() && s[i] == '\r' && s[i + 1] == '\n'
}

/// Where the first line ends, or the length of `s` where it is the only one.
pub open spec fn line_len(s: Seq<char>) -> int
    decreases s.len(),
{
    if s.len() == 0 || ends_line(s, 0) {
        0
    } else {
        1 + line_len(s.drop_first())
    }
}

pub proof fn lemma_line_len(s: Seq<char>, i: int)
    requires
        0 <= i <= s.len(),
        forall|j: int| 0 <= j < i ==> !#[trigger] ends_line(s, j),
        i < s.len() ==> ends_line(s, i),
    ensures
        line_len(s) == i,
    decreases s.len(),
{
    if i > 0 {
        assert(!ends_line(s, 0));
        let rest = s.drop_first();
        assert forall|j: int| 0 <= j < i - 1 implies !#[trigger] ends_line(rest, j) by {
            assert(!ends_line(s, j + 1));
        }
        assert(i < s.len() ==> ends_line(rest, i - 1));
        lemma_line_len(rest, i - 1);
    }
}

proof fn lemma_line_len_bounds(s: Seq<char>)
    ensures
        0 <= line_len(s) <= s.len(),
        line_len(s) < s.len() ==> ends_line(s, line_len(s)),
    decreases s.len(),
{
    if s.len() > 0 && !ends_line(s, 0) {
        lemma_line_len_bounds(s.drop_first());
    }
}

/// The lines of `s`, without their ends.
pub open spec fn lines_of(s: Seq<char>) -> Seq<Seq<char>>
    decreases s.len(),
    via lines_decrease
{
    let i = line_len(s);
    if i < s.len() {
        seq![s.take(i)] + lines_of(s.skip(i + 2))
    } else {
        seq![s]
    }
}

#[via_fn]
proof fn lines_decrease(s: Seq<char>) {
    lemma_line_len_bounds(s);
}

pub fn split_lines(s: &str) -> (r: Vec<String>)
    ensures
        r.deep_view() == lines_of(s@),
        r@.len() >= 1,
{
    let v = chars_of(s);
    let mut out: Vec<String> = Vec::new();
    let mut from: usize = 0;
    assert(v@.skip(0) =~= v@);
    loop
        invariant
            from <= v@.len(),
            v@ == s@,
            lines_of(s@) == out.deep_view() + lines_of(v@.skip(from as int)),
        decreases v@.len() - from,
    {
        let ghost rest = v@.skip(from as int);
        let n: usize = v.len();
        let mut i: usize = from;
        while i < n && !(n - i > 1 && v[i] == '\r' && v[i + 1] == '\n')
            invariant
                from <= i <= n,
                n == v@.len(),
                rest == v@.skip(from as int),
                forall|j: int| 0 <= j < i - from ==> !#[trigger] ends_line(rest, j),
            decreases n - i,
        {
            assert(rest[i - from] == v@[i as int]);
            assert(!ends_line(rest, i - from));
            i += 1;
        }
        proof {
            assert(i < n ==> ends_line(rest, i - from));
            lemma_line_len(rest, i - from);
        }
        let line = text_between(&v, from, i);
        assert(line@ =~= rest.take(i - from));
        let ghost before = out.deep_view();
        out.push(line);
        assert(out.deep_view() =~= before + seq![line@]);
        if i < n {
            assert(rest.skip(i - from + 2) =~= v@.skip(i + 2));
            assert(before + lines_of(rest) =~= out.deep_view() + lines_of(v@.skip(i + 2)));
            from = i + 2;
        } else {
            assert(line@ =~= rest);
            assert(before + lines_of(rest) =~= out.deep_view());
            return out;
        }
    }
}

/// How many characters stand before the first white space.
pub open spec fn word_len(s: Seq<char>) -> int
    decreases s.len(),
{
    if s.len() == 0 || is_space(s[0]) {
        0
    } else {
        1 + word_len(s.drop_first())
    }
}

pub proof fn lemma_word_len(s: Seq<char>, i: int)
    requires
        0 <= i <= s.len(),
        forall|j: int| 0 <= j < i ==> !is_space(#[trigger] s[j]),
        i < s.len() ==> is_space(s[i]),
    ensures
        word_len(s) == i,
    decreases s.len(),
{
    if i > 0 {
        let rest = s.drop_first();
        assert forall|j: int| 0 <= j < i - 1 implies !is_space(#[trigger] rest[j]) by {
            assert(!is_space(s[j + 1]));
        }
        lemma_word_len(rest, i - 1);
    }
}

proof fn lemma_word_len_bounds(s: Seq<char>)
    ensures
        0 <= word_len(s) <= s.len(),
        s.len() > 0 && !is_space(s[0]) ==> word_len(s) > 0,
    decreases s.len(),
{
    if s.len() > 0 && !is_space(s[0]) {
        lemma_word_len_bounds(s.drop_first());
    }
}

/// The words of `s`: what stands between white space.
pub open spec fn words_of(s: Seq<char>) -> Seq<Seq<char>>
    decreases s.len(),
    via words_decrease
{
    if s.len() == 0 {
        seq![]
    } else if is_space(s[0]) {
        words_of(s.drop_first())
    } else {
        seq![s.take(word_len(s))] + words_of(s.skip(word_len(s)))
    }
}

#[via_fn]
proof fn words_decrease(s: Seq<char>) {
    lemma_word_len_bounds(s);
}

pub fn split_words(s: &str) -> (r: Vec<String>)
    ensures
        r.deep_view() == words_of(s@),
{
    let v = chars_of(s);
    let n: usize = v.len();
    let mut out: Vec<String> = Vec::new();
    let mut from: usize = 0;
    assert(v@.skip(0) =~= v@);
    assert(out.deep_view() + words_of(s@) =~= words_of(s@));
    while from < n
        invariant
            from <= n,
            n == v@.len(),
            v@ == s@,
            words_of(s@) == out.deep_view() + words_of(v@.skip(from as int)),
        decreases n - from,
    {
        let ghost rest = v@.skip(from as int);
        assert(rest[0] == v@[from as int]);
        if space(v[from]) {
            assert(rest.drop_first() =~= v@.skip(from + 1));
            from += 1;
        } else {
            let mut i: usize = from;
            while i < n && !space(v[i])
                invariant
                    from <= i <= n,
                    n == v@.len(),
                    rest == v@.skip(from as int),
                    forall|j: int| 0 <= j < i - from ==> !is_space(#[trigger] rest[j]),
                decreases n - i,
            {
                assert(rest[i - from] == v@[i as int]);
                i += 1;
            }
            proof {
                assert(i < n ==> rest[i - from] == v@[i as int]);
                lemma_word_len(rest, i - from);
                lemma_word_len_bounds(rest);
            }
            let word = text_between(&v, from, i);
            assert(word@ =~= rest.take(i - from));
            let ghost before = out.deep_view();
            out.push(word);
            assert(out.deep_view() =~= before + seq![word@]);
            assert(rest.skip(i - from) =~= v@.skip(i as int));
            assert(before + words_of(rest) =~= out.deep_view() + words_of(v@.skip(i as int)));
            from = i;
        }
    }
    assert(v@.skip(from as int) =~= seq![]);
    assert(words_of(s@) =~= out.deep_view());
    out
}

/// What follows the prefix `p` in `s`, where `s` starts with it.
pub fn strip_prefix(s: &str, p: &str) -> (r: Option<String>)
    ensures
        r.deep_view() == if has_prefix(s@, p@) {
            Some(s@.skip(p@.len() as int))
        } else {
            None
        },
{
    if !starts_with(s, p) {
        return None;
    }
    let v = chars_of(s);
    let n = chars_of(p);
    let rest = text_between(&v, n.len(), v.len());
    assert(rest@ =~= s@.skip(p@.len() as int));
    Some(rest)
}

/// The characters of `s` that neither are control characters nor quotes.
pub open spec fn plain_chars(s: Seq<char>) -> Seq<char> {
    s.filter(|c: char| !is_control(c) && c != '"' && c != '\'')
}

pub fn without_quotes(s: &str) -> (r: String)
    ensures
        r@ == plain_chars(s@),
{
    let v = chars_of(s);
    let ghost p = |c: char| !is_control(c) && c != '"' && c != '\'';
    let mut out = String::new();
    let mut i: usize = 0;
    assert(v@.take(0) =~= Seq::<char>::empty());
    assert(v@.take(0).filter(p) =~= Seq::<char>::empty()) by {
        reveal(Seq::filter);
    }
    while i < v.len()
        invariant
            i <= v@.len(),
            p == (|c: char| !is_control(c) && c != '"' && c != '\''),
            out@ == v@.take(i as int).filter(p),
        decreases v@.len() - i,
    {
        let c = v[i];
        assert(v@.take(i + 1).drop_last() =~= v@.take(i as int));
        assert(v@.take(i + 1).filter(p) == if p(c) {
            v@.take(i as int).filter(p).push(c)
        } else {
            v@.take(i as int).filter(p)
        }) by {
            reveal(Seq::filter);
        }
        if !control(c) && c != '"' && c != '\'' {
            out.push(c);
        }
        i += 1;
    }
    assert(v@.take(i as int) =~= s@);
    out
}

/// The strings of `list` with `sep` between each two.
pub open spec fn joined(list: Seq<Seq<char>>, sep: Seq<char>) -> Seq<char>
    decreases list.len(),
{
    if list.len() == 0 {
        seq![]
    } else if list.len() == 1 {
        list[0]
    } else {
        joined(list.drop_last(), sep) + sep + list.last()
    }
}

pub fn join(list: &Vec<String>, sep: &str) -> (r: String)
    ensures
        r@ == joined(list.deep_view(), sep@),
{
    let mut out = String::new();
    let mut i: usize = 0;
    let ghost all = list.deep_view();
    while i < list.len()
        invariant
            i <= list@.len(),
            all == list.deep_view(),
            out@ == joined(all.take(i as int), sep@),
        decreases list@.len() - i,
    {
        if i > 0 {
            out.append(sep);
        }
        out.append(list[i].as_str());
        assert(all.take(i + 1).drop_last() =~= all.take(i as int));
        assert(all.take(i + 1).last() == list@[i as int]@);
        if i == 0 {
            assert(out@ =~= list@[0]@);
        }
        i += 1;
    }
    assert(all.take(i as int) =~= all);
    out
}

/// A copy of a list of strings.
pub fn copy_list(list: &Vec<String>) -> (r: Vec<String>)
    ensures
        r.deep_view() == list.deep_view(),
{
    let mut out: Vec<String> = Vec::new();
    let mut i: usize = 0;
    while i < list.len()
        invariant
            i <= list@.len(),
            out@.len() == i,
            forall|j: int| 0 <= j < i ==> (#[trigger] out@[j])@ == list@[j]@,
        decreases list@.len() - i,
    {
        out.push(list[i].clone());
        i += 1;
    }
    assert(out.deep_view() =~= list.deep_view());
    out
}

/// A copy of an optional string.
pub fn copy_opt(s: &Option<String>) -> (r: Option<String>)
    ensures
        r.deep_view() == s.deep_view(),
{
    match s {
        Some(t) => Some(t.clone()),
        None => None,
    }
}

/// Two strings one after the other.
pub fn cat2(p1: &str, p2: &str) -> (r: String)
    ensures
        r@ == p1@ + p2@,
{
    let mut out = String::new();
    out.append(p1);
    out.append(p2);
    assert(out@ =~= p1@ + p2@);
    out
}

/// Three strings one after the other.
pub fn cat3(p1: &str, p2: &str, p3: &str) -> (r: String)
    ensures
        r@ == p1@ + p2@ + p3@,
{
    let mut out = String::new();
    out.append(p1);
    out.append(p2);
    out.append(p3);
    assert(out@ =~= p1@ + p2@ + p3@);
    out
}

/// Four strings one after the other.
pub fn cat4(p1: &str, p2: &str, p3: &str, p4: &str) -> (r: String)
    ensures
        r@ == p1@ + p2@ + p3@ + p4@,
{
    let mut out = String::new();
    out.append(p1);
    out.append(p2);
    out.append(p3);
    out.append(p4);
    assert(out@ =~= p1@ + p2@ + p3@ + p4@);
    out
}

/// Five strings one after the other.
pub fn cat5(p1: &str, p2: &str, p3: &str, p4: &str, p5: &str) -> (r: String)
    ensures
        r@ == p1@ + p2@ + p3@ + p4@ + p5@,
{
    let mut out = String::new();
    out.append(p1);
    out.append(p2);
    out.append(p3);
    out.append(p4);
    out.append(p5);
    assert(out@ =~= p1@ + p2@ + p3@ + p4@ + p5@);
    out
}

/// Six strings one after the other.
pub fn cat6(p1: &str, p2: &str, p3: &str, p4: &str, p5: &str, p6: &str) -> (r: String)
    ensures
        r@ == p1@ + p2@ + p3@ + p4@ + p5@ + p6@,
{
    let mut out = String::new();
    out.append(p1);
    out.append(p2);
    out.append(p3);
    out.append(p4);
    out.append(p5);
    out.append(p6);
    assert(out@ =~= p1@ + p2@ + p3@ + p4@ + p5@ + p6@);
    out
}

/// Seven strings one after the other.
pub fn cat7(p1: &str, p2: &str, p3: &str, p4: &str, p5: &str, p6: &str, p7: &str) -> (r: String)
    ensures
        r@ == p1@ + p2@ + p3@ + p4@ + p5@ + p6@ + p7@,
{
    let mut out = String::new();
    out.append(p1);
    out.append(p2);
    out.append(p3);
    out.append(p4);
    out.append(p5);
    out.append(p6);
    out.append(p7);
    assert(out@ =~= p1@ + p2@ + p3@ + p4@ + p5@ + p6@ + p7@);
    out
}

/// Eight strings one after the other.
pub fn cat8(p1: &str, p2: &str, p3: &str, p4: &str, p5: &str, p6: &str, p7: &str, p8: &str) -> (r: String)
    ensures
        r@ == p1@ + p2@ + p3@ + p4@ + p5@ + p6@ + p7@ + p8@,
{
    let mut out = String::new();
    out.append(p1);
    out.append(p2);
    out.append(p3);
    out.append(p4);
    out.append(p5);
    out.append(p6);
    out.append(p7);
    out.append(p8);
    assert(out@ =~= p1@ + p2@ + p3@ + p4@ + p5@ + p6@ + p7@ + p8@);
    out
}

/// A text in double quotes, with what is not printable escaped.
pub uninterp spec fn debug_text(s: Seq<char>) -> Seq<char>;

/// `format!("{:?}")` of a text. The contract names the result.
#[verifier::external_body]
pub(crate) fn quoted(s: &str) -> (r: String)
    ensures
        r@ == debug_text(s@),
{
    format!("{:?}", s)
}

// ---------------------------------------------------------------------------
// Laws
// ---------------------------------------------------------------------------

/// Each text of a list stands in the joined text.
pub proof fn lemma_joined_holds(list: Seq<Seq<char>>, sep: Seq<char>, i: int)
    requires
        0 <= i < list.len(),
    ensures
        has_text(joined(list, sep), list[i]),
    decreases list.len(),
{
    let all = joined(list, sep);
    if list.len() == 1 {
        assert(all.subrange(0, all.len() as int) =~= all);
        assert(occurs_at(all, list[0], 0));
    } else if i == list.len() - 1 {
        let at = all.len() - list[i].len();
        assert(all.subrange(at, all.len() as int) =~= list[i]);
        assert(occurs_at(all, list[i], at));
    } else {
        let rest = list.drop_last();
        lemma_joined_holds(rest, sep, i);
        assert(rest[i] == list[i]);
        let before = joined(rest, sep);
        let k = choose|k: int| occurs_at(before, list[i], k);
        assert(all.subrange(k, k + list[i].len()) =~= before.subrange(k, k + list[i].len()));
        assert(occurs_at(all, list[i], k));
    }
}

/// The two cases of a letter lie 32 apart, and no other character has two.
pub proof fn lemma_cases(c: char)
    ensures
        'A' <= c <= 'Z' ==> lower_char(c) as u32 == c as u32 + 32,
        !('A' <= c <= 'Z') ==> lower_char(c) == c,
        'a' <= c <= 'z' ==> upper_char(c) as u32 == c as u32 - 32,
        !('a' <= c <= 'z') ==> upper_char(c) == c,
        lower_char(upper_char(c)) == lower_char(c),
        lower_char(lower_char(c)) == lower_char(c),
{
}

/// A text equals its lower-case and its upper-case form up to case.
pub proof fn lemma_fold(s: Seq<char>)
    ensures
        lower_text(lower_text(s)) == lower_text(s),
        equal_fold(s, lower_text(s)),
        equal_fold(s, upper_text(s)),
        lower_text(s).len() == s.len(),
        upper_text(s).len() == s.len(),
{
    assert forall|i: int| 0 <= i < s.len() implies lower_char(lower_char(#[trigger] s[i])) == lower_char(s[i])
        && lower_char(upper_char(s[i])) == lower_char(s[i]) by {
        lemma_cases(s[i]);
    }
    assert(lower_text(lower_text(s)) =~= lower_text(s));
    assert(lower_text(upper_text(s)) =~= lower_text(s));
}

/// Stripping takes away from both ends what is to go, all of it and nothing else.
pub proof fn lemma_stripped(s: Seq<char>, p: spec_fn(char) -> bool, front: Seq<char>, core: Seq<char>, back: Seq<char>)
    requires
        s == front + core + back,
        forall|i: int| 0 <= i < front.len() ==> p(#[trigger] front[i]),
        forall|i: int| 0 <= i < back.len() ==> p(#[trigger] back[i]),
        core.len() > 0 ==> !p(core[0]) && !p(core[core.len() - 1]),
    ensures
        stripped(s, p) == core,
    decreases s.len(),
{
    if front.len() > 0 {
        assert(s.first() == front[0]);
        let f = front.drop_first();
        assert(s.drop_first() =~= f + core + back);
        assert forall|i: int| 0 <= i < f.len() implies p(#[trigger] f[i]) by {
            assert(f[i] == front[i + 1]);
        }
        lemma_stripped(s.drop_first(), p, f, core, back);
    } else if core.len() > 0 {
        assert(s.first() == core[0]);
        if back.len() > 0 {
            assert(s.last() == back[back.len() - 1]);
            let b = back.drop_last();
            assert(s.drop_last() =~= front + core + b);
            assert forall|i: int| 0 <= i < b.len() implies p(#[trigger] b[i]) by {
                assert(b[i] == back[i]);
            }
            lemma_stripped(s.drop_last(), p, front, core, b);
        } else {
            assert(s =~= core);
            assert(s.last() == core[core.len() - 1]);
        }
    } else if back.len() > 0 {
        assert(s.first() == back[0]);
        let b = back.drop_first();
        assert(s.drop_first() =~= front + core + b);
        assert forall|i: int| 0 <= i < b.len() implies p(#[trigger] b[i]) by {
            assert(b[i] == back[i + 1]);
        }
        lemma_stripped(s.drop_first(), p, front, core, b);
    } else {
        assert(s =~= core);
    }
}

/// Trimming takes away the white space at both ends, all of it and nothing else.
pub proof fn lemma_trimmed(front: Seq<char>, core: Seq<char>, back: Seq<char>)
    requires
        forall|i: int| 0 <= i < front.len() ==> is_space(#[trigger] front[i]),
        forall|i: int| 0 <= i < back.len() ==> is_space(#[trigger] back[i]),
        core.len() > 0 ==> !is_space(core[0]) && !is_space(core[core.len() - 1]),
    ensures
        trimmed(front + core + back) == core,
        is_space(' '),
        is_space('\t'),
        is_space('\r'),
        is_space('\n'),
{
    lemma_stripped(front + core + back, |c: char| is_space(c), front, core, back);
}

/// The first piece of a text ends before the first mark, the others are those of what is behind it.
pub proof fn lemma_pieces(a: Seq<char>, c: char, rest: Seq<char>)
    requires
        !a.contains(c),
    ensures
        pieces(a, c) == seq![a],
        pieces(a + seq![c] + rest, c) == seq![a] + pieces(rest, c),
{
    let s = a + seq![c] + rest;
    assert forall|j: int| 0 <= j < a.len() implies a[j] != c by {}
    assert forall|j: int| 0 <= j < a.len() implies s[j] != c by {
        assert(s[j] == a[j]);
    }
    lemma_first_at(a, c, a.len() as int);
    lemma_first_at(s, c, a.len() as int);
    assert(s.take(a.len() as int) =~= a);
    assert(s.skip(a.len() as int + 1) =~= rest);
}

/// A text is cut at the first mark, and not at all without one.
pub proof fn lemma_cut(a: Seq<char>, c: char, rest: Seq<char>)
    requires
        !a.contains(c),
    ensures
        cut_at(a, c) is None,
        cut_at(a + seq![c] + rest, c) == Some((a, rest)),
{
    let s = a + seq![c] + rest;
    assert forall|j: int| 0 <= j < a.len() implies a[j] != c by {}
    assert forall|j: int| 0 <= j < a.len() implies s[j] != c by {
        assert(s[j] == a[j]);
    }
    lemma_first_at(a, c, a.len() as int);
    lemma_first_at(s, c, a.len() as int);
    assert(s.take(a.len() as int) =~= a);
    assert(s.skip(a.len() as int + 1) =~= rest);
}

/// The first line ends before the first carriage return and line feed, the others are those of what is
/// behind them.
pub proof fn lemma_lines(a: Seq<char>, rest: Seq<char>)
    requires
        !a.contains('\r'),
    ensures
        lines_of(a) == seq![a],
        lines_of(a + seq!['\r', '\n'] + rest) == seq![a] + lines_of(rest),
{
    let s = a + seq!['\r', '\n'] + rest;
    assert forall|j: int| 0 <= j < a.len() implies a[j] != '\r' by {}
    assert forall|j: int| 0 <= j < a.len() implies !#[trigger] ends_line(s, j) by {
        assert(s[j] == a[j]);
    }
    lemma_line_len(a, a.len() as int);
    lemma_line_len(s, a.len() as int);
    assert(s.take(a.len() as int) =~= a);
    assert(s.skip(a.len() as int + 2) =~= rest);
}

/// A word ends before white space, and white space before a word makes no difference.
pub proof fn lemma_words(a: Seq<char>, c: char, rest: Seq<char>)
    requires
        a.len() > 0,
        forall|j: int| 0 <= j < a.len() ==> !is_space(#[trigger] a[j]),
        is_space(c),
    ensures
        words_of(a + seq![c] + rest) == seq![a] + words_of(rest),
        words_of(seq![c] + rest) == words_of(rest),
{
    let s = a + seq![c] + rest;
    let t = seq![c] + rest;
    assert(t.drop_first() =~= rest);
    assert forall|j: int| 0 <= j < a.len() implies !is_space(#[trigger] s[j]) by {
        assert(s[j] == a[j]);
    }
    assert(s[a.len() as int] == c);
    lemma_word_len(s, a.len() as int);
    assert(s[0] == a[0]);
    assert(s.take(a.len() as int) =~= a);
    assert(s.skip(a.len() as int) =~= t);
    assert(words_of(s) == seq![a] + words_of(t));
    assert(words_of(t) == words_of(t.drop_first()));
}

/// A list holds a text up to case exactly when one of its parts does.
pub proof fn lemma_any_fold(a: Seq<Seq<char>>, b: Seq<Seq<char>>, s: Seq<char>, t: Seq<char>)
    ensures
        any_fold(a + b, s) <==> any_fold(a, s) || any_fold(b, s),
        any_fold(seq![t], s) <==> lower_text(t) == lower_text(s),
{
    let c = a + b;
    if any_fold(a, s) {
        let i = choose|i: int| 0 <= i < a.len() && equal_fold(#[trigger] a[i], s);
        assert(equal_fold(c[i], s));
    }
    if any_fold(b, s) {
        let i = choose|i: int| 0 <= i < b.len() && equal_fold(#[trigger] b[i], s);
        assert(equal_fold(c[a.len() + i], s));
    }
    if any_fold(c, s) {
        let i = choose|i: int| 0 <= i < c.len() && equal_fold(#[trigger] c[i], s);
        if i < a.len() {
            assert(equal_fold(a[i], s));
        } else {
            assert(equal_fold(b[i - a.len()], s));
        }
    }
    if lower_text(t) == lower_text(s) {
        assert(equal_fold(seq![t][0], s));
    }
}

/// A text holds what was put into it, wherever; one that is shorter than a word does not hold it.
pub proof fn lemma_has_text(front: Seq<char>, word: Seq<char>, back: Seq<char>, short: Seq<char>)
    ensures
        has_text(front + word + back, word),
        short.len() < word.len() ==> !has_text(short, word),
        has_prefix(word + back, word),
        has_suffix(front + word, word),
{
    let all = front + word + back;
    assert(all.subrange(front.len() as int, (front.len() + word.len()) as int) =~= word);
    assert(occurs_at(all, word, front.len() as int));
    assert((word + back).take(word.len() as int) =~= word);
    assert((front + word).skip((front + word).len() - word.len()) =~= word);
}

/// What is kept of a text has no quotes and no control characters, and all else of it in its order.
pub proof fn lemma_plain_chars(a: Seq<char>, b: Seq<char>, c: char)
    ensures
        plain_chars(a + b) == plain_chars(a) + plain_chars(b),
        c == '"' || c == '\'' || is_control(c) ==> plain_chars(seq![c]).len() == 0,
        !(c == '"' || c == '\'' || is_control(c)) ==> plain_chars(seq![c]) == seq![c],
        is_control('\n'),
        is_control('\r'),
        !is_control(' '),
{
    let p = |x: char| !is_control(x) && x != '"' && x != '\'';
    Seq::filter_distributes_over_add(a, b, p);
    reveal(Seq::filter);
    reveal_with_fuel(Seq::filter, 2);
    assert(seq![c].drop_last() =~= seq![]);
    assert(seq![c].last() == c);
    if p(c) {
        assert(plain_chars(seq![c]) =~= seq![c]);
    }
}

/// Texts are joined with the mark between each two of them, and with none before the first or behind
/// the last.
pub proof fn lemma_joined(list: Seq<Seq<char>>, sep: Seq<char>, s: Seq<char>)
    ensures
        joined(seq![], sep).len() == 0,
        joined(seq![s], sep) == s,
        list.len() > 0 ==> joined(list.push(s), sep) == joined(list, sep) + sep + s,
{
    assert(list.push(s).drop_last() =~= list);
    assert(list.push(s).last() == s);
}

} // verus!
