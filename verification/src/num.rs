//! Numbers as text: decimal and hexadecimal digits, written and read.

use crate::text::{self, chars_of};
use vstd::prelude::*;

verus! {

// ---------------------------------------------------------------------------
// Decimal
// ---------------------------------------------------------------------------

/// The decimal digit `d`, for `d < 10`.
pub open spec fn digit_char(d: nat) -> char {
    (48 + d) as char
}

/// A natural number in decimal, without leading zeroes.
pub open spec fn dec_text(n: nat) -> Seq<char>
    decreases n,
{
    if n < 10 {
        seq![digit_char(n)]
    } else {
        dec_text(n / 10).push(digit_char(n % 10))
    }
}

/// An integer in decimal, with a minus sign where it is negative.
pub open spec fn dec_int(n: int) -> Seq<char> {
    if n < 0 {
        seq!['-'] + dec_text((-n) as nat)
    } else {
        dec_text(n as nat)
    }
}

/// A number below one hundred in two decimal digits, a larger one as it is.
pub open spec fn dec_two(n: nat) -> Seq<char> {
    if n < 10 {
        seq!['0'] + dec_text(n)
    } else {
        dec_text(n)
    }
}

fn push_dec(out: &mut String, n: u64)
    ensures
        final(out)@ == old(out)@ + dec_text(n as nat),
    decreases n,
{
    if n >= 10 {
        push_dec(out, n / 10);
    }
    let d: u8 = (n % 10) as u8;
    out.push((48 + d) as char);
    assert(out@ =~= old(out)@ + dec_text(n as nat));
}

pub fn dec(n: u64) -> (r: String)
    ensures
        r@ == dec_text(n as nat),
{
    let mut out = String::new();
    push_dec(&mut out, n);
    assert(out@ =~= dec_text(n as nat));
    out
}

pub fn dec_signed(n: i64) -> (r: String)
    ensures
        r@ == dec_int(n as int),
{
    let mut out = String::new();
    if n < 0 {
        out.push('-');
        let m: u64 = (-(n as i128)) as u64;
        push_dec(&mut out, m);
    } else {
        push_dec(&mut out, n as u64);
    }
    assert(out@ =~= dec_int(n as int));
    out
}

pub fn dec_pair(n: u64) -> (r: String)
    ensures
        r@ == dec_two(n as nat),
{
    let mut out = String::new();
    if n < 10 {
        out.push('0');
    }
    push_dec(&mut out, n);
    assert(out@ =~= dec_two(n as nat));
    out
}

pub open spec fn all_digits(s: Seq<char>) -> bool {
    forall|i: int| 0 <= i < s.len() ==> text::is_digit(#[trigger] s[i])
}

/// The number that a sequence of decimal digits writes.
pub open spec fn digits_value(s: Seq<char>) -> nat
    decreases s.len(),
{
    if s.len() == 0 {
        0
    } else {
        (digits_value(s.drop_last()) * 10 + (s.last() as nat - 48)) as nat
    }
}

/// The text without one leading plus sign.
pub open spec fn without_plus(s: Seq<char>) -> Seq<char> {
    if s.len() > 0 && s[0] == '+' {
        s.skip(1)
    } else {
        s
    }
}

/// The number that `s` writes in decimal: one digit or more, behind an optional plus sign.
pub open spec fn parse_nat(s: Seq<char>) -> Option<nat> {
    let body = without_plus(s);
    if body.len() > 0 && all_digits(body) {
        Some(digits_value(body))
    } else {
        None
    }
}

/// `parse_nat`, where the number is at most `max`.
pub open spec fn parse_up_to(s: Seq<char>, max: nat) -> Option<nat> {
    match parse_nat(s) {
        Some(n) => if n <= max {
            Some(n)
        } else {
            None
        },
        None => None,
    }
}

/// Reads a decimal number that is at most `max`.
pub fn parse_bounded(s: &str, max: u64) -> (r: Option<u64>)
    ensures
        match r {
            Some(n) => parse_up_to(s@, max as nat) == Some(n as nat),
            None => parse_up_to(s@, max as nat) is None,
        },
{
    let v = chars_of(s);
    let mut from: usize = 0;
    if v.len() > 0 && v[0] == '+' {
        from = 1;
    }
    let ghost body = without_plus(s@);
    assert(body =~= v@.skip(from as int));
    if from == v.len() {
        return None;
    }
    let mut i: usize = from;
    let mut acc: u64 = 0;
    let mut over: bool = false;
    while i < v.len()
        invariant
            from <= i <= v@.len(),
            v@ == s@,
            body == without_plus(s@),
            body == v@.skip(from as int),
            forall|j: int| 0 <= j < i - from ==> text::is_digit(#[trigger] body[j]),
            !over ==> acc == digits_value(body.take(i - from)),
            over ==> digits_value(body.take(i - from)) > u64::MAX,
        decreases v@.len() - i,
    {
        let c = v[i];
        if !('0' <= c && c <= '9') {
            assert(!text::is_digit(body[i - from]));
            return None;
        }
        let d: u64 = c as u64 - 48;
        assert(body.take(i - from + 1).drop_last() =~= body.take(i - from));
        assert(body.take(i - from + 1).last() == c);
        if !over {
            match acc.checked_mul(10) {
                Some(m) => match m.checked_add(d) {
                    Some(t) => {
                        acc = t;
                    },
                    None => {
                        over = true;
                    },
                },
                None => {
                    over = true;
                },
            }
        }
        i += 1;
    }
    assert(body.take(i - from) =~= body);
    if over || acc > max {
        None
    } else {
        Some(acc)
    }
}

pub fn parse_u64(s: &str) -> (r: Option<u64>)
    ensures
        match r {
            Some(n) => parse_up_to(s@, u64::MAX as nat) == Some(n as nat),
            None => parse_up_to(s@, u64::MAX as nat) is None,
        },
{
    parse_bounded(s, u64::MAX)
}

/// A number in decimal consists of digits, and of at least one.
pub proof fn lemma_dec_digits(n: nat)
    ensures
        dec_text(n).len() >= 1,
        all_digits(dec_text(n)),
    decreases n,
{
    if n >= 10 {
        lemma_dec_digits(n / 10);
    }
}

proof fn lemma_dec_value(n: nat)
    ensures
        digits_value(dec_text(n)) == n,
    decreases n,
{
    let s = dec_text(n);
    if n >= 10 {
        lemma_dec_value(n / 10);
        assert(s.drop_last() =~= dec_text(n / 10));
    } else {
        assert(s.drop_last() =~= Seq::<char>::empty());
        assert(digits_value(s.drop_last()) == 0);
    }
}

/// Reading a number back from its decimal text gives the number.
pub proof fn lemma_parse_dec(n: nat)
    ensures
        parse_nat(dec_text(n)) == Some(n),
{
    lemma_dec_digits(n);
    lemma_dec_value(n);
    assert(text::is_digit(dec_text(n)[0]));
}

/// No character that is not a digit stands in a decimal text.
pub proof fn lemma_dec_without(n: nat, c: char)
    requires
        !text::is_digit(c),
    ensures
        !dec_text(n).contains(c),
{
    lemma_dec_digits(n);
    if dec_text(n).contains(c) {
        let i = choose|i: int| 0 <= i < dec_text(n).len() && dec_text(n)[i] == c;
        assert(text::is_digit(dec_text(n)[i]));
    }
}

// ---------------------------------------------------------------------------
// Hexadecimal
// ---------------------------------------------------------------------------

/// The lower-case hexadecimal digit `d`, for `d < 16`.
pub open spec fn hex_char(d: nat) -> char {
    if d < 10 {
        (48 + d) as char
    } else {
        (87 + d) as char
    }
}

/// The upper-case hexadecimal digit `d`, for `d < 16`.
pub open spec fn hex_upper_char(d: nat) -> char {
    if d < 10 {
        (48 + d) as char
    } else {
        (55 + d) as char
    }
}

/// The last `width` hexadecimal digits of `n`, with leading zeroes.
pub open spec fn hex_text(n: nat, width: nat) -> Seq<char>
    decreases width,
{
    if width == 0 {
        seq![]
    } else {
        hex_text(n / 16, (width - 1) as nat).push(hex_char(n % 16))
    }
}

pub fn hex_digit(d: u8) -> (r: char)
    requires
        d < 16,
    ensures
        r == hex_char(d as nat),
{
    if d < 10 {
        (48 + d) as char
    } else {
        (87 + d) as char
    }
}

pub fn hex_upper_digit(d: u8) -> (r: char)
    requires
        d < 16,
    ensures
        r == hex_upper_char(d as nat),
{
    if d < 10 {
        (48 + d) as char
    } else {
        (55 + d) as char
    }
}

/// Appends the last `width` hexadecimal digits of `n`.
pub fn push_hex(out: &mut String, n: u64, width: u8)
    ensures
        final(out)@ == old(out)@ + hex_text(n as nat, width as nat),
    decreases width,
{
    if width > 0 {
        push_hex(out, n / 16, width - 1);
        out.push(hex_digit((n % 16) as u8));
    }
    assert(out@ =~= old(out)@ + hex_text(n as nat, width as nat));
}

pub proof fn lemma_hex_len(n: nat, width: nat)
    ensures
        hex_text(n, width).len() == width,
    decreases width,
{
    if width > 0 {
        lemma_hex_len(n / 16, (width - 1) as nat);
    }
}

/// Numbers that fit in `width` digits and have the same digits are equal.
pub proof fn lemma_hex_injective(a: nat, b: nat, width: nat)
    requires
        hex_text(a, width) == hex_text(b, width),
        a < vstd::arithmetic::power::pow(16, width),
        b < vstd::arithmetic::power::pow(16, width),
    ensures
        a == b,
    decreases width,
{
    use_pow_step(width);
    if width > 0 {
        let w = (width - 1) as nat;
        lemma_hex_len(a / 16, w);
        lemma_hex_len(b / 16, w);
        assert(hex_text(a, width).drop_last() =~= hex_text(a / 16, w));
        assert(hex_text(b, width).drop_last() =~= hex_text(b / 16, w));
        assert(hex_text(a, width).last() == hex_char(a % 16));
        assert(hex_text(b, width).last() == hex_char(b % 16));
        lemma_hex_injective(a / 16, b / 16, w);
    }
}

proof fn use_pow_step(width: nat)
    ensures
        width == 0 ==> vstd::arithmetic::power::pow(16, width) == 1,
        width > 0 ==> vstd::arithmetic::power::pow(16, width) == 16
            * vstd::arithmetic::power::pow(16, (width - 1) as nat),
{
    reveal(vstd::arithmetic::power::pow);
}

// ---------------------------------------------------------------------------
// Laws
// ---------------------------------------------------------------------------

/// A number is read back from its digits as long as it is within the bound, behind a plus sign too;
/// what holds anything but digits is no number.
pub proof fn lemma_read_back(n: nat, max: nat)
    ensures
        n <= max ==> parse_up_to(dec_text(n), max) == Some(n),
        n > max ==> parse_up_to(dec_text(n), max) is None,
        parse_nat(seq!['+'] + dec_text(n)) == Some(n),
        parse_nat(seq![]) is None,
{
    lemma_parse_dec(n);
    lemma_dec_digits(n);
    let t = dec_text(n);
    assert(text::is_digit(t[0]));
    assert((seq!['+'] + t).skip(1) =~= t);
}

/// A text with a character that is no digit, behind its first one, is no number.
pub proof fn lemma_no_number(s: Seq<char>, i: int)
    requires
        0 < i < s.len() || (i == 0 && s.len() > 0 && s[0] != '+'),
        !text::is_digit(s[i]),
    ensures
        parse_nat(s) is None,
{
    let body = without_plus(s);
    if s[0] == '+' {
        assert(body[i - 1] == s[i]);
        assert(!all_digits(body));
    } else {
        assert(!all_digits(s));
    }
}

/// The digits of a number: the last one is its remainder by ten, the others those of its quotient.
pub proof fn lemma_last_digit(n: nat)
    ensures
        n < 10 ==> dec_text(n) == seq![(48 + n) as char],
        n >= 10 ==> dec_text(n) == dec_text(n / 10).push((48 + n % 10) as char),
        digits_value(dec_text(n)) == n,
{
    lemma_dec_value(n);
    if n < 10 {
        assert(dec_text(n) =~= seq![(48 + n) as char]);
    } else {
        assert(dec_text(n) =~= dec_text(n / 10).push((48 + n % 10) as char));
    }
}

/// The hexadecimal digits of a number: the last one is its remainder by sixteen, the others those of its
/// quotient; the digits from ten on are lower-case letters.
pub proof fn lemma_last_hex(n: nat, width: nat, d: nat)
    ensures
        hex_text(n, width + 1) == hex_text(n / 16, width).push(hex_char(n % 16)),
        d < 10 ==> hex_char(d) as u32 == 48 + d && hex_upper_char(d) as u32 == 48 + d,
        10 <= d < 16 ==> hex_char(d) as u32 == 97 + (d - 10) && hex_upper_char(d) as u32 == 65 + (d - 10),
{
    assert(hex_text(n, width + 1) =~= hex_text(n / 16, width).push(hex_char(n % 16)));
}

} // verus!
