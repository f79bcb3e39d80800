//! JA4H: a fingerprint of the client out of the HTTP layer.
//!
//! Four parts with underscores between them: what the request says of itself (method, version,
//! cookies, referer, number of headers, language), then digests of the header names in order,
//! of the sorted cookie names, and of the sorted cookies.

use crate::crypto::{self, hex_head, sha256_text};
use crate::num::{self, dec_pair};
use crate::request::{self, TextMap};
use crate::sort::{self, drop_repeats, sort_texts};
use crate::text::{self, byte_len, cat3, cat7, contains, first_chars, is_one_of, join, letter, starts_with, to_lower};
use vstd::prelude::*;

verus! {

/// The names that do not count as headers.
pub open spec fn excluded_names() -> Seq<Seq<char>> {
    seq!["cookie"@, "referer"@, ":method"@, ":path"@, ":scheme"@, ":authority"@]
}

pub open spec fn counts(name: Seq<char>) -> bool {
    !excluded_names().contains(name) && !text::has_prefix(name, ":"@)
}

/// The names that count, in their order.
pub open spec fn counted(names: Seq<Seq<char>>) -> Seq<Seq<char>>
    decreases names.len(),
{
    if names.len() == 0 {
        seq![]
    } else if counts(names.last()) {
        counted(names.drop_last()).push(names.last())
    } else {
        counted(names.drop_last())
    }
}

/// A text with zeroes behind it until it has `n` bytes.
pub open spec fn padded(s: Seq<char>, n: nat) -> Seq<char> {
    s + Seq::new(
        if text::utf8_len(s) < n {
            (n - text::utf8_len(s)) as nat
        } else {
            0
        },
        |i: int| '0',
    )
}

/// The first two characters of the method.
pub open spec fn method_part(method: Seq<char>) -> Seq<char> {
    padded(text::lower_text(text::head(method, 2)), 2)
}

pub open spec fn version_part(version: Seq<char>) -> Seq<char> {
    if text::has_text(version, "3"@) {
        "30"@
    } else if text::has_text(version, "2"@) {
        "20"@
    } else if text::has_text(version, "1.0"@) {
        "10"@
    } else {
        "11"@
    }
}

/// What stands before the first comma or semicolon.
pub open spec fn primary_tag(s: Seq<char>) -> Seq<char>
    decreases s.len(),
{
    if s.len() == 0 || s[0] == ',' || s[0] == ';' {
        seq![]
    } else {
        seq![s[0]] + primary_tag(s.drop_first())
    }
}

/// The ASCII letters of a text.
pub open spec fn letters_of(s: Seq<char>) -> Seq<char>
    decreases s.len(),
{
    if s.len() == 0 {
        seq![]
    } else if text::is_letter(s.last()) {
        letters_of(s.drop_last()).push(s.last())
    } else {
        letters_of(s.drop_last())
    }
}

/// The first four letters of the primary language.
pub open spec fn language_part(lang: Seq<char>) -> Seq<char> {
    padded(text::lower_text(text::head(letters_of(primary_tag(lang)), 4)), 4)
}

/// Six bytes of the digest of a text, in hexadecimal.
pub open spec fn short_digest(s: Seq<char>) -> Seq<char> {
    crypto::hex_of(crypto::sha256_of(vstd::utf8::encode_utf8(s)).take(6))
}

/// The digest of a list with commas between its texts; zeroes for an empty list.
pub open spec fn list_digest(list: Seq<Seq<char>>) -> Seq<char> {
    if list.len() == 0 {
        "000000000000"@
    } else {
        short_digest(text::joined(list, ","@))
    }
}

/// The cookies as texts, each name and value with an equals sign between them.
pub open spec fn cookie_texts(cookies: Seq<request::Pair>) -> Seq<Seq<char>> {
    Seq::new(cookies.len(), |i: int| cookies[i].0 + "="@ + cookies[i].1)
}

/// The first part of the fingerprint.
pub open spec fn summary_part(
    method: Seq<char>,
    version: Seq<char>,
    header_order: Seq<Seq<char>>,
    headers: Seq<request::Pair>,
    cookies: Seq<request::Pair>,
) -> Seq<char> {
    let n = counted(header_order).len();
    method_part(method) + version_part(version) + (if cookies.len() == 0 {
        "n"@
    } else {
        "c"@
    }) + (if request::has_key(headers, "referer"@) {
        "r"@
    } else {
        "n"@
    }) + num::dec_two(
        if n < 99 {
            n
        } else {
            99
        },
    ) + language_part(
        match request::lookup(headers, "accept-language"@) {
            Some(v) => v,
            None => seq![],
        },
    )
}

pub open spec fn ja4h_of(
    method: Seq<char>,
    version: Seq<char>,
    header_order: Seq<Seq<char>>,
    headers: Seq<request::Pair>,
    cookie_order: Seq<Seq<char>>,
    cookies: Seq<request::Pair>,
) -> Seq<char> {
    summary_part(method, version, header_order, headers, cookies) + "_"@ + list_digest(counted(header_order)) + "_"@
        + list_digest(sort::without_repeats(sort::sorted(cookie_order))) + "_"@ + list_digest(
        sort::sorted(cookie_texts(cookies)),
    )
}

proof fn lemma_texts_reordered(a: Seq<request::Pair>, b: Seq<request::Pair>)
    requires
        a.to_multiset() == b.to_multiset(),
    ensures
        cookie_texts(a).to_multiset() == cookie_texts(b).to_multiset(),
        a.len() == b.len(),
    decreases a.len(),
{
    broadcast use vstd::seq_lib::group_to_multiset_ensures;

    assert(a.len() == a.to_multiset().len());
    if a.len() == 0 {
        assert(cookie_texts(a) =~= cookie_texts(b));
    } else {
        let x = a[0];
        assert(b.to_multiset().contains(x));
        let j = choose|j: int| 0 <= j < b.len() && b[j] == x;
        let a1 = a.remove(0);
        let b1 = b.remove(j);
        lemma_texts_reordered(a1, b1);
        let t = x.0 + "="@ + x.1;
        assert(cookie_texts(a1) =~= cookie_texts(a).remove(0));
        assert(cookie_texts(b1) =~= cookie_texts(b).remove(j));
        assert(cookie_texts(a)[0] == t && cookie_texts(b)[j] == t);
        assert(cookie_texts(a).to_multiset() =~= cookie_texts(a1).to_multiset().insert(t));
        assert(cookie_texts(b).to_multiset() =~= cookie_texts(b1).to_multiset().insert(t));
    }
}

/// The order in which cookies come does not change the fingerprint: neither that of their names,
/// nor how often one is named, nor the order in which they are held.
pub proof fn lemma_cookie_order(
    method: Seq<char>,
    version: Seq<char>,
    header_order: Seq<Seq<char>>,
    headers: Seq<request::Pair>,
    order_a: Seq<Seq<char>>,
    order_b: Seq<Seq<char>>,
    cookies_a: Seq<request::Pair>,
    cookies_b: Seq<request::Pair>,
)
    requires
        order_a.to_set() == order_b.to_set(),
        cookies_a.to_multiset() == cookies_b.to_multiset(),
    ensures
        ja4h_of(method, version, header_order, headers, order_a, cookies_a) == ja4h_of(
            method,
            version,
            header_order,
            headers,
            order_b,
            cookies_b,
        ),
{
    sort::lemma_same_texts(order_a, order_b);
    lemma_texts_reordered(cookies_a, cookies_b);
    sort::lemma_sorted_unique(cookie_texts(cookies_a), cookie_texts(cookies_b));
}

fn pad(s: String, n: usize) -> (r: String)
    requires
        n <= 64,
    ensures
        r@ == padded(s@, n as nat),
{
    let mut out = s;
    let size: usize = byte_len(out.as_str());
    let mut k: usize = size;
    let ghost text_part = out@;
    assert(out@ =~= text_part + Seq::new(0, |i: int| '0'));
    while k < n
        invariant
            size <= k,
            k <= n || k == size,
            out@ == text_part + Seq::new((k - size) as nat, |i: int| '0'),
            n <= 64,
        decreases n - k,
    {
        out.push('0');
        k += 1;
        assert(out@ =~= text_part + Seq::new((k - size) as nat, |i: int| '0'));
    }
    assert(out@ =~= padded(text_part, n as nat));
    out
}

fn method_two(m: &str) -> (r: String)
    ensures
        r@ == method_part(m@),
{
    pad(to_lower(first_chars(m, 2).as_str()), 2)
}

fn version_two(v: &str) -> (r: &'static str)
    ensures
        r@ == version_part(v@),
{
    if contains(v, "3") {
        "30"
    } else if contains(v, "2") {
        "20"
    } else if contains(v, "1.0") {
        "10"
    } else {
        "11"
    }
}

fn before_separator(s: &str) -> (r: String)
    ensures
        r@ == primary_tag(s@),
{
    let v = text::chars_of(s);
    let mut out = String::new();
    let mut i: usize = 0;
    assert(v@.skip(0) =~= v@);
    while i < v.len() && v[i] != ',' && v[i] != ';'
        invariant
            i <= v@.len(),
            v@ == s@,
            out@ + primary_tag(v@.skip(i as int)) == primary_tag(s@),
        decreases v@.len() - i,
    {
        let ghost before = out@;
        let ghost rest = v@.skip(i as int);
        out.push(v[i]);
        i += 1;
        proof {
            assert(rest.drop_first() =~= v@.skip(i as int));
            assert(out@ + primary_tag(v@.skip(i as int)) =~= before + primary_tag(rest));
        }
    }
    assert(out@ =~= primary_tag(s@));
    out
}

fn keep_letters(s: &str) -> (r: String)
    ensures
        r@ == letters_of(s@),
{
    let v = text::chars_of(s);
    let mut out = String::new();
    for i in 0..v.len()
        invariant
            v@ == s@,
            out@ == letters_of(v@.take(i as int)),
    {
        proof {
            assert(v@.take(i + 1).drop_last() =~= v@.take(i as int));
            assert(v@.take(i + 1).last() == v@[i as int]);
        }
        if letter(v[i]) {
            out.push(v[i]);
        }
    }
    assert(v@.take(v@.len() as int) =~= v@);
    out
}

fn ja4_lang(lang: &str) -> (r: String)
    ensures
        r@ == language_part(lang@),
{
    let primary = before_separator(lang);
    let letters = keep_letters(primary.as_str());
    pad(to_lower(first_chars(letters.as_str(), 4).as_str()), 4)
}

fn sha_12hex(input: &str) -> (r: String)
    ensures
        r@ == short_digest(input@),
{
    let digest = sha256_text(input);
    hex_head(&digest, 6)
}

fn digest_list(list: &Vec<String>) -> (r: String)
    ensures
        r@ == list_digest(list.deep_view()),
{
    if list.len() == 0 {
        "000000000000".to_string()
    } else {
        sha_12hex(join(list, ",").as_str())
    }
}

fn counted_names(order: &[String]) -> (r: Vec<String>)
    ensures
        r.deep_view() == counted(text::strings(order@)),
{
    let mut out: Vec<String> = Vec::new();
    let ghost all = text::strings(order@);
    let names = ["cookie", "referer", ":method", ":path", ":scheme", ":authority"];
    assert(text::texts(names@) =~= excluded_names());
    assert(out.deep_view() =~= counted(all.take(0)));
    for i in 0..order.len()
        invariant
            all == text::strings(order@),
            text::texts(names@) == excluded_names(),
            out.deep_view() == counted(all.take(i as int)),
    {
        let ghost before = out.deep_view();
        proof {
            assert(all.take(i + 1).drop_last() =~= all.take(i as int));
            assert(all.take(i + 1).last() == order@[i as int]@);
        }
        if !is_one_of(order[i].as_str(), &names) && !starts_with(order[i].as_str(), ":") {
            out.push(order[i].clone());
            assert(out.deep_view() =~= before.push(order@[i as int]@));
        }
    }
    assert(all.take(all.len() as int) =~= all);
    out
}

fn list_cookies(cookies: &TextMap) -> (r: Vec<String>)
    ensures
        r.deep_view() == cookie_texts(cookies@),
{
    let mut out: Vec<String> = Vec::new();
    let n: usize = cookies.len();
    for i in 0..n
        invariant
            n == cookies@.len(),
            out@.len() == i,
            forall|j: int| 0 <= j < i ==> (#[trigger] out@[j])@ == cookies@[j].0 + "="@ + cookies@[j].1,
    {
        let (name, value) = cookies.entry(i);
        out.push(cat3(name.as_str(), "=", value.as_str()));
    }
    assert(out.deep_view() =~= cookie_texts(cookies@));
    out
}

pub fn compute(
    method: &str,
    http_version: &str,
    header_order: &[String],
    headers: &TextMap,
    cookie_order: &[String],
    cookies: &TextMap,
) -> (r: String)
    ensures
        r@ == ja4h_of(
            method@,
            http_version@,
            text::strings(header_order@),
            headers@,
            text::strings(cookie_order@),
            cookies@,
        ),
{
    let m2 = method_two(method);
    let v2 = version_two(http_version);
    let cookie_mark: &str = if cookies.len() == 0 {
        "n"
    } else {
        "c"
    };
    let referer_mark: &str = if headers.contains_key("referer") {
        "r"
    } else {
        "n"
    };
    let included = counted_names(header_order);
    let n: usize = if included.len() < 99 {
        included.len()
    } else {
        99
    };
    let lang: &str = match headers.get("accept-language") {
        Some(v) => v.as_str(),
        None => "",
    };
    proof {
        reveal_strlit("");
        assert(""@ =~= Seq::<char>::empty());
    }
    let lang4 = ja4_lang(lang);
    let mut a = String::new();
    a.append(m2.as_str());
    a.append(v2);
    a.append(cookie_mark);
    a.append(referer_mark);
    a.append(dec_pair(n as u64).as_str());
    a.append(lang4.as_str());
    assert(a@ =~= summary_part(
        method@,
        http_version@,
        text::strings(header_order@),
        headers@,
        cookies@,
    ));
    let b = digest_list(&included);
    let order = text::copy_slice(cookie_order);
    let c = digest_list(&drop_repeats(&sort_texts(&order)));
    let d = digest_list(&sort_texts(&list_cookies(cookies)));
    cat7(a.as_str(), "_", b.as_str(), "_", c.as_str(), "_", d.as_str())
}

// ---------------------------------------------------------------------------
// Laws
// ---------------------------------------------------------------------------

/// The pseudo headers, the cookies and the referer do not count as headers; every other name does.
pub proof fn lemma_counts_exactly(name: Seq<char>)
    ensures
        counts(name) <==> name != "cookie"@ && name != "referer"@ && !(name.len() > 0 && name[0] == ':'),
{
    reveal_strlit(":");
    reveal_strlit(":method");
    reveal_strlit(":path");
    reveal_strlit(":scheme");
    reveal_strlit(":authority");
    let l = excluded_names();
    assert(l[0] == "cookie"@ && l[1] == "referer"@ && l[2] == ":method"@ && l[3] == ":path"@);
    assert(l[4] == ":scheme"@ && l[5] == ":authority"@ && l.len() == 6);
    assert(":method"@[0] == ':' && ":path"@[0] == ':' && ":scheme"@[0] == ':' && ":authority"@[0] == ':');
    assert(":"@ =~= seq![':']);
    if name.len() > 0 {
        assert(name.take(1) =~= seq![name[0]]);
        assert(seq![name[0]][0] == name[0] && seq![':'][0] == ':');
    }
}

/// The names that count keep their order, and those that do not make no difference wherever they
/// stand.
pub proof fn lemma_counted_parts(a: Seq<Seq<char>>, b: Seq<Seq<char>>, name: Seq<char>)
    ensures
        counted(a + b) == counted(a) + counted(b),
        counts(name) ==> counted(seq![name]) == seq![name],
        !counts(name) ==> counted(seq![name]).len() == 0,
    decreases b.len(),
{
    if b.len() == 0 {
        assert(a + b =~= a);
        assert(counted(a) + counted(b) =~= counted(a));
    } else {
        lemma_counted_parts(a, b.drop_last(), name);
        assert((a + b).drop_last() =~= a + b.drop_last());
        assert(counted(a + b) =~= counted(a) + counted(b));
    }
    let none: Seq<Seq<char>> = seq![];
    assert(seq![name].drop_last() =~= none);
    assert(counted(none).len() == 0);
    assert(seq![name].last() == name);
    if counts(name) {
        assert(counted(seq![name]) =~= seq![name]);
    }
}

/// The versions by what their text holds, the newest first.
pub proof fn lemma_versions(version: Seq<char>)
    ensures
        ({
            let three = text::has_text(version, "3"@);
            let two = text::has_text(version, "2"@);
            let old = text::has_text(version, "1.0"@);
            &&& three ==> version_part(version) == seq!['3', '0']
            &&& !three && two ==> version_part(version) == seq!['2', '0']
            &&& !three && !two && old ==> version_part(version) == seq!['1', '0']
            &&& !three && !two && !old ==> version_part(version) == seq!['1', '1']
        }),
{
    reveal_strlit("30");
    reveal_strlit("20");
    reveal_strlit("10");
    reveal_strlit("11");
    assert("30"@ =~= seq!['3', '0']);
    assert("20"@ =~= seq!['2', '0']);
    assert("10"@ =~= seq!['1', '0']);
    assert("11"@ =~= seq!['1', '1']);
}

/// Only what stands before the first comma or semicolon is the primary language.
pub proof fn lemma_primary(a: Seq<char>, c: char, rest: Seq<char>)
    requires
        forall|i: int| 0 <= i < a.len() ==> #[trigger] a[i] != ',' && a[i] != ';',
        c == ',' || c == ';',
    ensures
        primary_tag(a) == a,
        primary_tag(a + seq![c] + rest) == a,
        language_part(a + seq![c] + rest) == language_part(a),
    decreases a.len(),
{
    let s = a + seq![c] + rest;
    if a.len() > 0 {
        let t = a.drop_first();
        assert forall|i: int| 0 <= i < t.len() implies #[trigger] t[i] != ',' && t[i] != ';' by {
            assert(t[i] == a[i + 1]);
        }
        lemma_primary(t, c, rest);
        assert(s.drop_first() =~= t + seq![c] + rest);
        assert(s[0] == a[0]);
        assert(seq![a[0]] + t =~= a);
    } else {
        assert(s[0] == c);
        assert(primary_tag(a) =~= a);
        assert(primary_tag(s) =~= a);
    }
}

/// The letters of a text are all its letters, in their order.
pub proof fn lemma_letters(a: Seq<char>, b: Seq<char>)
    ensures
        letters_of(a + b) == letters_of(a) + letters_of(b),
        (forall|i: int| 0 <= i < b.len() ==> text::is_letter(#[trigger] b[i])) ==> letters_of(b) == b,
        (forall|i: int| 0 <= i < b.len() ==> !text::is_letter(#[trigger] b[i])) ==> letters_of(b).len() == 0,
    decreases b.len(),
{
    if b.len() == 0 {
        assert(a + b =~= a);
        assert(letters_of(a) + letters_of(b) =~= letters_of(a));
        assert(letters_of(b) =~= b);
    } else {
        let r = b.drop_last();
        lemma_letters(a, r);
        assert((a + b).drop_last() =~= a + r);
        assert(letters_of(a + b) =~= letters_of(a) + letters_of(b));
        assert(b.last() == b[b.len() - 1]);
        if forall|i: int| 0 <= i < b.len() ==> text::is_letter(#[trigger] b[i]) {
            assert forall|i: int| 0 <= i < r.len() implies text::is_letter(#[trigger] r[i]) by {
                assert(r[i] == b[i]);
            }
            assert(letters_of(b) =~= b);
        }
        if forall|i: int| 0 <= i < b.len() ==> !text::is_letter(#[trigger] b[i]) {
            assert forall|i: int| 0 <= i < r.len() implies !text::is_letter(#[trigger] r[i]) by {
                assert(r[i] == b[i]);
            }
        }
    }
}

/// The method and the case of its letters: only the first two characters count, in lower case.
pub proof fn lemma_method_part(a: Seq<char>, b: Seq<char>)
    requires
        a.len() >= 2,
        b.len() >= 2,
        text::equal_fold(a.take(2), b.take(2)),
    ensures
        method_part(a) == method_part(b),
{
    assert(text::head(a, 2) =~= a.take(2));
    assert(text::head(b, 2) =~= b.take(2));
}

/// The summary tells whether there are cookies and whether there is a referer.
pub proof fn lemma_summary_marks(
    method: Seq<char>,
    version: Seq<char>,
    header_order: Seq<Seq<char>>,
    headers: Seq<request::Pair>,
    cookies: Seq<request::Pair>,
)
    requires
        method_part(method).len() == 2,
    ensures
        ({
            let s = summary_part(method, version, header_order, headers, cookies);
            &&& s.len() >= 6
            &&& s.take(2) == method_part(method)
            &&& s.subrange(2, 4) == version_part(version)
            &&& s[4] == if cookies.len() == 0 {
                'n'
            } else {
                'c'
            }
            &&& s[5] == if request::has_key(headers, "referer"@) {
                'r'
            } else {
                'n'
            }
        }),
{
    reveal_strlit("n");
    reveal_strlit("c");
    reveal_strlit("r");
    lemma_versions(version);
    let s = summary_part(method, version, header_order, headers, cookies);
    let m = method_part(method);
    let v = version_part(version);
    assert("n"@.len() == 1 && "c"@.len() == 1 && "r"@.len() == 1);
    assert(v.len() == 2);
    assert(s.take(2) =~= m);
    assert(s.subrange(2, 4) =~= v);
}

/// Four letters of the primary language count, in lower case; where there are fewer, zeroes stand for
/// the others.
pub proof fn lemma_language(tag: Seq<char>)
    requires
        forall|i: int| 0 <= i < tag.len() ==> text::is_letter(#[trigger] tag[i]),
    ensures
        tag.len() >= 4 ==> language_part(tag) == padded(text::lower_text(tag.take(4)), 4),
        tag.len() < 4 ==> language_part(tag) == padded(text::lower_text(tag), 4),
{
    assert forall|i: int| 0 <= i < tag.len() implies #[trigger] tag[i] != ',' && tag[i] != ';' by {
        assert(text::is_letter(tag[i]));
    }
    lemma_primary(tag, ',', seq![]);
    lemma_letters(seq![], tag);
    if tag.len() >= 4 {
        assert(text::head(tag, 4) =~= tag.take(4));
    }
}

/// The number of headers stands in the summary with two digits, and stops at ninety-nine.
pub proof fn lemma_summary_count(
    method: Seq<char>,
    version: Seq<char>,
    header_order: Seq<Seq<char>>,
    headers: Seq<request::Pair>,
    cookies: Seq<request::Pair>,
)
    requires
        method_part(method).len() == 2,
    ensures
        ({
            let s = summary_part(method, version, header_order, headers, cookies);
            let n = counted(header_order).len();
            &&& n <= 99 ==> s.len() >= 6 + num::dec_two(n).len() && s.subrange(6, 6int + num::dec_two(n).len())
                == num::dec_two(n)
            &&& n > 99 ==> s.len() >= 6 + num::dec_two(99).len() && s.subrange(6, 6int + num::dec_two(99).len())
                == num::dec_two(99)
        }),
{
    reveal_strlit("n");
    reveal_strlit("c");
    reveal_strlit("r");
    lemma_versions(version);
    let s = summary_part(method, version, header_order, headers, cookies);
    let n = counted(header_order).len();
    let m: nat = if n < 99 {
        n
    } else {
        99
    };
    assert("n"@.len() == 1 && "c"@.len() == 1 && "r"@.len() == 1);
    assert(version_part(version).len() == 2);
    assert(s.subrange(6, 6int + num::dec_two(m).len()) =~= num::dec_two(m));
}

/// A name that does not count makes no difference to the fingerprint, wherever it stands among the
/// headers.
pub proof fn lemma_uncounted_header(
    method: Seq<char>,
    version: Seq<char>,
    before: Seq<Seq<char>>,
    name: Seq<char>,
    after: Seq<Seq<char>>,
    headers: Seq<request::Pair>,
    cookie_order: Seq<Seq<char>>,
    cookies: Seq<request::Pair>,
)
    requires
        !counts(name),
    ensures
        ja4h_of(method, version, before + seq![name] + after, headers, cookie_order, cookies) == ja4h_of(
            method,
            version,
            before + after,
            headers,
            cookie_order,
            cookies,
        ),
{
    lemma_counted_parts(before + seq![name], after, name);
    lemma_counted_parts(before, seq![name], name);
    lemma_counted_parts(before, after, name);
    assert(counted(before) + counted(seq![name]) =~= counted(before));
}

/// The fingerprint is the summary and the digests of the headers, of the names of the cookies and of the
/// cookies themselves, with underscores between them; an empty list has twelve zeroes for its digest.
pub proof fn lemma_fingerprint_parts(
    method: Seq<char>,
    version: Seq<char>,
    header_order: Seq<Seq<char>>,
    headers: Seq<request::Pair>,
)
    ensures
        ({
            let zeroes = Seq::new(12, |i: int| '0');
            let none: Seq<Seq<char>> = seq![];
            let all = ja4h_of(method, version, header_order, headers, none, seq![]);
            let start = summary_part(method, version, header_order, headers, seq![]);
            &&& all == start + "_"@ + list_digest(counted(header_order)) + "_"@ + zeroes + "_"@ + zeroes
            &&& list_digest(none) == zeroes
        }),
{
    reveal_strlit("000000000000");
    let none: Seq<Seq<char>> = seq![];
    let pairs: Seq<request::Pair> = seq![];
    assert("000000000000"@ =~= Seq::new(12, |i: int| '0'));
    assert(cookie_texts(pairs) =~= none);
    assert(sort::sorted(none) =~= none);
    assert(sort::without_repeats(none) =~= none);
}

/// The digest of a list is that of its texts with commas between them, of which the first twelve
/// hexadecimal digits are kept.
pub proof fn lemma_list_digest(list: Seq<Seq<char>>)
    requires
        list.len() > 0,
        crypto::sha256_of(vstd::utf8::encode_utf8(text::joined(list, seq![',']))).len() >= 6,
    ensures
        list_digest(list).len() == 12,
        list_digest(list) == crypto::hex_of(
            crypto::sha256_of(vstd::utf8::encode_utf8(text::joined(list, seq![',']))),
        ).take(12),
{
    reveal_strlit(",");
    assert(","@ =~= seq![',']);
    let d = crypto::sha256_of(vstd::utf8::encode_utf8(text::joined(list, seq![','])));
    assert(list_digest(list) =~= crypto::hex_of(d).take(12));
}

} // verus!
