//! Protocol-agnostic view of an incoming HTTP request.

use crate::net::IpAddr;
use crate::text::{self, same_text, split, split_once, starts_with, to_lower, trim, unquote};
use vstd::prelude::*;

verus! {

/// A name and its value.
pub type Pair = (Seq<char>, Seq<char>);

/// The value of the first entry named `key`.
pub open spec fn lookup(entries: Seq<Pair>, key: Seq<char>) -> Option<Seq<char>>
    decreases entries.len(),
{
    if entries.len() == 0 {
        None
    } else if entries[0].0 == key {
        Some(entries[0].1)
    } else {
        lookup(entries.drop_first(), key)
    }
}

/// The entries after `key` was given the value `value`: its old value is replaced, a new name
/// goes to the end.
pub open spec fn put(entries: Seq<Pair>, key: Seq<char>, value: Seq<char>) -> Seq<Pair>
    decreases entries.len(),
{
    if entries.len() == 0 {
        seq![(key, value)]
    } else if entries[0].0 == key {
        seq![(key, value)] + entries.drop_first()
    } else {
        seq![entries[0]] + put(entries.drop_first(), key, value)
    }
}

pub open spec fn has_key(entries: Seq<Pair>, key: Seq<char>) -> bool {
    lookup(entries, key) is Some
}

/// Whether some name starts with `prefix`.
pub open spec fn has_key_prefix(entries: Seq<Pair>, prefix: Seq<char>) -> bool {
    exists|i: int| 0 <= i < entries.len() && text::has_prefix(#[trigger] entries[i].0, prefix)
}

/// Whether no name occurs twice.
pub open spec fn distinct(entries: Seq<Pair>) -> bool {
    forall|i: int, j: int| 0 <= i < j < entries.len() ==> entries[i].0 != entries[j].0
}

/// A name that `lookup` finds stands at the index where `lookup` found it.
pub proof fn lemma_lookup(entries: Seq<Pair>, key: Seq<char>, i: int)
    requires
        0 <= i < entries.len(),
        entries[i].0 == key,
        forall|j: int| 0 <= j < i ==> entries[j].0 != key,
    ensures
        lookup(entries, key) == Some(entries[i].1),
        put(entries, key, entries[i].1) == entries,
    decreases entries.len(),
{
    if i > 0 {
        let rest = entries.drop_first();
        assert(entries[0].0 != key);
        assert forall|j: int| 0 <= j < i - 1 implies rest[j].0 != key by {
            assert(rest[j] == entries[j + 1]);
        }
        lemma_lookup(rest, key, i - 1);
    }
    assert(put(entries, key, entries[i].1) =~= entries);
}

proof fn lemma_put_at(entries: Seq<Pair>, key: Seq<char>, value: Seq<char>, i: int)
    requires
        0 <= i < entries.len(),
        entries[i].0 == key,
        forall|j: int| 0 <= j < i ==> entries[j].0 != key,
    ensures
        put(entries, key, value) == entries.update(i, (key, value)),
    decreases entries.len(),
{
    if i > 0 {
        let rest = entries.drop_first();
        assert(entries[0].0 != key);
        assert forall|j: int| 0 <= j < i - 1 implies rest[j].0 != key by {
            assert(rest[j] == entries[j + 1]);
        }
        lemma_put_at(rest, key, value, i - 1);
    }
    assert(put(entries, key, value) =~= entries.update(i, (key, value)));
}

proof fn lemma_absent(entries: Seq<Pair>, key: Seq<char>)
    requires
        forall|j: int| 0 <= j < entries.len() ==> (#[trigger] entries[j]).0 != key,
    ensures
        lookup(entries, key) is None,
        forall|value: Seq<char>| #[trigger] put(entries, key, value) == entries.push((key, value)),
    decreases entries.len(),
{
    if entries.len() > 0 {
        let rest = entries.drop_first();
        assert(entries[0].0 != key);
        assert forall|j: int| 0 <= j < rest.len() implies (#[trigger] rest[j]).0 != key by {
            assert(rest[j] == entries[j + 1]);
        }
        lemma_absent(rest, key);
    }
    assert forall|value: Seq<char>| #[trigger] put(entries, key, value) == entries.push((key, value)) by {
        if entries.len() > 0 {
            assert(put(entries.drop_first(), key, value) == entries.drop_first().push((key, value)));
        }
        assert(put(entries, key, value) =~= entries.push((key, value)));
    }
}

/// What was put is found again, every other name is found as before, and a list without
/// repeated names stays one.
pub proof fn lemma_put(entries: Seq<Pair>, key: Seq<char>, value: Seq<char>)
    ensures
        lookup(put(entries, key, value), key) == Some(value),
        forall|other: Seq<char>| other != key ==> #[trigger] lookup(put(entries, key, value), other) == lookup(
            entries,
            other,
        ),
        distinct(entries) ==> distinct(put(entries, key, value)),
    decreases entries.len(),
{
    reveal_with_fuel(lookup, 2);
    let after = put(entries, key, value);
    if entries.len() == 0 {
        assert(after.drop_first() =~= seq![]);
        assert(entries =~= seq![]);
    } else if entries[0].0 == key {
        assert(after.drop_first() =~= entries.drop_first());
        assert(distinct(entries) ==> distinct(after));
    } else {
        let rest = entries.drop_first();
        lemma_put(rest, key, value);
        assert(after.drop_first() =~= put(rest, key, value));
        assert forall|other: Seq<char>| other != key implies #[trigger] lookup(after, other) == lookup(
            entries,
            other,
        ) by {
            assert(lookup(put(rest, key, value), other) == lookup(rest, other));
        }
        if distinct(entries) {
            assert forall|i: int, j: int| 0 <= i < j < rest.len() implies rest[i].0 != rest[j].0 by {
                assert(rest[i] == entries[i + 1] && rest[j] == entries[j + 1]);
            }
            assert(lookup(rest, entries[0].0) is None) by {
                assert forall|j: int| 0 <= j < rest.len() implies (#[trigger] rest[j]).0 != entries[0].0 by {
                    assert(rest[j] == entries[j + 1]);
                }
                lemma_absent(rest, entries[0].0);
            }
            let tail = put(rest, key, value);
            assert(lookup(tail, entries[0].0) is None);
            assert forall|j: int| 0 <= j < tail.len() implies tail[j].0 != entries[0].0 by {
                if tail[j].0 == entries[0].0 {
                    lemma_present(tail, entries[0].0, j);
                }
            }
            assert forall|i: int, j: int| 0 <= i < j < after.len() implies after[i].0 != after[j].0 by {
                assert(after[j] == tail[j - 1]);
                if i > 0 {
                    assert(after[i] == tail[i - 1]);
                }
            }
        }
    }
}

/// A name that is new goes to the end.
pub proof fn lemma_put_new(entries: Seq<Pair>, key: Seq<char>, value: Seq<char>)
    requires
        lookup(entries, key) is None,
    ensures
        put(entries, key, value) == entries.push((key, value)),
    decreases entries.len(),
{
    if entries.len() > 0 {
        lemma_put_new(entries.drop_first(), key, value);
        assert(seq![entries[0]] + entries.drop_first() =~= entries);
        assert(put(entries, key, value) =~= entries.push((key, value)));
    } else {
        assert(put(entries, key, value) =~= entries.push((key, value)));
    }
}

proof fn lemma_present(entries: Seq<Pair>, key: Seq<char>, i: int)
    requires
        0 <= i < entries.len(),
        entries[i].0 == key,
    ensures
        lookup(entries, key) is Some,
    decreases entries.len(),
{
    if entries[0].0 != key {
        lemma_present(entries.drop_first(), key, i - 1);
    }
}

/// A map from names to values, in the order in which the names came.
#[derive(Debug)]
pub struct TextMap {
    entries: Vec<(String, String)>,
}

impl View for TextMap {
    type V = Seq<Pair>;

    closed spec fn view(&self) -> Seq<Pair> {
        Seq::new(self.entries@.len(), |i: int| (self.entries@[i].0@, self.entries@[i].1@))
    }
}

impl TextMap {
    pub fn new() -> (r: TextMap)
        ensures
            r@ == Seq::<Pair>::empty(),
    {
        let r = TextMap { entries: Vec::new() };
        assert(r@ =~= Seq::<Pair>::empty());
        r
    }

    pub fn len(&self) -> (r: usize)
        ensures
            r == self@.len(),
    {
        self.entries.len()
    }

    fn position(&self, key: &str) -> (r: usize)
        ensures
            r <= self@.len(),
            forall|j: int| 0 <= j < r ==> (#[trigger] self@[j]).0 != key@,
            r < self@.len() ==> self@[r as int].0 == key@,
    {
        let mut i: usize = 0;
        while i < self.entries.len()
            invariant
                i <= self.entries@.len(),
                forall|j: int| 0 <= j < i ==> (#[trigger] self@[j]).0 != key@,
            decreases self.entries@.len() - i,
        {
            if same_text(self.entries[i].0.as_str(), key) {
                return i;
            }
            i += 1;
        }
        i
    }

    pub fn get(&self, key: &str) -> (r: Option<&String>)
        ensures
            r is Some <==> lookup(self@, key@) is Some,
            r matches Some(v) ==> lookup(self@, key@) == Some(v@),
    {
        let i: usize = self.position(key);
        if i < self.entries.len() {
            proof {
                lemma_lookup(self@, key@, i as int);
            }
            Some(&self.entries[i].1)
        } else {
            proof {
                lemma_absent(self@, key@);
            }
            None
        }
    }

    pub fn contains_key(&self, key: &str) -> (r: bool)
        ensures
            r == has_key(self@, key@),
    {
        self.get(key).is_some()
    }

    pub fn insert(&mut self, key: String, value: String)
        ensures
            final(self)@ == put(old(self)@, key@, value@),
            distinct(old(self)@) ==> distinct(final(self)@),
    {
        let i: usize = self.position(key.as_str());
        let ghost k = key@;
        let ghost v = value@;
        let ghost before = self@;
        if i < self.entries.len() {
            proof {
                lemma_put_at(before, k, v, i as int);
            }
            self.entries.set(i, (key, value));
            assert(self@ =~= before.update(i as int, (k, v)));
        } else {
            proof {
                lemma_absent(before, k);
            }
            self.entries.push((key, value));
            assert(self@ =~= before.push((k, v)));
        }
        proof {
            lemma_put(before, k, v);
        }
    }

    /// Whether some name starts with `prefix`.
    pub fn any_key_starts(&self, prefix: &str) -> (r: bool)
        ensures
            r == has_key_prefix(self@, prefix@),
    {
        let mut i: usize = 0;
        while i < self.entries.len()
            invariant
                i <= self.entries@.len(),
                forall|j: int| 0 <= j < i ==> !text::has_prefix(#[trigger] self@[j].0, prefix@),
            decreases self.entries@.len() - i,
        {
            if starts_with(self.entries[i].0.as_str(), prefix) {
                assert(text::has_prefix(self@[i as int].0, prefix@));
                return true;
            }
            i += 1;
        }
        false
    }

    /// The name and the value of the entry at `i`.
    pub fn entry(&self, i: usize) -> (r: (&String, &String))
        requires
            i < self@.len(),
        ensures
            (r.0@, r.1@) == self@[i as int],
    {
        (&self.entries[i].0, &self.entries[i].1)
    }

    pub fn copy(&self) -> (r: TextMap)
        ensures
            r@ == self@,
    {
        let mut entries: Vec<(String, String)> = Vec::new();
        for i in 0..self.entries.len()
            invariant
                entries@.len() == i,
                forall|j: int|
                    0 <= j < i ==> (#[trigger] entries@[j]).0@ == self.entries@[j].0@ && entries@[j].1@
                        == self.entries@[j].1@,
        {
            entries.push((self.entries[i].0.clone(), self.entries[i].1.clone()));
        }
        let r = TextMap { entries };
        assert(r@ =~= self@);
        r
    }
}

#[derive(Debug)]
pub struct RequestCtx {
    pub request_id: String,
    pub client_ip: IpAddr,
    pub method: String,
    pub uri: String,
    pub path: String,
    pub query: String,
    pub host: String,
    pub user_agent: String,
    /// The protocol version, such as `HTTP/1.1` or `HTTP/2.0`.
    pub http_version: String,
    /// Lower-cased header names and their values.
    pub headers: TextMap,
    /// The header names in the order of arrival.
    pub header_order: Vec<String>,
    /// The cookie names in the order of arrival.
    pub cookie_order: Vec<String>,
    pub cookies: TextMap,
    /// The first part of the body, as far as it was buffered.
    pub body_preview: Vec<u8>,
    pub content_length: Option<u64>,
    /// ISO 3166-1 alpha-2, where a lookup of the address is configured.
    pub country: Option<String>,
    pub ja4h: String,
    pub ja3: String,
    pub ja4: String,
}

impl RequestCtx {
    /// The value of a header, whatever the case of its name.
    pub open spec fn header_value(self, name: Seq<char>) -> Option<Seq<char>> {
        lookup(self.headers@, text::lower_text(name))
    }

    pub fn header(&self, name: &str) -> (r: Option<&str>)
        ensures
            r is Some <==> self.header_value(name@) is Some,
            r matches Some(v) ==> self.header_value(name@) == Some(v@),
    {
        let key = to_lower(name);
        match self.headers.get(key.as_str()) {
            Some(v) => Some(v.as_str()),
            None => None,
        }
    }

    pub fn cookie(&self, name: &str) -> (r: Option<&str>)
        ensures
            r is Some <==> lookup(self.cookies@, name@) is Some,
            r matches Some(v) ==> lookup(self.cookies@, name@) == Some(v@),
    {
        match self.cookies.get(name) {
            Some(v) => Some(v.as_str()),
            None => None,
        }
    }
}

/// The name and the value in one part of a cookie header.
pub open spec fn cookie_part(part: Seq<char>) -> Option<Pair> {
    match text::cut_at(text::trimmed(part), '=') {
        Some((k, v)) => Some((text::trimmed(k), text::unquoted(text::trimmed(v)))),
        None => None,
    }
}

/// The cookies of the first parts of a cookie header; the last value of a name wins.
pub open spec fn cookies_of(parts: Seq<Seq<char>>) -> Seq<Pair>
    decreases parts.len(),
{
    if parts.len() == 0 {
        seq![]
    } else {
        match cookie_part(parts.last()) {
            Some((k, v)) => put(cookies_of(parts.drop_last()), k, v),
            None => cookies_of(parts.drop_last()),
        }
    }
}

/// The cookies of a cookie header by name; the last value of a name wins.
pub fn parse_cookie_header(header: &str) -> (r: TextMap)
    ensures
        r@ == cookies_of(text::pieces(header@, ';')),
        distinct(r@),
{
    let parts = split(header, ';');
    let ghost all = text::pieces(header@, ';');
    let mut out = TextMap::new();
    for i in 0..parts.len()
        invariant
            parts.deep_view() == all,
            out@ == cookies_of(all.take(i as int)),
            distinct(out@),
    {
        let part = trim(parts[i].as_str());
        assert(parts@[i as int]@ == all[i as int]);
        proof {
            assert(all.take(i + 1).drop_last() =~= all.take(i as int));
            assert(all.take(i + 1).last() == all[i as int]);
        }
        if let Some((k, v)) = split_once(part.as_str(), '=') {
            let name = trim(k.as_str());
            let value = unquote(trim(v.as_str()).as_str());
            out.insert(name, value);
        }
    }
    assert(all.take(all.len() as int) =~= all);
    out
}

/// Whether a character needs no care in a cookie.
pub open spec fn plain_char(c: char) -> bool {
    text::is_letter(c) || text::is_digit(c) || c == '-' || c == '_' || c == '.'
}

/// Whether a text needs no care in a cookie.
pub open spec fn plain_text(s: Seq<char>) -> bool {
    s.len() > 0 && forall|i: int| 0 <= i < s.len() ==> plain_char(#[trigger] s[i])
}

/// A name and a value as they stand in a cookie header.
pub open spec fn cookie_pair(name: Seq<char>, value: Seq<char>) -> Seq<char> {
    name + "="@ + value
}

proof fn lemma_plain_ends(s: Seq<char>)
    requires
        plain_text(s),
    ensures
        text::trimmed(s) == s,
        text::unquoted(s) == s,
{
    assert(plain_char(s[0]) && plain_char(s[s.len() - 1]));
    assert(s.first() == s[0] && s.last() == s[s.len() - 1]);
}

/// A plain name and a plain value are read back, whatever other cookies stand before them, with
/// or without the blank that browsers put between two cookies.
pub proof fn lemma_cookie_read_back(before: Seq<Seq<char>>, name: Seq<char>, value: Seq<char>)
    requires
        plain_text(name),
        plain_text(value),
    ensures
        cookie_part(cookie_pair(name, value)) == Some((name, value)),
        lookup(cookies_of(before.push(cookie_pair(name, value))), name) == Some(value),
        lookup(cookies_of(before.push(seq![' '] + cookie_pair(name, value))), name) == Some(value),
{
    reveal_strlit("=");
    let s = cookie_pair(name, value);
    lemma_plain_ends(name);
    lemma_plain_ends(value);
    assert(s[0] == name[0] && s[s.len() - 1] == value[value.len() - 1]);
    assert(plain_char(name[0]) && plain_char(value[value.len() - 1]));
    assert(s.first() == s[0] && s.last() == s[s.len() - 1]);
    assert(text::trimmed(s) == s);
    assert forall|j: int| 0 <= j < name.len() implies s[j] != '=' by {
        assert(s[j] == name[j] && plain_char(name[j]));
    }
    assert(s[name.len() as int] == '=');
    text::lemma_first_at(s, '=', name.len() as int);
    assert(s.take(name.len() as int) =~= name);
    assert(s.skip(name.len() as int + 1) =~= value);
    let spaced = seq![' '] + s;
    assert(spaced.drop_first() =~= s);
    assert(spaced.first() == ' ');
    assert(text::trimmed(spaced) == text::trimmed(s));
    let a = before.push(s);
    let b = before.push(spaced);
    assert(a.last() == s && a.drop_last() =~= before);
    assert(b.last() == spaced && b.drop_last() =~= before);
    lemma_put(cookies_of(before), name, value);
}

/// A header that holds one cookie is one piece.
pub proof fn lemma_one_cookie(name: Seq<char>, value: Seq<char>)
    requires
        plain_text(name),
        plain_text(value),
    ensures
        lookup(cookies_of(text::pieces(cookie_pair(name, value), ';')), name) == Some(value),
{
    reveal_strlit("=");
    let s = cookie_pair(name, value);
    assert forall|j: int| 0 <= j < s.len() implies s[j] != ';' by {
        if j < name.len() {
            assert(s[j] == name[j] && plain_char(name[j]));
        } else if j > name.len() {
            assert(s[j] == value[j - name.len() - 1] && plain_char(value[j - name.len() - 1]));
        }
    }
    text::lemma_first_at(s, ';', s.len() as int);
    let none: Seq<Seq<char>> = seq![];
    assert(text::pieces(s, ';') =~= none.push(s));
    lemma_cookie_read_back(none, name, value);
}

// ---------------------------------------------------------------------------
// Laws
// ---------------------------------------------------------------------------

/// A name is found exactly when some entry bears it, and its value is that of the first one.
pub proof fn lemma_lookup_exactly(entries: Seq<Pair>, key: Seq<char>)
    ensures
        lookup(entries, key) is Some <==> exists|i: int| 0 <= i < entries.len() && (#[trigger] entries[i]).0 == key,
        lookup(entries, key) matches Some(v) ==> exists|i: int|
            0 <= i < entries.len() && (#[trigger] entries[i]) == (key, v) && forall|j: int|
                0 <= j < i ==> (#[trigger] entries[j]).0 != key,
    decreases entries.len(),
{
    if entries.len() > 0 {
        let rest = entries.drop_first();
        lemma_lookup_exactly(rest, key);
        if entries[0].0 == key {
            assert(entries[0] == (key, entries[0].1));
        } else {
            if exists|i: int| 0 <= i < entries.len() && (#[trigger] entries[i]).0 == key {
                let i = choose|i: int| 0 <= i < entries.len() && (#[trigger] entries[i]).0 == key;
                assert(rest[i - 1].0 == key);
            }
            if let Some(v) = lookup(rest, key) {
                let i = choose|i: int|
                    0 <= i < rest.len() && (#[trigger] rest[i]) == (key, v) && forall|j: int|
                        0 <= j < i ==> (#[trigger] rest[j]).0 != key;
                assert(entries[i + 1] == (key, v));
                assert forall|j: int| 0 <= j < i + 1 implies (#[trigger] entries[j]).0 != key by {
                    if j > 0 {
                        assert(rest[j - 1] == entries[j]);
                    }
                }
            }
        }
    }
}

/// Of several cookies of one name the last one counts, and a part without an equals sign is no
/// cookie.
pub proof fn lemma_last_cookie_wins(parts: Seq<Seq<char>>, part: Seq<char>, name: Seq<char>)
    ensures
        cookie_part(part) matches Some((k, v)) ==> lookup(cookies_of(parts.push(part)), k) == Some(v),
        (cookie_part(part) matches Some((k, v)) ==> k != name) ==> lookup(cookies_of(parts.push(part)), name) == lookup(
            cookies_of(parts),
            name,
        ),
        !text::trimmed(part).contains('=') ==> cookies_of(parts.push(part)) == cookies_of(parts),
{
    assert(parts.push(part).drop_last() =~= parts);
    if let Some((k, v)) = cookie_part(part) {
        lemma_put(cookies_of(parts), k, v);
    }
    let t = text::trimmed(part);
    text::lemma_first_at_bounds(t, '=');
    if text::first_at(t, '=') < t.len() {
        assert(t[text::first_at(t, '=')] == '=');
    }
}

/// The header of a request is found whatever the case of the name that is asked for.
pub proof fn lemma_header_folds(ctx: RequestCtx, a: Seq<char>, b: Seq<char>)
    requires
        text::equal_fold(a, b),
    ensures
        ctx.header_value(a) == ctx.header_value(b),
{
}

/// A name begins with a prefix exactly when its first characters are that prefix.
pub proof fn lemma_key_prefix(entries: Seq<Pair>, prefix: Seq<char>)
    ensures
        has_key_prefix(entries, prefix) <==> exists|i: int|
            0 <= i < entries.len() && prefix.len() <= (#[trigger] entries[i]).0.len() && entries[i].0.take(
                prefix.len() as int,
            ) == prefix,
{
    if has_key_prefix(entries, prefix) {
        let i = choose|i: int| 0 <= i < entries.len() && text::has_prefix(#[trigger] entries[i].0, prefix);
        assert(prefix.len() <= entries[i].0.len() && entries[i].0.take(prefix.len() as int) == prefix);
    }
    if exists|i: int|
        0 <= i < entries.len() && prefix.len() <= (#[trigger] entries[i]).0.len() && entries[i].0.take(
            prefix.len() as int,
        ) == prefix {
        let i = choose|i: int|
            0 <= i < entries.len() && prefix.len() <= (#[trigger] entries[i]).0.len() && entries[i].0.take(
                prefix.len() as int,
            ) == prefix;
        assert(text::has_prefix(entries[i].0, prefix));
    }
}

/// A value in quotes is read without them.
pub proof fn lemma_quoted_cookie(name: Seq<char>, value: Seq<char>)
    requires
        plain_text(name),
        plain_text(value),
    ensures
        cookie_part(name + seq!['=', '"'] + value + seq!['"']) == Some((name, value)),
{
    let q: Seq<char> = seq!['"'];
    let v = q + value + q;
    let s = name + seq!['=', '"'] + value + seq!['"'];
    let none: Seq<char> = seq![];
    assert(s =~= name + seq!['='] + v);
    assert(plain_char(name[0]) && plain_char(value[0]) && plain_char(value[value.len() - 1]));
    assert(s[0] == name[0] && s[s.len() - 1] == '"');
    assert(none + s + none =~= s);
    text::lemma_trimmed(none, s, none);
    assert forall|j: int| 0 <= j < name.len() implies name[j] != '=' by {
        assert(plain_char(name[j]));
    }
    text::lemma_cut(name, '=', v);
    lemma_plain_ends(name);
    assert(none + v + none =~= v);
    assert(v[0] == '"' && v[v.len() - 1] == '"');
    text::lemma_trimmed(none, v, none);
    text::lemma_stripped(v, |c: char| text::is_quote(c), q, value, q);
}

} // verus!
