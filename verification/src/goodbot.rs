//! Verified search engines and link previews.
//!
//! A client that claims to be a known bot is looked up: the name of its address has to end with
//! a suffix of the vendor, and that name has to lead back to the address. While a lookup runs
//! the claim is neither believed nor held against the client.

use crate::challenge;
use crate::clock::now_secs;
use crate::decision::{self, reason, DecisionReason, ReasonView};
use crate::net::{self, IpAddr};
use crate::sort::{self, sort_falling};
use crate::table::{Key, Table};
use crate::text::{self, cat2, cat3, contains, copy_opt, ends_with, same_text, split, to_lower};
use vstd::prelude::*;

verus! {

pub const POSITIVE_TTL_SECS: u64 = 3600;

pub const NEGATIVE_TTL_SECS: u64 = 300;

pub const PENDING_TTL_SECS: u64 = 30;

pub const W_GOODBOT_SPOOF: u32 = 60;

/// How many entries a snapshot lists.
pub const SNAPSHOT_MAX: usize = 200;

/// The number of known bots.
pub const BOT_COUNT: usize = 19;

/// A word in the User-Agent, the suffixes of the vendor's names with blanks between them, and
/// the name of the bot. The first match counts.
pub const KNOWN_BOTS: [(&'static str, &'static str, &'static str); 19] = [
    ("googlebot", ".googlebot.com .google.com", "Googlebot"),
    ("google-inspectiontool", ".google.com", "Google InspectionTool"),
    ("adsbot-google", ".googlebot.com .google.com", "AdsBot-Google"),
    ("apis-google", ".google.com", "APIs-Google"),
    ("googleother", ".googlebot.com .google.com", "GoogleOther"),
    ("mediapartners-google", ".google.com", "Mediapartners"),
    ("bingbot", ".search.msn.com", "Bingbot"),
    ("adidxbot", ".search.msn.com", "AdIdxBot"),
    ("msnbot", ".search.msn.com", "MSNBot"),
    ("duckduckbot", ".duckduckgo.com", "DuckDuckBot"),
    ("yandexbot", ".yandex.com .yandex.net .yandex.ru", "YandexBot"),
    ("yandeximages", ".yandex.com .yandex.net .yandex.ru", "YandexImages"),
    ("baiduspider", ".baidu.com .baidu.jp", "Baiduspider"),
    ("applebot", ".applebot.apple.com .apple.com", "Applebot"),
    ("facebookexternalhit", ".facebook.com .fbsv.net", "FacebookBot"),
    ("meta-externalagent", ".facebook.com .fbsv.net", "MetaBot"),
    ("linkedinbot", ".linkedin.com", "LinkedInBot"),
    ("twitterbot", ".twttr.com .twitter.com", "Twitterbot"),
    ("discordbot", ".discordapp.com .discord.com", "Discordbot"),
];

/// What a lookup has brought so far.
#[derive(Debug, Clone, Copy)]
pub enum State {
    Pending,
    Verified(&'static str),
    Rejected,
}

#[verifier::ext_equal]
pub enum StateView {
    Pending,
    Verified(Seq<char>),
    Rejected,
}

impl View for State {
    type V = StateView;

    open spec fn view(&self) -> StateView {
        match self {
            State::Pending => StateView::Pending,
            State::Verified(name) => StateView::Verified(name@),
            State::Rejected => StateView::Rejected,
        }
    }
}

pub struct CacheEntry {
    state: State,
    expires_at: u64,
    ptr: Option<String>,
}

#[verifier::ext_equal]
pub struct EntryView {
    pub state: StateView,
    pub expires_at: u64,
    /// The name of the address that was found.
    pub ptr: Option<Seq<char>>,
}

impl View for CacheEntry {
    type V = EntryView;

    closed spec fn view(&self) -> EntryView {
        EntryView { state: self.state@, expires_at: self.expires_at, ptr: self.ptr.deep_view() }
    }
}

#[derive(Debug, Clone, Copy)]
pub enum Verdict {
    /// The User-Agent claims no known bot.
    NotABot,
    /// The claim was confirmed.
    GoodBotVerified(&'static str),
    /// The claim is being looked up.
    GoodBotPending,
    /// The claim was refuted.
    GoodBotSpoofed(&'static str),
}

#[verifier::ext_equal]
pub enum VerdictView {
    NotABot,
    GoodBotVerified(Seq<char>),
    GoodBotPending,
    GoodBotSpoofed(Seq<char>),
}

impl View for Verdict {
    type V = VerdictView;

    open spec fn view(&self) -> VerdictView {
        match self {
            Verdict::NotABot => VerdictView::NotABot,
            Verdict::GoodBotVerified(name) => VerdictView::GoodBotVerified(name@),
            Verdict::GoodBotPending => VerdictView::GoodBotPending,
            Verdict::GoodBotSpoofed(name) => VerdictView::GoodBotSpoofed(name@),
        }
    }
}

/// A lookup that has to be made: an address, and the number of the bot that it claims to be.
#[derive(Debug, Clone, Copy, PartialEq, Eq, Structural)]
pub struct Lookup {
    pub ip: IpAddr,
    pub bot: usize,
}

pub struct GoodBotVerifier {
    cache: Table<CacheEntry>,
    waiting: Vec<Lookup>,
}

#[verifier::ext_equal]
pub struct BotsView {
    pub cache: Map<Key, EntryView>,
    /// The lookups that were not handed out yet.
    pub waiting: Seq<Lookup>,
}

impl View for GoodBotVerifier {
    type V = BotsView;

    closed spec fn view(&self) -> BotsView {
        BotsView { cache: self.cache@, waiting: self.waiting@ }
    }
}

/// The first known bot from `i` on whose word a lower-case User-Agent holds.
pub open spec fn bot_from(low: Seq<char>, i: int) -> int
    decreases BOT_COUNT - i,
{
    if i >= BOT_COUNT || text::has_text(low, KNOWN_BOTS@[i].0@) {
        i
    } else {
        bot_from(low, i + 1)
    }
}

/// The number of the bot that a User-Agent claims, or the number of known bots.
pub open spec fn claimed_bot(ua: Seq<char>) -> int {
    bot_from(text::lower_text(ua), 0)
}

/// The answer for a claim, where one is known at `now`.
pub open spec fn known_answer(v: BotsView, now: u64, ip: IpAddr, bot: int) -> Option<VerdictView> {
    let k = ip.spec_key();
    if v.cache.contains_key(k) && v.cache[k].expires_at > now {
        Some(
            match v.cache[k].state {
                StateView::Verified(name) => VerdictView::GoodBotVerified(name),
                StateView::Rejected => VerdictView::GoodBotSpoofed(KNOWN_BOTS@[bot].2@),
                StateView::Pending => VerdictView::GoodBotPending,
            },
        )
    } else {
        None
    }
}

/// The answer for a request at `now`.
pub open spec fn verdict_for(v: BotsView, now: u64, ip: IpAddr, ua: Seq<char>) -> VerdictView {
    let bot = claimed_bot(ua);
    if bot >= BOT_COUNT {
        VerdictView::NotABot
    } else {
        match known_answer(v, now, ip, bot) {
            Some(a) => a,
            None => VerdictView::GoodBotPending,
        }
    }
}

/// The state after a request at `now`: an unanswered claim is noted as pending and queued.
pub open spec fn after_claim(v: BotsView, now: u64, ip: IpAddr, ua: Seq<char>) -> BotsView {
    let bot = claimed_bot(ua);
    if bot >= BOT_COUNT || known_answer(v, now, ip, bot) is Some {
        v
    } else {
        BotsView {
            cache: v.cache.insert(
                ip.spec_key(),
                EntryView {
                    state: StateView::Pending,
                    expires_at: challenge::later(now, PENDING_TTL_SECS),
                    ptr: None,
                },
            ),
            waiting: v.waiting.push(Lookup { ip, bot: bot as usize }),
        }
    }
}

/// While a lookup is pending, no request of the same address starts another one.
pub proof fn lemma_one_lookup(v: BotsView, now: u64, ip: IpAddr, ua: Seq<char>, soon: u64, other_ua: Seq<char>)
    requires
        after_claim(v, now, ip, ua) != v,
        soon < challenge::later(now, PENDING_TTL_SECS),
    ensures
        after_claim(after_claim(v, now, ip, ua), soon, ip, other_ua) == after_claim(v, now, ip, ua),
{
}

/// A User-Agent without one of the known words is answered without a lookup.
pub proof fn lemma_plain_client(v: BotsView, now: u64, ip: IpAddr, ua: Seq<char>)
    requires
        claimed_bot(ua) >= BOT_COUNT,
    ensures
        verdict_for(v, now, ip, ua) == VerdictView::NotABot,
        after_claim(v, now, ip, ua) == v,
{
}

/// Whether a name ends with one of the suffixes of a bot's vendor.
pub open spec fn vendor_name(bot: int, ptr: Seq<char>) -> bool {
    exists|i: int|
        0 <= i < text::pieces(KNOWN_BOTS@[bot].1@, ' ').len() && text::has_suffix(
            ptr,
            #[trigger] text::pieces(KNOWN_BOTS@[bot].1@, ' ')[i],
        )
}

/// What a lookup shows: whether it confirms the claim, and the name that was found. `ptr` is the
/// name of the address, `resolved` are the addresses of that name, as far as they were found.
pub open spec fn lookup_result(
    l: Lookup,
    ptr: Option<Seq<char>>,
    resolved: Option<Seq<IpAddr>>,
) -> (bool, Seq<char>) {
    match ptr {
        None => (false, seq![]),
        Some(p) => (
            vendor_name(l.bot as int, text::lower_text(p)) && resolved is Some && resolved->0.contains(l.ip),
            text::lower_text(p),
        ),
    }
}

/// The view of what a lookup brought.
pub open spec fn outcome_view(outcome: Option<(bool, String)>) -> Option<(bool, Seq<char>)> {
    match outcome {
        Some((ok, ptr)) => Some((ok, ptr@)),
        None => None,
    }
}

/// The entry that the end of a lookup leaves; `None` stands for a lookup that broke off.
pub open spec fn finished_entry(now: u64, l: Lookup, outcome: Option<(bool, Seq<char>)>) -> EntryView {
    match outcome {
        Some((true, ptr)) => EntryView {
            state: StateView::Verified(KNOWN_BOTS@[l.bot as int].2@),
            expires_at: challenge::later(now, POSITIVE_TTL_SECS),
            ptr: Some(ptr),
        },
        Some((false, ptr)) => EntryView {
            state: StateView::Rejected,
            expires_at: challenge::later(now, NEGATIVE_TTL_SECS),
            ptr: if ptr.len() == 0 {
                None
            } else {
                Some(ptr)
            },
        },
        None => EntryView {
            state: StateView::Rejected,
            expires_at: challenge::later(now, NEGATIVE_TTL_SECS),
            ptr: None,
        },
    }
}

pub open spec fn after_lookup(v: BotsView, now: u64, l: Lookup, outcome: Option<(bool, Seq<char>)>) -> BotsView {
    BotsView { cache: v.cache.insert(l.ip.spec_key(), finished_entry(now, l, outcome)), ..v }
}

/// A claim is believed after a lookup exactly when name and address confirm each other.
pub proof fn lemma_believed(
    v: BotsView,
    now: u64,
    l: Lookup,
    ptr: Option<Seq<char>>,
    resolved: Option<Seq<IpAddr>>,
    ua: Seq<char>,
)
    requires
        claimed_bot(ua) == l.bot,
        l.bot < BOT_COUNT,
        now < u64::MAX,
    ensures
        verdict_for(after_lookup(v, now, l, Some(lookup_result(l, ptr, resolved))), now, l.ip, ua) == (if ptr is Some
            && vendor_name(l.bot as int, text::lower_text(ptr->0)) && resolved is Some && resolved->0.contains(l.ip) {
            VerdictView::GoodBotVerified(KNOWN_BOTS@[l.bot as int].2@)
        } else {
            VerdictView::GoodBotSpoofed(KNOWN_BOTS@[l.bot as int].2@)
        }),
{
}

#[derive(Debug)]
pub struct VerifyEntry {
    pub ip: String,
    pub state: String,
    pub ptr: Option<String>,
    pub ttl: u64,
}

#[verifier::ext_equal]
pub struct VerifyView {
    pub ip: Seq<char>,
    pub state: Seq<char>,
    pub ptr: Option<Seq<char>>,
    pub ttl: u64,
}

impl View for VerifyEntry {
    type V = VerifyView;

    open spec fn view(&self) -> VerifyView {
        VerifyView { ip: self.ip@, state: self.state@, ptr: self.ptr.deep_view(), ttl: self.ttl }
    }
}

pub open spec fn state_text(s: StateView) -> Seq<char> {
    match s {
        StateView::Verified(name) => "verified · "@ + name,
        StateView::Rejected => "spoofed"@,
        StateView::Pending => "pending"@,
    }
}

/// How an entry is shown at `now`.
pub open spec fn shown(m: Map<Key, EntryView>, k: Key, now: u64) -> VerifyView {
    VerifyView {
        ip: net::ip_text(IpAddr::from_key(k)),
        state: state_text(m[k].state),
        ptr: m[k].ptr,
        ttl: (m[k].expires_at - now) as u64,
    }
}

pub open spec fn live(m: Map<Key, EntryView>, k: Key, now: u64) -> bool {
    m.contains_key(k) && m[k].expires_at > now
}

/// Whether a list holds the live entries, each once with its remaining time, the longest first.
pub open spec fn ranks(m: Map<Key, EntryView>, list: Seq<(Key, u64)>, now: u64) -> bool {
    &&& sort::falling(list)
    &&& list.no_duplicates()
    &&& forall|i: int|
        0 <= i < list.len() ==> live(m, (#[trigger] list[i]).0, now) && list[i].1 == m[list[i].0].expires_at - now
    &&& forall|k: Key| #[trigger]
        live(m, k, now) ==> list.contains((k, (m[k].expires_at - now) as u64))
}

/// The first entries of a ranked list, as they are shown.
pub open spec fn shown_list(m: Map<Key, EntryView>, list: Seq<(Key, u64)>, now: u64) -> Seq<VerifyView> {
    Seq::new(
        if list.len() < SNAPSHOT_MAX {
            list.len()
        } else {
            SNAPSHOT_MAX as nat
        },
        |i: int| shown(m, list[i].0, now),
    )
}

pub open spec fn entry_views(list: Seq<VerifyEntry>) -> Seq<VerifyView> {
    Seq::new(list.len(), |i: int| list[i]@)
}

/// The live entries under a list of keys, with their remaining time.
pub open spec fn live_in(keys: Seq<Key>, m: Map<Key, EntryView>, now: u64) -> Seq<(Key, u64)>
    decreases keys.len(),
{
    if keys.len() == 0 {
        seq![]
    } else {
        let k = keys.last();
        let before = live_in(keys.drop_last(), m, now);
        if live(m, k, now) {
            before.push((k, (m[k].expires_at - now) as u64))
        } else {
            before
        }
    }
}

proof fn lemma_live_in(keys: Seq<Key>, m: Map<Key, EntryView>, now: u64)
    requires
        keys.no_duplicates(),
    ensures
        ({
            let r = live_in(keys, m, now);
            &&& r.no_duplicates()
            &&& forall|i: int|
                0 <= i < r.len() ==> keys.contains((#[trigger] r[i]).0) && live(m, r[i].0, now) && r[i].1
                    == m[r[i].0].expires_at - now
            &&& forall|k: Key| #[trigger]
                keys.contains(k) && live(m, k, now) ==> r.contains((k, (m[k].expires_at - now) as u64))
        }),
    decreases keys.len(),
{
    if keys.len() > 0 {
        let rest = keys.drop_last();
        let k = keys.last();
        lemma_live_in(rest, m, now);
        let before = live_in(rest, m, now);
        let r = live_in(keys, m, now);
        assert forall|j: Key| #[trigger] rest.contains(j) implies keys.contains(j) && j != k by {
            let i = choose|i: int| 0 <= i < rest.len() && rest[i] == j;
            assert(keys[i] == j);
        }
        assert(keys.contains(k));
        assert forall|i: int| 0 <= i < r.len() implies keys.contains((#[trigger] r[i]).0) && live(m, r[i].0, now)
            && r[i].1 == m[r[i].0].expires_at - now by {
            if i < before.len() {
                assert(r[i] == before[i]);
                assert(rest.contains(before[i].0));
            }
        }
        assert(r.no_duplicates()) by {
            assert forall|i: int, j: int| 0 <= i < r.len() && 0 <= j < r.len() && i != j implies r[i] != r[j] by {
                if i < before.len() {
                    assert(rest.contains(before[i].0));
                }
                if j < before.len() {
                    assert(rest.contains(before[j].0));
                }
            }
        }
        assert forall|j: Key| #[trigger] keys.contains(j) && live(m, j, now) implies r.contains(
            (j, (m[j].expires_at - now) as u64),
        ) by {
            let item = (j, (m[j].expires_at - now) as u64);
            if j == k {
                assert(r[before.len() as int] == item);
            } else {
                let n = choose|n: int| 0 <= n < keys.len() && keys[n] == j;
                assert(rest[n] == j);
                assert(rest.contains(j));
                let i = choose|i: int| 0 <= i < before.len() && before[i] == item;
                assert(r[i] == item);
            }
        }
    }
}

/// The reason for a refuted claim.
pub open spec fn spoof_view(name: Seq<char>) -> ReasonView {
    decision::reason_of(
        "GOODBOT-SPOOF"@,
        "bot"@,
        W_GOODBOT_SPOOF,
        "UA claims "@ + name + " but reverse-DNS contradicted it"@,
    )
}

pub fn spoof_reason(name: &str) -> (r: DecisionReason)
    ensures
        r@ == spoof_view(name@),
{
    reason("GOODBOT-SPOOF", "bot", W_GOODBOT_SPOOF, cat3("UA claims ", name, " but reverse-DNS contradicted it"))
}

/// The number of the bot that a User-Agent claims, or the number of known bots.
pub fn find_bot(ua: &str) -> (r: usize)
    ensures
        r == claimed_bot(ua@),
        r <= BOT_COUNT,
{
    let low = to_lower(ua);
    let bots = KNOWN_BOTS;
    let mut i: usize = 0;
    while i < BOT_COUNT
        invariant
            i <= BOT_COUNT,
            bots@ == KNOWN_BOTS@,
            bots@.len() == BOT_COUNT,
            low@ == text::lower_text(ua@),
            bot_from(low@, i as int) == bot_from(low@, 0),
        decreases BOT_COUNT - i,
    {
        if contains(low.as_str(), bots[i].0) {
            return i;
        }
        i += 1;
    }
    i
}

/// Whether a lower-case name ends with one of the suffixes of a bot's vendor, so that it is
/// worth looking up where the name leads.
pub fn is_vendor_name(bot: usize, ptr: &str) -> (r: bool)
    requires
        bot < BOT_COUNT,
    ensures
        r == vendor_name(bot as int, ptr@),
{
    let bots = KNOWN_BOTS;
    let suffixes = split(bots[bot].1, ' ');
    let ghost all = text::pieces(KNOWN_BOTS@[bot as int].1@, ' ');
    let mut i: usize = 0;
    while i < suffixes.len()
        invariant
            i <= suffixes@.len(),
            suffixes.deep_view() == all,
            all == text::pieces(KNOWN_BOTS@[bot as int].1@, ' '),
            forall|j: int| 0 <= j < i ==> !text::has_suffix(ptr@, #[trigger] all[j]),
        decreases suffixes@.len() - i,
    {
        assert(all[i as int] == suffixes@[i as int]@);
        if ends_with(ptr, suffixes[i].as_str()) {
            return true;
        }
        i += 1;
    }
    false
}

fn lists(list: &Vec<IpAddr>, ip: IpAddr) -> (r: bool)
    ensures
        r == list@.contains(ip),
{
    let mut i: usize = 0;
    while i < list.len()
        invariant
            i <= list@.len(),
            forall|j: int| 0 <= j < i ==> list@[j] != ip,
        decreases list@.len() - i,
    {
        if list[i] == ip {
            return true;
        }
        i += 1;
    }
    false
}

/// What a lookup shows, out of what the resolver answered.
pub fn judge_lookup(l: Lookup, ptr: Option<String>, resolved: Option<Vec<IpAddr>>) -> (r: (bool, String))
    requires
        l.bot < BOT_COUNT,
    ensures
        (r.0, r.1@) == lookup_result(
            l,
            ptr.deep_view(),
            match resolved {
                Some(list) => Some(list@),
                None => None,
            },
        ),
{
    match ptr {
        None => {
            let empty = String::new();
            assert(empty@ =~= seq![]);
            (false, empty)
        },
        Some(p) => {
            let name = to_lower(p.as_str());
            if !is_vendor_name(l.bot, name.as_str()) {
                return (false, name);
            }
            match resolved {
                None => (false, name),
                Some(list) => (lists(&list, l.ip), name),
            }
        },
    }
}

impl Default for GoodBotVerifier {
    fn default() -> (r: GoodBotVerifier)
        ensures
            r.wf(),
            r@ == (BotsView { cache: Map::empty(), waiting: seq![] }),
    {
        GoodBotVerifier::new()
    }
}

impl GoodBotVerifier {
    /// The queued lookups are of known bots.
    pub closed spec fn wf(&self) -> bool {
        &&& self.cache.wf()
        &&& forall|i: int| 0 <= i < self.waiting@.len() ==> (#[trigger] self.waiting@[i]).bot < BOT_COUNT
    }

    pub fn new() -> (r: GoodBotVerifier)
        ensures
            r.wf(),
            r@ == (BotsView { cache: Map::empty(), waiting: seq![] }),
    {
        let r = GoodBotVerifier { cache: Table::new(), waiting: Vec::new() };
        assert(r@.waiting =~= seq![]);
        r
    }

    /// Answers for a request at a given time, and queues the lookup that an open claim needs.
    pub fn classify_at(&mut self, now: u64, ip: IpAddr, ua: &str) -> (r: Verdict)
        requires
            old(self).wf(),
        ensures
            final(self).wf(),
            final(self)@ == after_claim(old(self)@, now, ip, ua@),
            r@ == verdict_for(old(self)@, now, ip, ua@),
    {
        let bot: usize = find_bot(ua);
        if bot >= BOT_COUNT {
            return Verdict::NotABot;
        }
        let bots = KNOWN_BOTS;
        let key = ip.key();
        if let Some(e) = self.cache.get(key) {
            if e.expires_at > now {
                return match e.state {
                    State::Verified(name) => Verdict::GoodBotVerified(name),
                    State::Rejected => Verdict::GoodBotSpoofed(bots[bot].2),
                    State::Pending => Verdict::GoodBotPending,
                };
            }
        }
        self.cache.put(
            key,
            CacheEntry { state: State::Pending, expires_at: now.saturating_add(PENDING_TTL_SECS), ptr: None },
        );
        self.waiting.push(Lookup { ip, bot });
        assert(self@ =~= after_claim(old(self)@, now, ip, ua@));
        Verdict::GoodBotPending
    }

    /// Answers for a request, and queues the lookup that an open claim needs.
    pub fn classify(&mut self, ip: IpAddr, ua: &str) -> (r: Verdict)
        requires
            old(self).wf(),
        ensures
            final(self).wf(),
            exists|now: u64|
                final(self)@ == #[trigger] after_claim(old(self)@, now, ip, ua@) && r@ == verdict_for(
                    old(self)@,
                    now,
                    ip,
                    ua@,
                ),
    {
        self.classify_at(now_secs(), ip, ua)
    }

    /// Hands out the queued lookups.
    pub fn take_lookups(&mut self) -> (r: Vec<Lookup>)
        requires
            old(self).wf(),
        ensures
            final(self).wf(),
            r@ == old(self)@.waiting,
            final(self)@ == (BotsView { waiting: seq![], ..old(self)@ }),
            forall|i: int| 0 <= i < r@.len() ==> (#[trigger] r@[i]).bot < BOT_COUNT,
    {
        let mut out: Vec<Lookup> = Vec::new();
        std::mem::swap(&mut out, &mut self.waiting);
        assert(self@.waiting =~= seq![]);
        out
    }

    /// Notes at a given time what a lookup has shown; `None` stands for one that broke off.
    pub fn complete_at(&mut self, now: u64, l: Lookup, outcome: Option<(bool, String)>)
        requires
            old(self).wf(),
            l.bot < BOT_COUNT,
        ensures
            final(self).wf(),
            final(self)@ == after_lookup(
                old(self)@,
                now,
                l,
                outcome_view(outcome),
            ),
    {
        let bots = KNOWN_BOTS;
        let ghost view = outcome_view(outcome);
        let entry = match outcome {
            Some((true, ptr)) => CacheEntry {
                state: State::Verified(bots[l.bot].2),
                expires_at: now.saturating_add(POSITIVE_TTL_SECS),
                ptr: Some(ptr),
            },
            Some((false, ptr)) => {
                proof {
                    reveal_strlit("");
                    assert(ptr@.len() == 0 ==> ptr@ =~= ""@);
                }
                CacheEntry {
                    state: State::Rejected,
                    expires_at: now.saturating_add(NEGATIVE_TTL_SECS),
                    ptr: if same_text(ptr.as_str(), "") {
                        None
                    } else {
                        Some(ptr)
                    },
                }
            },
            None => CacheEntry {
                state: State::Rejected,
                expires_at: now.saturating_add(NEGATIVE_TTL_SECS),
                ptr: None,
            },
        };
        assert(entry@ =~= finished_entry(now, l, view));
        self.cache.put(l.ip.key(), entry);
        assert(self@ =~= after_lookup(old(self)@, now, l, view));
    }

    /// Notes what a lookup has shown; `None` stands for one that broke off.
    pub fn complete(&mut self, l: Lookup, outcome: Option<(bool, String)>)
        requires
            old(self).wf(),
            l.bot < BOT_COUNT,
        ensures
            final(self).wf(),
            exists|now: u64|
                final(self)@ == #[trigger] after_lookup(
                    old(self)@,
                    now,
                    l,
                    outcome_view(outcome),
                ),
    {
        self.complete_at(now_secs(), l, outcome)
    }

    /// The live entries at a given time for display, those with the longest time left first.
    pub fn snapshot_at(&self, now: u64) -> (r: Vec<VerifyEntry>)
        requires
            self.wf(),
        ensures
            exists|list: Seq<(Key, u64)>| #[trigger]
                ranks(self@.cache, list, now) && entry_views(r@) == shown_list(self@.cache, list, now),
    {
        let keys = self.cache.keys();
        let ghost m = self.cache@;
        let mut pairs: Vec<(Key, u64)> = Vec::new();
        assert(pairs@ =~= live_in(keys@.take(0), m, now));
        for i in 0..keys.len()
            invariant
                self.wf(),
                m == self.cache@,
                pairs@ == live_in(keys@.take(i as int), m, now),
        {
            let k = keys[i];
            proof {
                assert(keys@.take(i + 1).drop_last() =~= keys@.take(i as int));
                assert(keys@.take(i + 1).last() == k);
            }
            if let Some(e) = self.cache.get(k) {
                if e.expires_at > now {
                    pairs.push((k, e.expires_at - now));
                }
            }
        }
        proof {
            assert(keys@.take(keys@.len() as int) =~= keys@);
            lemma_live_in(keys@, m, now);
        }
        let ghost all = pairs@;
        let list = sort_falling(pairs);
        proof {
            assert forall|i: int| 0 <= i < list@.len() implies live(m, (#[trigger] list@[i]).0, now) && list@[i].1
                == m[list@[i].0].expires_at - now by {
                assert(list@.contains(list@[i]));
                assert(all.contains(list@[i]));
                let j = choose|j: int| 0 <= j < all.len() && all[j] == list@[i];
                assert(live(m, all[j].0, now));
            }
            assert forall|k: Key| #[trigger] live(m, k, now) implies list@.contains(
                (k, (m[k].expires_at - now) as u64),
            ) by {
                assert(keys@.contains(k));
                assert(all.contains((k, (m[k].expires_at - now) as u64)));
            }
            assert(ranks(m, list@, now));
        }
        let n: usize = if list.len() < SNAPSHOT_MAX {
            list.len()
        } else {
            SNAPSHOT_MAX
        };
        let mut out: Vec<VerifyEntry> = Vec::new();
        for i in 0..n
            invariant
                self.wf(),
                m == self.cache@,
                n <= list@.len(),
                ranks(m, list@, now),
                out@.len() == i,
                forall|j: int| 0 <= j < i ==> (#[trigger] out@[j])@ == shown(m, list@[j].0, now),
        {
            let (k, ttl) = list[i];
            assert(live(m, list@[i as int].0, now));
            if let Some(e) = self.cache.get(k) {
                let state = match e.state {
                    State::Verified(name) => cat2("verified · ", name),
                    State::Rejected => "spoofed".to_string(),
                    State::Pending => "pending".to_string(),
                };
                let entry = VerifyEntry {
                    ip: IpAddr::of_key(k).to_text(),
                    state,
                    ptr: copy_opt(&e.ptr),
                    ttl,
                };
                assert(entry@ =~= shown(m, k, now));
                out.push(entry);
            }
        }
        assert(entry_views(out@) =~= shown_list(m, list@, now));
        assert(ranks(self@.cache, list@, now));
        out
    }

    /// The live entries for display, those with the longest time left first.
    pub fn snapshot(&self) -> (r: Vec<VerifyEntry>)
        requires
            self.wf(),
        ensures
            exists|now: u64, list: Seq<(Key, u64)>| #[trigger]
                ranks(self@.cache, list, now) && entry_views(r@) == shown_list(self@.cache, list, now),
    {
        self.snapshot_at(now_secs())
    }
}

// ---------------------------------------------------------------------------
// Laws
// ---------------------------------------------------------------------------

/// The bot that a User-Agent claims is the first of the known ones whose word it holds.
pub proof fn lemma_first_claim(ua: Seq<char>)
    ensures
        0 <= claimed_bot(ua) <= 19,
        claimed_bot(ua) < 19 ==> text::has_text(text::lower_text(ua), KNOWN_BOTS@[claimed_bot(ua)].0@),
        forall|j: int| 0 <= j < claimed_bot(ua) ==> !text::has_text(text::lower_text(ua), (#[trigger] KNOWN_BOTS@[j]).0@),
{
    lemma_bot_from(text::lower_text(ua), 0);
}

proof fn lemma_bot_from(low: Seq<char>, i: int)
    requires
        0 <= i <= 19,
    ensures
        i <= bot_from(low, i) <= 19,
        bot_from(low, i) < 19 ==> text::has_text(low, KNOWN_BOTS@[bot_from(low, i)].0@),
        forall|j: int| i <= j < bot_from(low, i) ==> !text::has_text(low, (#[trigger] KNOWN_BOTS@[j]).0@),
    decreases 19 - i,
{
    if i < 19 && !text::has_text(low, KNOWN_BOTS@[i].0@) {
        lemma_bot_from(low, i + 1);
    }
}

/// A claim is answered by what the latest lookup left, as long as that is not expired, and is
/// pending otherwise.
pub proof fn lemma_answers_exactly(v: BotsView, now: u64, ip: IpAddr, ua: Seq<char>)
    requires
        claimed_bot(ua) < 19,
    ensures
        ({
            let k = ip.spec_key();
            let r = verdict_for(v, now, ip, ua);
            let known = v.cache.contains_key(k) && now < v.cache[k].expires_at;
            &&& r is GoodBotVerified <==> known && v.cache[k].state is Verified
            &&& r is GoodBotSpoofed <==> known && v.cache[k].state is Rejected
            &&& r is GoodBotPending <==> !known || v.cache[k].state is Pending
            &&& known ==> after_claim(v, now, ip, ua) == v
            &&& !known ==> after_claim(v, now, ip, ua).waiting == v.waiting.push(
                Lookup { ip, bot: claimed_bot(ua) as usize },
            )
        }),
{
    lemma_first_claim(ua);
}

/// A confirmed claim is believed for an hour, a refuted one held against the client for five
/// minutes, and an open one waits thirty seconds before it is looked up again.
pub proof fn lemma_lifetimes(v: BotsView, now: u64, l: Lookup, ptr: Seq<char>, ua: Seq<char>, at: u64)
    requires
        claimed_bot(ua) == l.bot,
        l.bot < 19,
        now <= at,
        now + 3600 <= u64::MAX,
    ensures
        verdict_for(after_lookup(v, now, l, Some((true, ptr))), at, l.ip, ua) is GoodBotVerified <==> at < now + 3600,
        verdict_for(after_lookup(v, now, l, Some((false, ptr))), at, l.ip, ua) is GoodBotSpoofed <==> at < now + 300,
        verdict_for(after_lookup(v, now, l, None), at, l.ip, ua) is GoodBotSpoofed <==> at < now + 300,
        after_claim(v, now, l.ip, ua) != v ==> (after_claim(after_claim(v, now, l.ip, ua), at, l.ip, ua) == after_claim(
            v,
            now,
            l.ip,
            ua,
        ) <==> at < now + 30),
{
    let w = after_claim(v, now, l.ip, ua);
    if w != v && at >= now + 30 {
        assert(after_claim(w, at, l.ip, ua).waiting.len() == w.waiting.len() + 1);
    }
}

/// A lookup for one address answers for no other.
pub proof fn lemma_lookups_apart(
    v: BotsView,
    now: u64,
    l: Lookup,
    outcome: Option<(bool, Seq<char>)>,
    other: IpAddr,
    ua: Seq<char>,
)
    requires
        other != l.ip,
    ensures
        verdict_for(after_lookup(v, now, l, outcome), now, other, ua) == verdict_for(v, now, other, ua),
{
    net::lemma_key_injective(l.ip, other);
}

/// The reason that a refuted claim gives.
pub proof fn lemma_spoof_weighs(name: Seq<char>)
    ensures
        spoof_view(name).rule_id == "GOODBOT-SPOOF"@,
        spoof_view(name).score == 60,
{
}

/// A list of what is known shows two hundred entries at most, each of them not expired, the one that
/// stays longest first.
pub proof fn lemma_list_shown(m: Map<Key, EntryView>, list: Seq<(Key, u64)>, now: u64)
    requires
        ranks(m, list, now),
    ensures
        ({
            let shown = shown_list(m, list, now);
            &&& shown.len() <= 200
            &&& list.len() <= 200 ==> shown.len() == list.len()
            &&& forall|i: int| 0 <= i < shown.len() ==> (#[trigger] shown[i]).ttl > 0
            &&& forall|i: int, j: int| 0 <= i < j < shown.len() ==> (#[trigger] shown[i]).ttl >= (#[trigger] shown[j]).ttl
        }),
{
    let shown = shown_list(m, list, now);
    assert forall|i: int| 0 <= i < shown.len() implies (#[trigger] shown[i]).ttl == list[i].1 && list[i].1 > 0 by {
        assert(live(m, list[i].0, now));
    }
    assert forall|i: int, j: int| 0 <= i < j < shown.len() implies (#[trigger] shown[i]).ttl >= (#[trigger] shown[j]).ttl by {
        assert(list[i].1 >= list[j].1);
    }
}

/// A name belongs to the vendor of a bot exactly when it ends with one of the vendor's suffixes.
pub proof fn lemma_vendor_suffix(bot: int, front: Seq<char>, i: int, name: Seq<char>)
    requires
        0 <= bot < 19,
        0 <= i < text::pieces(KNOWN_BOTS@[bot].1@, ' ').len(),
    ensures
        vendor_name(bot, front + text::pieces(KNOWN_BOTS@[bot].1@, ' ')[i]),
        vendor_name(bot, name) ==> exists|j: int|
            0 <= j < text::pieces(KNOWN_BOTS@[bot].1@, ' ').len() && name.len() >= (#[trigger] text::pieces(
                KNOWN_BOTS@[bot].1@,
                ' ',
            )[j]).len() && name.skip(name.len() - text::pieces(KNOWN_BOTS@[bot].1@, ' ')[j].len()) == text::pieces(
                KNOWN_BOTS@[bot].1@,
                ' ',
            )[j],
{
    let list = text::pieces(KNOWN_BOTS@[bot].1@, ' ');
    text::lemma_has_text(front, list[i], seq![], seq![]);
    assert(text::has_suffix(front + list[i], list[i]));
    if vendor_name(bot, name) {
        let j = choose|j: int| 0 <= j < list.len() && text::has_suffix(name, #[trigger] list[j]);
        assert(name.skip(name.len() - list[j].len()) == list[j]);
    }
}

} // verus!
