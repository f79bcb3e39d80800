//! Static allow and deny lists, and bans for addresses that trip rules again and again.

use crate::challenge;
use crate::clock::now_secs;
use crate::config::ReputationCfg;
use crate::net::{self, any_contains, parse_net, IpAddr, IpNet};
use crate::subnet;
use crate::table::{self, Key, Table};
use crate::text::cat3;
use vstd::prelude::*;

verus! {

#[derive(Debug, Clone, Copy, PartialEq, Eq, Structural)]
pub enum Reputation {
    Allow,
    Deny,
    Unknown,
}

/// What is kept of the offences of one address.
#[verifier::ext_equal]
#[derive(Debug, Clone, Copy)]
pub struct HitState {
    pub hits: u32,
    pub first_hit: u64,
    pub ban_until: u64,
}

impl View for HitState {
    type V = HitState;

    open spec fn view(&self) -> HitState {
        *self
    }
}

/// A ban, as it is stored between two runs.
#[derive(Debug, Clone, Copy, PartialEq, Eq, Structural)]
pub struct PersistedBan {
    pub ip: IpAddr,
    pub ban_until: u64,
    pub hits: u32,
}

/// A list holds what is not a network.
#[derive(Debug)]
pub struct ReputationError {
    pub message: String,
}

pub struct Reputations {
    allow: Vec<IpNet>,
    deny: Vec<IpNet>,
    auto_ban_threshold: u32,
    window_secs: u64,
    duration_secs: u64,
    state: Table<HitState>,
    unsaved: bool,
}

#[verifier::ext_equal]
pub struct RepView {
    pub allow: Seq<IpNet>,
    pub deny: Seq<IpNet>,
    pub threshold: u32,
    pub window: u64,
    pub duration: u64,
    pub state: Map<Key, HitState>,
    /// Whether a ban was imposed that was not stored yet.
    pub unsaved: bool,
}

impl View for Reputations {
    type V = RepView;

    closed spec fn view(&self) -> RepView {
        RepView {
            allow: self.allow@,
            deny: self.deny@,
            threshold: self.auto_ban_threshold,
            window: self.window_secs,
            duration: self.duration_secs,
            state: self.state@,
            unsaved: self.unsaved,
        }
    }
}

/// Whether every text of a list names a network.
pub open spec fn all_nets(list: Seq<Seq<char>>) -> bool {
    forall|i: int| 0 <= i < list.len() ==> net::parsed_net(#[trigger] list[i]) is Some
}

/// The networks that a list names.
pub open spec fn nets_of(list: Seq<Seq<char>>) -> Seq<IpNet> {
    Seq::new(list.len(), |i: int| net::parsed_net(list[i])->0)
}

/// The message for a text that names no network.
pub open spec fn net_fault(label: Seq<char>, s: Seq<char>) -> Seq<char> {
    label + " "@ + (s + ": invalid IP address syntax"@)
}

/// Whether a message is that for the first text of a list that names no network.
pub open spec fn first_fault(label: Seq<char>, list: Seq<Seq<char>>, message: Seq<char>) -> bool {
    exists|i: int|
        0 <= i < list.len() && all_nets(list.take(i)) && net::parsed_net(#[trigger] list[i]) is None && message
            == net_fault(label, list[i])
}

fn parse_nets(list: &Vec<String>, label: &str) -> (r: Result<Vec<IpNet>, ReputationError>)
    ensures
        r is Ok <==> all_nets(list.deep_view()),
        r matches Ok(nets) ==> nets@ == nets_of(list.deep_view()),
        r matches Err(e) ==> first_fault(label@, list.deep_view(), e.message@),
{
    let mut nets: Vec<IpNet> = Vec::new();
    let ghost all = list.deep_view();
    for i in 0..list.len()
        invariant
            all == list.deep_view(),
            nets@.len() == i,
            forall|j: int|
                0 <= j < i ==> net::parsed_net(#[trigger] all[j]) is Some && nets@[j] == net::parsed_net(all[j])->0,
    {
        assert(all[i as int] == list@[i as int]@);
        match parse_net(list[i].as_str()) {
            Ok(n) => {
                nets.push(n);
            },
            Err(e) => {
                assert(all_nets(all.take(i as int)));
                assert(net::parsed_net(all[i as int]) is None);
                return Err(ReputationError { message: cat3(label, " ", e.message.as_str()) });
            },
        }
    }
    assert(nets@ =~= nets_of(all));
    Ok(nets)
}

/// The state of an address.
pub open spec fn state_at(m: Map<Key, HitState>, k: Key) -> HitState {
    if m.contains_key(k) {
        m[k]
    } else {
        HitState { hits: 0, first_hit: 0, ban_until: 0 }
    }
}

pub open spec fn banned_in(m: Map<Key, HitState>, k: Key, now: u64) -> bool {
    state_at(m, k).ban_until > now
}

/// What is known of an address. The allow list goes before everything else.
pub open spec fn standing(v: RepView, now: u64, ip: IpAddr) -> Reputation {
    if net::any_covers(v.allow, ip) {
        Reputation::Allow
    } else if net::any_covers(v.deny, ip) || banned_in(v.state, ip.spec_key(), now) {
        Reputation::Deny
    } else {
        Reputation::Unknown
    }
}

pub open spec fn capped(a: u32, b: u32) -> u32 {
    if a + b > u32::MAX {
        u32::MAX
    } else {
        (a + b) as u32
    }
}

/// The state of an address with one more offence counted: a count that began before the window
/// starts anew.
pub open spec fn counted(s: HitState, now: u64, window: u64) -> HitState {
    if s.first_hit == 0 || subnet::since(now, s.first_hit) > window {
        HitState { hits: 1, first_hit: now, ..s }
    } else {
        HitState { hits: capped(s.hits, 1), ..s }
    }
}

/// Whether one more offence turns into a ban.
pub open spec fn now_banned(v: RepView, now: u64, ip: IpAddr) -> bool {
    let s = counted(state_at(v.state, ip.spec_key()), now, v.window);
    !net::any_covers(v.allow, ip) && s.hits >= v.threshold && s.ban_until <= now
}

/// The state after an offence of an address.
pub open spec fn after_offence(v: RepView, now: u64, ip: IpAddr) -> RepView {
    if net::any_covers(v.allow, ip) {
        v
    } else {
        let s = counted(state_at(v.state, ip.spec_key()), now, v.window);
        if now_banned(v, now, ip) {
            RepView {
                state: v.state.insert(
                    ip.spec_key(),
                    HitState { ban_until: challenge::later(now, v.duration), ..s },
                ),
                unsaved: true,
                ..v
            }
        } else {
            RepView { state: v.state.insert(ip.spec_key(), s), ..v }
        }
    }
}

/// The state after an address was banned outright for `secs`: a ban is never shortened.
pub open spec fn after_ban(v: RepView, now: u64, ip: IpAddr, secs: u64) -> RepView {
    if net::any_covers(v.allow, ip) {
        v
    } else {
        let s = state_at(v.state, ip.spec_key());
        let until = challenge::later(now, secs);
        RepView {
            state: v.state.insert(
                ip.spec_key(),
                HitState {
                    ban_until: if s.ban_until < until {
                        until
                    } else {
                        s.ban_until
                    },
                    hits: capped(s.hits, v.threshold),
                    ..s
                },
            ),
            unsaved: true,
            ..v
        }
    }
}

/// The state after the ban of an address was lifted, which has to be stored where the address is
/// known.
pub open spec fn after_unban(v: RepView, ip: IpAddr) -> RepView {
    let k = ip.spec_key();
    if v.state.contains_key(k) {
        RepView {
            state: v.state.insert(k, HitState { ban_until: 0, hits: 0, ..v.state[k] }),
            unsaved: true,
            ..v
        }
    } else {
        v
    }
}

/// Whether an entry is kept by a sweep: it is banned or had an offence lately.
pub open spec fn worth_keeping(s: HitState, now: u64, window: u64) -> bool {
    s.ban_until > now || subnet::since(now, s.first_hit) < window * 2
}

/// The state after the stored bans that still run were taken over, in their order.
pub open spec fn with_bans(m: Map<Key, HitState>, bans: Seq<PersistedBan>, now: u64) -> Map<Key, HitState>
    decreases bans.len(),
{
    if bans.len() == 0 {
        m
    } else {
        let b = bans.last();
        let before = with_bans(m, bans.drop_last(), now);
        if b.ban_until > now {
            before.insert(b.ip.spec_key(), HitState { hits: b.hits, first_hit: now, ban_until: b.ban_until })
        } else {
            before
        }
    }
}

/// Whether a list holds exactly the bans that run at `now`, each once.
pub open spec fn lists_bans(m: Map<Key, HitState>, list: Seq<PersistedBan>, now: u64) -> bool {
    &&& forall|i: int, j: int| 0 <= i < j < list.len() ==> list[i].ip != list[j].ip
    &&& forall|i: int|
        0 <= i < list.len() ==> banned_in(m, (#[trigger] list[i]).ip.spec_key(), now) && list[i].ban_until
            == m[list[i].ip.spec_key()].ban_until && list[i].hits == m[list[i].ip.spec_key()].hits
    &&& forall|ip: IpAddr|
        banned_in(m, #[trigger] ip.spec_key(), now) ==> exists|i: int| 0 <= i < list.len() && (#[trigger] list[i]).ip == ip
}

/// An address of the allow list is never banned, and every operation leaves it so.
pub proof fn lemma_allow_wins(v: RepView, now: u64, ip: IpAddr, secs: u64)
    requires
        net::any_covers(v.allow, ip),
    ensures
        standing(v, now, ip) == Reputation::Allow,
        after_offence(v, now, ip) == v,
        after_ban(v, now, ip, secs) == v,
        !now_banned(v, now, ip),
{
}

/// A ban that was just imposed holds until it ends and no longer.
pub proof fn lemma_ban_holds(v: RepView, now: u64, ip: IpAddr, later: u64)
    requires
        now_banned(v, now, ip),
    ensures
        banned_in(after_offence(v, now, ip).state, ip.spec_key(), later) <==> later < challenge::later(
            now,
            v.duration,
        ),
{
}

/// A forced ban of `secs` seconds holds at least so long.
pub proof fn lemma_forced_ban_holds(v: RepView, now: u64, ip: IpAddr, secs: u64, later: u64)
    requires
        !net::any_covers(v.allow, ip),
        later < challenge::later(now, secs),
    ensures
        banned_in(after_ban(v, now, ip, secs).state, ip.spec_key(), later),
        standing(after_ban(v, now, ip, secs), later, ip) == Reputation::Deny,
{
}

/// A lifted ban is gone at every time, unless a list says otherwise, and this has to be stored: no
/// stored list of bans names the address any more.
pub proof fn lemma_unban(v: RepView, ip: IpAddr, now: u64)
    ensures
        banned_in(v.state, ip.spec_key(), now) ==> after_unban(v, ip).unsaved,
        forall|list: Seq<PersistedBan>, i: int|
            #[trigger] lists_bans(after_unban(v, ip).state, list, now) && 0 <= i < list.len() ==> (
            #[trigger] list[i]).ip != ip,
        !banned_in(after_unban(v, ip).state, ip.spec_key(), now),
        !net::any_covers(v.allow, ip) && !net::any_covers(v.deny, ip) ==> standing(after_unban(v, ip), now, ip)
            == Reputation::Unknown,
{
}

/// The bans that were stored are in force after they are taken over: what a dump lists is banned
/// afterwards, until the same time.
pub proof fn lemma_bans_survive(m: Map<Key, HitState>, fresh: Map<Key, HitState>, list: Seq<PersistedBan>, now: u64, ip: IpAddr)
    requires
        lists_bans(m, list, now),
        banned_in(m, ip.spec_key(), now),
    ensures
        with_bans(fresh, list, now).contains_key(ip.spec_key()),
        with_bans(fresh, list, now)[ip.spec_key()].ban_until == m[ip.spec_key()].ban_until,
        with_bans(fresh, list, now)[ip.spec_key()].hits == m[ip.spec_key()].hits,
{
    let i = choose|i: int| 0 <= i < list.len() && (#[trigger] list[i]).ip == ip;
    lemma_taken_over(fresh, list, now, i, list.len() as int);
    assert(list.take(list.len() as int) =~= list);
}

proof fn lemma_taken_over(fresh: Map<Key, HitState>, list: Seq<PersistedBan>, now: u64, i: int, n: int)
    requires
        0 <= i < n <= list.len(),
        list[i].ban_until > now,
        forall|a: int, b: int| 0 <= a < b < list.len() ==> list[a].ip != list[b].ip,
    ensures
        with_bans(fresh, list.take(n), now).contains_key(list[i].ip.spec_key()),
        with_bans(fresh, list.take(n), now)[list[i].ip.spec_key()] == (HitState {
            hits: list[i].hits,
            first_hit: now,
            ban_until: list[i].ban_until,
        }),
    decreases n,
{
    assert(list.take(n).drop_last() =~= list.take(n - 1));
    assert(list.take(n).last() == list[n - 1]);
    if i < n - 1 {
        lemma_taken_over(fresh, list, now, i, n - 1);
        net::lemma_key_injective(list[i].ip, list[n - 1].ip);
    }
}

/// The bans under a list of keys that run at `now`.
pub open spec fn bans_in(keys: Seq<Key>, m: Map<Key, HitState>, now: u64) -> Seq<PersistedBan>
    decreases keys.len(),
{
    if keys.len() == 0 {
        seq![]
    } else {
        let k = keys.last();
        let before = bans_in(keys.drop_last(), m, now);
        if banned_in(m, k, now) {
            before.push(PersistedBan { ip: IpAddr::from_key(k), ban_until: m[k].ban_until, hits: m[k].hits })
        } else {
            before
        }
    }
}

proof fn lemma_bans_in(keys: Seq<Key>, m: Map<Key, HitState>, now: u64)
    requires
        keys.no_duplicates(),
        forall|k: Key| #[trigger] keys.contains(k) ==> m.contains_key(k) && IpAddr::from_key(k).spec_key() == k,
    ensures
        ({
            let r = bans_in(keys, m, now);
            &&& forall|i: int|
                0 <= i < r.len() ==> keys.contains((#[trigger] r[i]).ip.spec_key()) && banned_in(
                    m,
                    r[i].ip.spec_key(),
                    now,
                ) && r[i].ban_until == m[r[i].ip.spec_key()].ban_until && r[i].hits == m[r[i].ip.spec_key()].hits
            &&& forall|i: int, j: int| 0 <= i < j < r.len() ==> r[i].ip != r[j].ip
            &&& forall|k: Key| #[trigger]
                keys.contains(k) && banned_in(m, k, now) ==> exists|i: int|
                    0 <= i < r.len() && (#[trigger] r[i]).ip.spec_key() == k
        }),
    decreases keys.len(),
{
    if keys.len() > 0 {
        let rest = keys.drop_last();
        let k = keys.last();
        let before = bans_in(rest, m, now);
        let r = bans_in(keys, m, now);
        assert(keys.contains(k));
        assert forall|j: Key| #[trigger] rest.contains(j) implies keys.contains(j) && j != k by {
            let i = choose|i: int| 0 <= i < rest.len() && rest[i] == j;
            assert(keys[i] == j);
        }
        lemma_bans_in(rest, m, now);
        assert forall|i: int| 0 <= i < r.len() implies keys.contains((#[trigger] r[i]).ip.spec_key()) && banned_in(
            m,
            r[i].ip.spec_key(),
            now,
        ) && r[i].ban_until == m[r[i].ip.spec_key()].ban_until && r[i].hits == m[r[i].ip.spec_key()].hits by {
            if i < before.len() {
                assert(r[i] == before[i]);
                assert(rest.contains(before[i].ip.spec_key()));
            }
        }
        assert forall|i: int, j: int| 0 <= i < j < r.len() implies r[i].ip != r[j].ip by {
            assert(r[i] == before[i]);
            if j < before.len() {
                assert(r[j] == before[j]);
            } else {
                assert(rest.contains(before[i].ip.spec_key()));
            }
        }
        assert forall|j: Key| #[trigger] keys.contains(j) && banned_in(m, j, now) implies exists|i: int|
            0 <= i < r.len() && (#[trigger] r[i]).ip.spec_key() == j by {
            if j == k {
                assert(r[before.len() as int].ip.spec_key() == j);
            } else {
                let n = choose|n: int| 0 <= n < keys.len() && keys[n] == j;
                assert(rest[n] == j);
                assert(rest.contains(j));
                let i = choose|i: int| 0 <= i < before.len() && (#[trigger] before[i]).ip.spec_key() == j;
                assert(r[i] == before[i]);
            }
        }
    }
}

fn keep(s: &HitState, limits: (u64, u64)) -> (r: bool)
    ensures
        r == worth_keeping(*s, limits.0, limits.1),
{
    s.ban_until > limits.0 || (limits.0.saturating_sub(s.first_hit) as u128) < limits.1 as u128 * 2
}

impl Reputations {
    /// Every entry belongs to an address.
    pub closed spec fn wf(&self) -> bool {
        &&& self.state.wf()
        &&& forall|k: Key| #[trigger] self.state@.contains_key(k) ==> IpAddr::from_key(k).spec_key() == k
    }

    /// The lists and bounds of a configuration. It fails where a list holds what is no network.
    pub fn new(cfg: &ReputationCfg) -> (r: Result<Reputations, ReputationError>)
        ensures
            r is Ok <==> all_nets(cfg.allow_cidrs.deep_view()) && all_nets(cfg.deny_cidrs.deep_view()),
            r matches Ok(x) ==> x.wf() && x@ == (RepView {
                allow: nets_of(cfg.allow_cidrs.deep_view()),
                deny: nets_of(cfg.deny_cidrs.deep_view()),
                threshold: cfg.auto_ban_threshold_hits,
                window: cfg.auto_ban_window_secs,
                duration: cfg.auto_ban_duration_secs,
                state: Map::empty(),
                unsaved: false,
            }),
            r matches Err(e) ==> if all_nets(cfg.allow_cidrs.deep_view()) {
                first_fault("deny"@, cfg.deny_cidrs.deep_view(), e.message@)
            } else {
                first_fault("allow"@, cfg.allow_cidrs.deep_view(), e.message@)
            },
    {
        let allow = match parse_nets(&cfg.allow_cidrs, "allow") {
            Ok(nets) => nets,
            Err(e) => {
                return Err(e);
            },
        };
        let deny = match parse_nets(&cfg.deny_cidrs, "deny") {
            Ok(nets) => nets,
            Err(e) => {
                return Err(e);
            },
        };
        Ok(
            Reputations {
                allow,
                deny,
                auto_ban_threshold: cfg.auto_ban_threshold_hits,
                window_secs: cfg.auto_ban_window_secs,
                duration_secs: cfg.auto_ban_duration_secs,
                state: Table::new(),
                unsaved: false,
            },
        )
    }

    /// Takes over, at a given time, the stored bans that still run.
    pub fn load_bans_at(&mut self, now: u64, bans: &Vec<PersistedBan>)
        requires
            old(self).wf(),
        ensures
            final(self).wf(),
            final(self)@ == (RepView { state: with_bans(old(self)@.state, bans@, now), ..old(self)@ }),
    {
        for i in 0..bans.len()
            invariant
                self.wf(),
                self@ == (RepView { state: with_bans(old(self)@.state, bans@.take(i as int), now), ..old(self)@ }),
        {
            proof {
                assert(bans@.take(i + 1).drop_last() =~= bans@.take(i as int));
                assert(bans@.take(i + 1).last() == bans@[i as int]);
            }
            let b = &bans[i];
            if b.ban_until > now {
                self.state.put(b.ip.key(), HitState { hits: b.hits, first_hit: now, ban_until: b.ban_until });
            }
        }
        assert(bans@.take(bans@.len() as int) =~= bans@);
    }

    /// The bans that run at a given time, for storing.
    pub fn dump_at(&self, now: u64) -> (r: Vec<PersistedBan>)
        requires
            self.wf(),
        ensures
            lists_bans(self@.state, r@, now),
    {
        let keys = self.state.keys();
        let ghost m = self.state@;
        let mut out: Vec<PersistedBan> = Vec::new();
        assert(out@ =~= bans_in(keys@.take(0), m, now));
        for i in 0..keys.len()
            invariant
                self.wf(),
                m == self.state@,
                forall|k: Key| #[trigger] keys@.contains(k) <==> m.contains_key(k),
                out@ == bans_in(keys@.take(i as int), m, now),
        {
            let k = keys[i];
            proof {
                assert(keys@.contains(k));
                assert(keys@.take(i + 1).drop_last() =~= keys@.take(i as int));
                assert(keys@.take(i + 1).last() == k);
            }
            if let Some(s) = self.state.get(k) {
                if s.ban_until > now {
                    out.push(PersistedBan { ip: IpAddr::of_key(k), ban_until: s.ban_until, hits: s.hits });
                }
            }
        }
        proof {
            assert(keys@.take(keys@.len() as int) =~= keys@);
            assert forall|k: Key| #[trigger] keys@.contains(k) implies m.contains_key(k) && IpAddr::from_key(
                k,
            ).spec_key() == k by {
                assert(m.contains_key(k));
            }
            lemma_bans_in(keys@, m, now);
            assert forall|ip: IpAddr| banned_in(m, #[trigger] ip.spec_key(), now) implies exists|i: int|
                0 <= i < out@.len() && (#[trigger] out@[i]).ip == ip by {
                assert(keys@.contains(ip.spec_key()));
                let i = choose|i: int| 0 <= i < out@.len() && (#[trigger] out@[i]).ip.spec_key() == ip.spec_key();
                net::lemma_key_injective(out@[i].ip, ip);
            }
        }
        out
    }

    pub fn classify_at(&self, now: u64, ip: IpAddr) -> (r: Reputation)
        requires
            self.wf(),
        ensures
            r == standing(self@, now, ip),
    {
        if any_contains(&self.allow, ip) {
            return Reputation::Allow;
        }
        if any_contains(&self.deny, ip) || self.is_banned_at(now, ip) {
            return Reputation::Deny;
        }
        Reputation::Unknown
    }

    pub fn classify(&self, ip: IpAddr) -> (r: Reputation)
        requires
            self.wf(),
        ensures
            exists|now: u64| r == #[trigger] standing(self@, now, ip),
    {
        self.classify_at(now_secs(), ip)
    }

    pub fn is_banned_at(&self, now: u64, ip: IpAddr) -> (r: bool)
        requires
            self.wf(),
        ensures
            r == banned_in(self@.state, ip.spec_key(), now),
    {
        match self.state.get(ip.key()) {
            Some(s) => s.ban_until > now,
            None => false,
        }
    }

    pub fn is_banned(&self, ip: IpAddr) -> (r: bool)
        requires
            self.wf(),
        ensures
            exists|now: u64| r == #[trigger] banned_in(self@.state, ip.spec_key(), now),
    {
        self.is_banned_at(now_secs(), ip)
    }

    fn state_of(&self, ip: IpAddr) -> (r: HitState)
        requires
            self.wf(),
        ensures
            r == state_at(self@.state, ip.spec_key()),
    {
        match self.state.get(ip.key()) {
            Some(s) => *s,
            None => HitState { hits: 0, first_hit: 0, ban_until: 0 },
        }
    }

    /// Records one offence at a given time and returns whether the address is banned by it.
    pub fn record_offence_at(&mut self, now: u64, ip: IpAddr) -> (r: bool)
        requires
            old(self).wf(),
        ensures
            final(self).wf(),
            final(self)@ == after_offence(old(self)@, now, ip),
            r == now_banned(old(self)@, now, ip),
    {
        if any_contains(&self.allow, ip) {
            return false;
        }
        let mut s = self.state_of(ip);
        if s.first_hit == 0 || now.saturating_sub(s.first_hit) > self.window_secs {
            s.first_hit = now;
            s.hits = 0;
        }
        s.hits = s.hits.saturating_add(1);
        let banned = s.hits >= self.auto_ban_threshold && s.ban_until <= now;
        if banned {
            s.ban_until = now.saturating_add(self.duration_secs);
            self.unsaved = true;
        }
        self.state.put(ip.key(), s);
        assert(self@ =~= after_offence(old(self)@, now, ip));
        banned
    }

    /// Records one offence and returns whether the address is banned by it.
    pub fn record_offence(&mut self, ip: IpAddr) -> (r: bool)
        requires
            old(self).wf(),
        ensures
            final(self).wf(),
            exists|now: u64|
                final(self)@ == #[trigger] after_offence(old(self)@, now, ip) && r == now_banned(old(self)@, now, ip),
    {
        self.record_offence_at(now_secs(), ip)
    }

    /// Bans an address at a given time for one offence. An address of the allow list is spared.
    pub fn force_ban_at(&mut self, now: u64, ip: IpAddr, secs: u64) -> (r: bool)
        requires
            old(self).wf(),
        ensures
            final(self).wf(),
            final(self)@ == after_ban(old(self)@, now, ip, secs),
            r == !net::any_covers(old(self)@.allow, ip),
    {
        if any_contains(&self.allow, ip) {
            return false;
        }
        let mut s = self.state_of(ip);
        let until: u64 = now.saturating_add(secs);
        if s.ban_until < until {
            s.ban_until = until;
        }
        s.hits = s.hits.saturating_add(self.auto_ban_threshold);
        self.state.put(ip.key(), s);
        self.unsaved = true;
        assert(self@ =~= after_ban(old(self)@, now, ip, secs));
        true
    }

    /// Bans an address for one offence. An address of the allow list is spared.
    pub fn force_ban(&mut self, ip: IpAddr, secs: u64) -> (r: bool)
        requires
            old(self).wf(),
        ensures
            final(self).wf(),
            exists|now: u64| final(self)@ == #[trigger] after_ban(old(self)@, now, ip, secs),
            r == !net::any_covers(old(self)@.allow, ip),
    {
        self.force_ban_at(now_secs(), ip, secs)
    }

    pub fn unban(&mut self, ip: IpAddr)
        requires
            old(self).wf(),
        ensures
            final(self).wf(),
            final(self)@ == after_unban(old(self)@, ip),
    {
        let k = ip.key();
        let first_hit: u64 = match self.state.get(k) {
            Some(s) => s.first_hit,
            None => {
                return;
            },
        };
        self.state.put(k, HitState { hits: 0, first_hit, ban_until: 0 });
        self.unsaved = true;
        assert(self@ =~= after_unban(old(self)@, ip));
    }

    /// Drops, at a given time, the entries that are neither banned nor recent.
    pub fn gc_at(&mut self, now: u64)
        requires
            old(self).wf(),
        ensures
            final(self).wf(),
            final(self)@ == (RepView {
                state: worth_part(old(self)@.state, now, old(self)@.window),
                ..old(self)@
            }),
    {
        let window: u64 = self.window_secs;
        self.state.retain((now, window), keep, Ghost(|s: HitState| worth_keeping(s, now, window)));
    }

    /// Drops the entries that are neither banned nor recent.
    pub fn gc(&mut self)
        requires
            old(self).wf(),
        ensures
            final(self).wf(),
            exists|now: u64|
                final(self)@ == (RepView {
                    state: #[trigger] worth_part(old(self)@.state, now, old(self)@.window),
                    ..old(self)@
                }),
    {
        self.gc_at(now_secs());
    }

    /// The banned addresses at a given time, with the seconds that are left of the bans.
    pub fn banned_at(&self, now: u64) -> (r: Vec<(IpAddr, u64)>)
        requires
            self.wf(),
        ensures
            exists|list: Seq<PersistedBan>| #[trigger]
                lists_bans(self@.state, list, now) && r@ == remaining(list, now),
    {
        let list = self.dump_at(now);
        let mut out: Vec<(IpAddr, u64)> = Vec::new();
        for i in 0..list.len()
            invariant
                lists_bans(self@.state, list@, now),
                out@.len() == i,
                forall|j: int|
                    0 <= j < i ==> #[trigger] out@[j] == (list@[j].ip, (list@[j].ban_until - now) as u64),
        {
            let b = &list[i];
            out.push((b.ip, b.ban_until - now));
        }
        assert(out@ =~= remaining(list@, now));
        out
    }

    /// The banned addresses, with the seconds that are left of the bans.
    pub fn banned(&self) -> (r: Vec<(IpAddr, u64)>)
        requires
            self.wf(),
        ensures
            exists|now: u64, list: Seq<PersistedBan>| #[trigger]
                lists_bans(self@.state, list, now) && r@ == remaining(list, now),
    {
        self.banned_at(now_secs())
    }

    /// Whether a ban was imposed since the last call that has to be stored.
    pub fn take_unsaved(&mut self) -> (r: bool)
        requires
            old(self).wf(),
        ensures
            final(self).wf(),
            r == old(self)@.unsaved,
            final(self)@ == (RepView { unsaved: false, ..old(self)@ }),
    {
        let r = self.unsaved;
        self.unsaved = false;
        r
    }
}

/// The entries that a sweep at `now` keeps.
pub open spec fn worth_part(m: Map<Key, HitState>, now: u64, window: u64) -> Map<Key, HitState> {
    table::kept(m, |s: HitState| worth_keeping(s, now, window))
}

/// The addresses of a list of bans, with the seconds that are left at `now`.
pub open spec fn remaining(list: Seq<PersistedBan>, now: u64) -> Seq<(IpAddr, u64)> {
    Seq::new(list.len(), |i: int| (list[i].ip, (list[i].ban_until - now) as u64))
}

// ---------------------------------------------------------------------------
// Laws
// ---------------------------------------------------------------------------

/// An address is let through exactly when an allow list covers it, and denied exactly when none
/// does and it is on the deny list or under a ban that has not ended.
pub proof fn lemma_standing_exactly(v: RepView, now: u64, ip: IpAddr)
    ensures
        ({
            let until = if v.state.contains_key(ip.spec_key()) {
                v.state[ip.spec_key()].ban_until
            } else {
                0
            };
            let allowed = net::any_covers(v.allow, ip);
            &&& standing(v, now, ip) == Reputation::Allow <==> allowed
            &&& standing(v, now, ip) == Reputation::Deny <==> !allowed && (net::any_covers(v.deny, ip) || now < until)
        }),
{
}

/// The state after offences of one address at given times, in their order.
pub open spec fn after_offences(v: RepView, times: Seq<u64>, ip: IpAddr) -> RepView
    decreases times.len(),
{
    if times.len() == 0 {
        v
    } else {
        after_offence(after_offences(v, times.drop_last(), ip), times.last(), ip)
    }
}

/// Offences within one window add up: an address that was unknown is banned after the last of them
/// exactly when there were as many as the threshold.
pub proof fn lemma_offences_add_up(v: RepView, times: Seq<u64>, ip: IpAddr)
    requires
        !net::any_covers(v.allow, ip),
        !v.state.contains_key(ip.spec_key()),
        0 < times.len() < u32::MAX,
        times[0] > 0,
        forall|i: int|
            0 <= i < times.len() ==> times[0] <= #[trigger] times[i] < u64::MAX && times[i] - times[0] <= v.window,
        v.duration > 0,
        v.threshold > 0,
    ensures
        ({
            let w = after_offences(v, times, ip);
            &&& banned_in(w.state, ip.spec_key(), times.last()) <==> times.len() >= v.threshold
            &&& times.len() < v.threshold ==> state_at(w.state, ip.spec_key()).ban_until == 0
            &&& times.len() >= v.threshold ==> w.unsaved
            &&& state_at(w.state, ip.spec_key()).hits == times.len()
        }),
{
    lemma_offences(v, times, ip);
}

proof fn lemma_offences(v: RepView, times: Seq<u64>, ip: IpAddr)
    requires
        !net::any_covers(v.allow, ip),
        !v.state.contains_key(ip.spec_key()),
        0 < times.len() < u32::MAX,
        times[0] > 0,
        forall|i: int|
            0 <= i < times.len() ==> times[0] <= #[trigger] times[i] < u64::MAX && times[i] - times[0] <= v.window,
        v.duration > 0,
        v.threshold > 0,
    ensures
        ({
            let w = after_offences(v, times, ip);
            let s = state_at(w.state, ip.spec_key());
            &&& s.hits == times.len()
            &&& s.first_hit == times[0]
            &&& times.len() < v.threshold ==> s.ban_until == 0
            &&& times.len() >= v.threshold ==> s.ban_until > times.last() && w.unsaved
            &&& w.allow == v.allow
            &&& w.threshold == v.threshold
            &&& w.window == v.window
            &&& w.duration == v.duration
        }),
    decreases times.len(),
{
    let rest = times.drop_last();
    let n = times.len() - 1;
    assert(times.last() == times[n]);
    if times.len() == 1 {
        assert(after_offences(v, rest, ip) == v);
    } else {
        assert forall|i: int| 0 <= i < rest.len() implies rest[0] <= #[trigger] rest[i] < u64::MAX && rest[i] - rest[0]
            <= v.window by {
            assert(rest[i] == times[i]);
        }
        lemma_offences(v, rest, ip);
    }
}

/// A count that began before the window starts anew.
pub proof fn lemma_old_offences_forgotten(v: RepView, now: u64, ip: IpAddr)
    requires
        !net::any_covers(v.allow, ip),
        v.state.contains_key(ip.spec_key()),
        now - v.state[ip.spec_key()].first_hit > v.window,
    ensures
        after_offence(v, now, ip).state[ip.spec_key()].hits == 1,
        after_offence(v, now, ip).state[ip.spec_key()].first_hit == now,
        v.threshold > 1 ==> after_offence(v, now, ip).state[ip.spec_key()].ban_until
            == v.state[ip.spec_key()].ban_until,
{
}

/// What one address does changes nothing for another.
pub proof fn lemma_addresses_apart(v: RepView, now: u64, secs: u64, ip: IpAddr, other: IpAddr)
    requires
        ip != other,
    ensures
        state_at(after_offence(v, now, ip).state, other.spec_key()) == state_at(v.state, other.spec_key()),
        state_at(after_ban(v, now, ip, secs).state, other.spec_key()) == state_at(v.state, other.spec_key()),
        state_at(after_unban(v, ip).state, other.spec_key()) == state_at(v.state, other.spec_key()),
{
    net::lemma_key_injective(ip, other);
}

/// A forced ban ends at its own time or at that of a longer ban before it, and has to be stored.
pub proof fn lemma_ban_never_shortened(v: RepView, now: u64, ip: IpAddr, secs: u64)
    requires
        !net::any_covers(v.allow, ip),
        now + secs <= u64::MAX,
    ensures
        ({
            let before = state_at(v.state, ip.spec_key());
            let after = state_at(after_ban(v, now, ip, secs).state, ip.spec_key());
            &&& after.ban_until >= before.ban_until
            &&& after.ban_until >= now + secs
            &&& after.ban_until == before.ban_until || after.ban_until == now + secs
            &&& after_ban(v, now, ip, secs).unsaved
            &&& after.hits >= v.threshold
        }),
{
}

/// The sweep forgets no ban that still runs and no offence of the last two windows.
pub proof fn lemma_sweep_keeps(m: Map<Key, HitState>, now: u64, window: u64, k: Key)
    ensures
        banned_in(worth_part(m, now, window), k, now) <==> banned_in(m, k, now),
        worth_part(m, now, window).contains_key(k) ==> worth_part(m, now, window)[k] == m[k],
        m.contains_key(k) && (m[k].ban_until > now || now - m[k].first_hit < 2 * window && window > 0)
            ==> worth_part(m, now, window).contains_key(k),
        m.contains_key(k) && m[k].ban_until <= now && now - m[k].first_hit >= 2 * window && now >= m[k].first_hit
            ==> !worth_part(m, now, window).contains_key(k),
{
}

/// A lifted ban is forgiven with the offences that led to it, and the next offence starts from there.
pub proof fn lemma_unban_forgives(v: RepView, ip: IpAddr, now: u64)
    requires
        v.state.contains_key(ip.spec_key()),
        !net::any_covers(v.allow, ip),
    ensures
        after_unban(v, ip).state[ip.spec_key()].hits == 0,
        after_unban(v, ip).state[ip.spec_key()].ban_until == 0,
        after_unban(v, ip).unsaved,
        v.threshold > 1 ==> !banned_in(after_offence(after_unban(v, ip), now, ip).state, ip.spec_key(), now),
{
}

/// An address that was never seen has nothing to be forgiven.
pub proof fn lemma_unban_stranger(v: RepView, ip: IpAddr)
    requires
        !v.state.contains_key(ip.spec_key()),
    ensures
        after_unban(v, ip) == v,
{
}

} // verus!
