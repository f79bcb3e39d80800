//! The persistent event store, as far as it needs no disk: what is queued for it, when the
//! writer writes, and how rows become a chart.

use crate::decision::Action;
use crate::events::{self, Event, EventView};
use crate::reputation;
use crate::text::same_text;
use vstd::prelude::*;

verus! {

pub const FLUSH_EVERY_MS: u64 = 1_000;

pub const FLUSH_BATCH: usize = 512;

pub const MAX_QUEUE: u64 = 16_384;

pub const RETENTION_SECS: u64 = 900;

/// How long events are kept.
pub const KEEP_MS: i64 = 86_400_000;

/// How many events a query returns at most.
pub const QUERY_MAX: usize = 5000;

#[derive(Debug, Clone, Copy, PartialEq, Eq, Structural)]
pub struct StorageStats {
    pub written: u64,
    pub dropped: u64,
}

/// The queue in front of the writer. A full queue drops new events and counts them, so that a
/// slow disk never holds up a request.
pub struct Sink {
    outbox: Vec<Event>,
    stats: StorageStats,
    queued: u64,
    drained: u64,
}

#[verifier::ext_equal]
pub struct SinkView {
    /// The events that were not handed to the writer yet.
    pub outbox: Seq<EventView>,
    pub written: u64,
    pub dropped: u64,
    pub queued: u64,
    pub drained: u64,
}

impl View for Sink {
    type V = SinkView;

    closed spec fn view(&self) -> SinkView {
        SinkView {
            outbox: events::event_views(self.outbox@),
            written: self.stats.written,
            dropped: self.stats.dropped,
            queued: self.queued,
            drained: self.drained,
        }
    }
}

/// Whether more events wait than are allowed to.
pub open spec fn overloaded(s: SinkView) -> bool {
    s.queued > s.drained && s.queued - s.drained > MAX_QUEUE
}

/// The queue after an event was submitted.
pub open spec fn submitted(s: SinkView, e: EventView) -> SinkView {
    if overloaded(s) {
        SinkView { dropped: s.dropped.wrapping_add(1), ..s }
    } else {
        SinkView { queued: s.queued.wrapping_add(1), outbox: s.outbox.push(e), ..s }
    }
}

/// An event is either queued or counted as dropped, never lost in silence.
pub proof fn lemma_accounted(s: SinkView, e: EventView)
    requires
        s.queued < u64::MAX,
        s.dropped < u64::MAX,
    ensures
        ({
            let t = submitted(s, e);
            ||| t.outbox == s.outbox.push(e) && t.queued == s.queued + 1 && t.dropped == s.dropped
            ||| t.outbox == s.outbox && t.queued == s.queued && t.dropped == s.dropped + 1 && overloaded(s)
        }),
{
}

/// The queue after the writer has stored `n` events.
pub open spec fn flushed(s: SinkView, n: u64) -> SinkView {
    SinkView { written: s.written.wrapping_add(n), drained: s.drained.wrapping_add(n), ..s }
}

/// The queue after an event was lost on its way to the writer.
pub open spec fn lost(s: SinkView) -> SinkView {
    SinkView { dropped: s.dropped.wrapping_add(1), ..s }
}

impl Sink {
    pub fn new() -> (r: Sink)
        ensures
            r@ == (SinkView { outbox: seq![], written: 0, dropped: 0, queued: 0, drained: 0 }),
    {
        let r = Sink {
            outbox: Vec::new(),
            stats: StorageStats { written: 0, dropped: 0 },
            queued: 0,
            drained: 0,
        };
        assert(r@.outbox =~= seq![]);
        r
    }

    /// Queues an event, or drops it where too many wait.
    pub fn submit(&mut self, ev: Event)
        ensures
            final(self)@ == submitted(old(self)@, ev@),
    {
        if self.queued.saturating_sub(self.drained) > MAX_QUEUE {
            self.stats.dropped = self.stats.dropped.wrapping_add(1);
            return;
        }
        self.queued = self.queued.wrapping_add(1);
        let ghost e = ev@;
        self.outbox.push(ev);
        assert(self@.outbox =~= old(self)@.outbox.push(e));
    }

    pub fn stats(&self) -> (r: &StorageStats)
        ensures
            r.written == self@.written,
            r.dropped == self@.dropped,
    {
        &self.stats
    }

    /// Hands the queued events to the writer.
    pub fn take_outbox(&mut self) -> (r: Vec<Event>)
        ensures
            events::event_views(r@) == old(self)@.outbox,
            final(self)@ == (SinkView { outbox: seq![], ..old(self)@ }),
    {
        let mut out: Vec<Event> = Vec::new();
        std::mem::swap(&mut out, &mut self.outbox);
        assert(self@.outbox =~= seq![]);
        out
    }

    /// Notes that the writer has stored `n` events.
    pub fn note_flushed(&mut self, n: u64)
        ensures
            final(self)@ == flushed(old(self)@, n),
    {
        self.stats.written = self.stats.written.wrapping_add(n);
        self.drained = self.drained.wrapping_add(n);
    }

    /// Notes that an event could not be handed to the writer.
    pub fn note_lost(&mut self)
        ensures
            final(self)@ == lost(old(self)@),
    {
        self.stats.dropped = self.stats.dropped.wrapping_add(1);
    }
}

/// The name under which an action is stored.
pub open spec fn action_text(a: Action) -> Seq<char> {
    match a {
        Action::Allow => "allow"@,
        Action::Challenge => "challenge"@,
        Action::Block => "block"@,
        Action::Tarpit => "tarpit"@,
    }
}

pub fn action_name(a: Action) -> (r: &'static str)
    ensures
        r@ == action_text(a),
{
    match a {
        Action::Allow => "allow",
        Action::Challenge => "challenge",
        Action::Block => "block",
        Action::Tarpit => "tarpit",
    }
}

/// The decisions of one second.
#[derive(Debug, Clone, Copy, PartialEq, Eq, Structural)]
pub struct TimeBucket {
    pub sec: u64,
    pub allowed: u32,
    pub challenged: u32,
    pub blocked: u32,
    pub tarpit: u32,
}

pub open spec fn empty_second(sec: u64) -> TimeBucket {
    TimeBucket { sec, allowed: 0, challenged: 0, blocked: 0, tarpit: 0 }
}

/// A bucket with `n` more decisions of the named action; other names change nothing.
pub open spec fn with_more(b: TimeBucket, action: Seq<char>, n: u32) -> TimeBucket {
    if action == "allow"@ {
        TimeBucket { allowed: reputation::capped(b.allowed, n), ..b }
    } else if action == "challenge"@ {
        TimeBucket { challenged: reputation::capped(b.challenged, n), ..b }
    } else if action == "block"@ {
        TimeBucket { blocked: reputation::capped(b.blocked, n), ..b }
    } else if action == "tarpit"@ {
        TimeBucket { tarpit: reputation::capped(b.tarpit, n), ..b }
    } else {
        b
    }
}

/// What was stored under the name of an action is counted under that action again.
pub proof fn lemma_names(b: TimeBucket, n: u32)
    ensures
        with_more(b, action_text(Action::Allow), n) == (TimeBucket {
            allowed: reputation::capped(b.allowed, n),
            ..b
        }),
        with_more(b, action_text(Action::Challenge), n) == (TimeBucket {
            challenged: reputation::capped(b.challenged, n),
            ..b
        }),
        with_more(b, action_text(Action::Block), n) == (TimeBucket {
            blocked: reputation::capped(b.blocked, n),
            ..b
        }),
        with_more(b, action_text(Action::Tarpit), n) == (TimeBucket {
            tarpit: reputation::capped(b.tarpit, n),
            ..b
        }),
{
    reveal_strlit("allow");
    reveal_strlit("challenge");
    reveal_strlit("block");
    reveal_strlit("tarpit");
    assert("allow"@[0] == 'a' && "challenge"@[0] == 'c' && "block"@[0] == 'b' && "tarpit"@[0] == 't');
}

impl TimeBucket {
    pub fn add(&mut self, action: &str, n: u32)
        ensures
            *final(self) == with_more(*old(self), action@, n),
    {
        if same_text(action, "allow") {
            self.allowed = self.allowed.saturating_add(n);
        } else if same_text(action, "challenge") {
            self.challenged = self.challenged.saturating_add(n);
        } else if same_text(action, "block") {
            self.blocked = self.blocked.saturating_add(n);
        } else if same_text(action, "tarpit") {
            self.tarpit = self.tarpit.saturating_add(n);
        }
    }
}

/// A row of the chart query: a second, the name of an action, and how often it occurred.
pub type Row = (u64, String, u32);

/// The chart of a list of rows that is ordered by the second.
pub open spec fn chart(rows: Seq<(u64, Seq<char>, u32)>) -> Seq<TimeBucket>
    decreases rows.len(),
{
    if rows.len() == 0 {
        seq![]
    } else {
        let before = chart(rows.drop_last());
        let (sec, action, n) = rows.last();
        if before.len() > 0 && before.last().sec == sec {
            before.update(before.len() - 1, with_more(before.last(), action, n))
        } else {
            before.push(with_more(empty_second(sec), action, n))
        }
    }
}

pub open spec fn row_views(rows: Seq<Row>) -> Seq<(u64, Seq<char>, u32)> {
    Seq::new(rows.len(), |i: int| (rows[i].0, rows[i].1@, rows[i].2))
}

/// In the chart of ordered rows every second occurs once, in order.
pub proof fn lemma_chart_ordered(rows: Seq<(u64, Seq<char>, u32)>)
    requires
        forall|i: int, j: int| 0 <= i < j < rows.len() ==> (#[trigger] rows[i]).0 <= (#[trigger] rows[j]).0,
    ensures
        forall|i: int, j: int| 0 <= i < j < chart(rows).len() ==> chart(rows)[i].sec < chart(rows)[j].sec,
        rows.len() > 0 ==> chart(rows).len() > 0 && chart(rows).last().sec == rows.last().0,
    decreases rows.len(),
{
    if rows.len() > 0 {
        let rest = rows.drop_last();
        assert forall|i: int, j: int| 0 <= i < j < rest.len() implies (#[trigger] rest[i]).0 <= (
        #[trigger] rest[j]).0 by {
            assert(rest[i] == rows[i] && rest[j] == rows[j]);
        }
        lemma_chart_ordered(rest);
        let before = chart(rest);
        let after = chart(rows);
        if rest.len() > 0 {
            assert(rest.last() == rows[rows.len() - 2]);
            assert(rows[rows.len() - 2].0 <= rows[rows.len() - 1].0);
        }
        assert forall|i: int, j: int| 0 <= i < j < after.len() implies after[i].sec < after[j].sec by {
            assert(i < before.len());
            if j < before.len() {
                assert(before[i].sec < before[j].sec);
            } else if i < before.len() - 1 {
                assert(before[i].sec < before[before.len() - 1].sec);
            }
        }
    }
}

/// Folds the rows of the chart query into one bucket for each second.
pub fn fold_series(rows: &Vec<Row>) -> (r: Vec<TimeBucket>)
    ensures
        r@ == chart(row_views(rows@)),
{
    let mut out: Vec<TimeBucket> = Vec::new();
    let ghost all = row_views(rows@);
    assert(out@ =~= chart(all.take(0)));
    for i in 0..rows.len()
        invariant
            all == row_views(rows@),
            out@ == chart(all.take(i as int)),
    {
        let row = &rows[i];
        proof {
            assert(all.take(i + 1).drop_last() =~= all.take(i as int));
            assert(all.take(i + 1).last() == (row.0, row.1@, row.2));
        }
        let ghost before = out@;
        let n: usize = out.len();
        if n > 0 && out[n - 1].sec == row.0 {
            let mut b = out[n - 1];
            b.add(row.1.as_str(), row.2);
            out.set(n - 1, b);
        } else {
            let mut b = TimeBucket { sec: row.0, allowed: 0, challenged: 0, blocked: 0, tarpit: 0 };
            b.add(row.1.as_str(), row.2);
            out.push(b);
        }
    }
    assert(all.take(all.len() as int) =~= all);
    out
}

/// What the writer is woken by.
#[derive(Debug, Clone, Copy, PartialEq, Eq, Structural)]
pub enum WriterEvent {
    /// It is time to drop old events.
    RetentionTick,
    /// It is time to write what is buffered.
    FlushTick,
    /// An event came and was buffered.
    Received,
    /// No more events will come.
    Closed,
}

/// What the writer does.
#[derive(Debug, Clone, Copy, PartialEq, Eq, Structural)]
pub enum WriterAction {
    Wait,
    Flush,
    /// Drop the events before a time.
    Sweep(i64),
    FlushAndStop,
    Stop,
}

/// The time before which events are dropped.
pub open spec fn cutoff(now_ms: i64) -> i64 {
    if now_ms - KEEP_MS < i64::MIN {
        i64::MIN
    } else {
        (now_ms - KEEP_MS) as i64
    }
}

pub open spec fn writer_action(e: WriterEvent, buffered: nat, now_ms: i64) -> WriterAction {
    match e {
        WriterEvent::RetentionTick => WriterAction::Sweep(cutoff(now_ms)),
        WriterEvent::FlushTick => if buffered > 0 {
            WriterAction::Flush
        } else {
            WriterAction::Wait
        },
        WriterEvent::Received => if buffered >= FLUSH_BATCH {
            WriterAction::Flush
        } else {
            WriterAction::Wait
        },
        WriterEvent::Closed => if buffered > 0 {
            WriterAction::FlushAndStop
        } else {
            WriterAction::Stop
        },
    }
}

/// What the writer does on an event while `buffered` events wait to be written.
pub fn writer_step(e: WriterEvent, buffered: usize, now_ms: i64) -> (r: WriterAction)
    ensures
        r == writer_action(e, buffered as nat, now_ms),
{
    match e {
        WriterEvent::RetentionTick => {
            let at: i64 = if now_ms < i64::MIN + KEEP_MS {
                i64::MIN
            } else {
                now_ms - KEEP_MS
            };
            WriterAction::Sweep(at)
        },
        WriterEvent::FlushTick => if buffered > 0 {
            WriterAction::Flush
        } else {
            WriterAction::Wait
        },
        WriterEvent::Received => if buffered >= FLUSH_BATCH {
            WriterAction::Flush
        } else {
            WriterAction::Wait
        },
        WriterEvent::Closed => if buffered > 0 {
            WriterAction::FlushAndStop
        } else {
            WriterAction::Stop
        },
    }
}

/// How many events a query may return.
pub fn query_limit(limit: usize) -> (r: usize)
    ensures
        r == if limit < QUERY_MAX {
            limit
        } else {
            QUERY_MAX
        },
{
    if limit < QUERY_MAX {
        limit
    } else {
        QUERY_MAX
    }
}

// ---------------------------------------------------------------------------
// Laws
// ---------------------------------------------------------------------------

/// Events are dropped exactly when more than 16384 of them wait to be written.
pub proof fn lemma_dropped_exactly(s: SinkView, e: EventView)
    requires
        s.dropped < u64::MAX,
        s.queued < u64::MAX,
    ensures
        submitted(s, e).dropped == s.dropped + 1 <==> s.queued - s.drained > 16_384,
        submitted(s, e).outbox == s.outbox.push(e) <==> s.queued - s.drained <= 16_384,
        submitted(s, e).written == s.written,
        submitted(s, e).drained == s.drained,
{
    assert(s.outbox.len() != s.outbox.push(e).len());
}

/// The writer writes once 512 events wait, at every tick where some do, and before it stops; only
/// the sweep drops what is older than a day.
pub proof fn lemma_writer_exactly(e: WriterEvent, buffered: nat, now_ms: i64)
    requires
        0 <= now_ms,
    ensures
        ({
            let a = writer_action(e, buffered, now_ms);
            &&& a == WriterAction::Flush <==> (e == WriterEvent::FlushTick && buffered > 0) || (e
                == WriterEvent::Received && buffered >= 512)
            &&& a == WriterAction::FlushAndStop <==> e == WriterEvent::Closed && buffered > 0
            &&& a == WriterAction::Stop <==> e == WriterEvent::Closed && buffered == 0
            &&& a is Sweep <==> e == WriterEvent::RetentionTick
            &&& e == WriterEvent::RetentionTick ==> a == WriterAction::Sweep((now_ms - 86_400_000) as i64)
        }),
{
}

/// How many decisions of a kind some rows count.
pub open spec fn rows_total(rows: Seq<(u64, Seq<char>, u32)>, action: Seq<char>) -> nat
    decreases rows.len(),
{
    if rows.len() == 0 {
        0
    } else {
        rows_total(rows.drop_last(), action) + if rows.last().1 == action {
            rows.last().2 as nat
        } else {
            0
        }
    }
}

/// How many decisions of each kind a chart shows.
pub open spec fn chart_total(list: Seq<TimeBucket>, a: Action) -> nat
    decreases list.len(),
{
    if list.len() == 0 {
        0
    } else {
        chart_total(list.drop_last(), a) + shown_in(list.last(), a)
    }
}

/// How many decisions of a kind a second shows.
pub open spec fn shown_in(b: TimeBucket, a: Action) -> nat {
    match a {
        Action::Allow => b.allowed as nat,
        Action::Challenge => b.challenged as nat,
        Action::Block => b.blocked as nat,
        Action::Tarpit => b.tarpit as nat,
    }
}

/// The chart shows every decision that the rows count, each under its own kind, as long as no count
/// is exhausted.
pub proof fn lemma_chart_counts(rows: Seq<(u64, Seq<char>, u32)>, a: Action)
    requires
        rows_total(rows, action_text(a)) <= u32::MAX,
    ensures
        chart_total(chart(rows), a) == rows_total(rows, action_text(a)),
    decreases rows.len(),
{
    if rows.len() > 0 {
        let rest = rows.drop_last();
        lemma_chart_counts(rest, a);
        let before = chart(rest);
        let (sec, name, n) = rows.last();
        lemma_kinds(a, name);
        if before.len() > 0 && before.last().sec == sec {
            let b = with_more(before.last(), name, n);
            let after = before.update(before.len() - 1, b);
            assert(after.drop_last() =~= before.drop_last());
            assert(after.last() == b);
        } else {
            let b = with_more(empty_second(sec), name, n);
            assert(before.push(b).drop_last() =~= before);
        }
    }
}

proof fn lemma_kinds(a: Action, name: Seq<char>)
    ensures
        forall|b: TimeBucket, n: u32|
            shown_in(b, a) + n <= u32::MAX && name == action_text(a) ==> shown_in(#[trigger] with_more(b, name, n), a)
                == shown_in(b, a) + n,
        forall|b: TimeBucket, n: u32|
            name != action_text(a) ==> shown_in(#[trigger] with_more(b, name, n), a) == shown_in(b, a),
{
    reveal_strlit("allow");
    reveal_strlit("challenge");
    reveal_strlit("block");
    reveal_strlit("tarpit");
    assert("allow"@.len() == 5 && "challenge"@.len() == 9 && "block"@.len() == 5 && "tarpit"@.len() == 6);
    assert("allow"@[0] == 'a' && "block"@[0] == 'b');
}

/// What was stored no longer waits: the events that wait are fewer by as many, and as many more were
/// written. A lost event is counted as dropped.
pub proof fn lemma_flushed(s: SinkView, n: u64)
    requires
        s.written + n <= u64::MAX,
        s.drained + n <= s.queued,
        s.dropped < u64::MAX,
    ensures
        flushed(s, n).written == s.written + n,
        flushed(s, n).queued - flushed(s, n).drained == s.queued - s.drained - n,
        flushed(s, n).dropped == s.dropped,
        flushed(s, n).outbox == s.outbox,
        lost(s).dropped == s.dropped + 1,
        lost(s).written == s.written,
        lost(s).queued == s.queued,
        lost(s).drained == s.drained,
{
}

} // verus!
