//! The output of the engine for a given request.

use vstd::prelude::*;

verus! {

#[derive(Debug, Clone, Copy, PartialEq, Eq, Structural)]
pub enum Action {
    /// Forward to the upstream unmodified.
    Allow,
    /// Serve a challenge page; on success the client gets a clearance cookie.
    Challenge,
    /// Reject with an error status.
    Block,
    /// Hold the connection open and answer extremely slowly.
    Tarpit,
}

#[derive(Debug)]
pub struct DecisionReason {
    pub rule_id: String,
    pub category: String,
    pub score: u32,
    pub detail: String,
}

#[verifier::ext_equal]
pub struct ReasonView {
    pub rule_id: Seq<char>,
    pub category: Seq<char>,
    pub score: u32,
    pub detail: Seq<char>,
}

impl View for DecisionReason {
    type V = ReasonView;

    open spec fn view(&self) -> ReasonView {
        ReasonView {
            rule_id: self.rule_id@,
            category: self.category@,
            score: self.score,
            detail: self.detail@,
        }
    }
}

/// A reason with the given parts.
pub open spec fn reason_of(rule_id: Seq<char>, category: Seq<char>, score: u32, detail: Seq<char>) -> ReasonView {
    ReasonView { rule_id, category, score, detail }
}

/// The views of a list of reasons.
pub open spec fn views(list: Seq<DecisionReason>) -> Seq<ReasonView> {
    Seq::new(list.len(), |i: int| list[i]@)
}

/// The sequence that holds `r` where `c` holds, and nothing elsewhere.
pub open spec fn when(c: bool, r: ReasonView) -> Seq<ReasonView> {
    if c {
        seq![r]
    } else {
        seq![]
    }
}

/// The sequence that holds what the option holds.
pub open spec fn listed(r: Option<ReasonView>) -> Seq<ReasonView> {
    match r {
        Some(r) => seq![r],
        None => seq![],
    }
}

/// The sum of the scores, kept at the largest score that a decision can hold.
pub open spec fn capped_sum(list: Seq<ReasonView>) -> u32
    decreases list.len(),
{
    if list.len() == 0 {
        0
    } else {
        let sum = capped_sum(list.drop_last()) + list.last().score;
        if sum > u32::MAX {
            u32::MAX
        } else {
            sum as u32
        }
    }
}

/// Appending a reason to a list adds its score to the sum.
pub proof fn lemma_capped_push(list: Seq<ReasonView>, r: ReasonView)
    ensures
        capped_sum(list.push(r)) == (if capped_sum(list) + r.score > u32::MAX {
            u32::MAX
        } else {
            (capped_sum(list) + r.score) as u32
        }),
{
    assert(list.push(r).drop_last() =~= list);
}

/// One more reason never lowers the sum.
pub proof fn lemma_capped_monotone(list: Seq<ReasonView>, more: Seq<ReasonView>)
    ensures
        capped_sum(list) <= capped_sum(list + more),
    decreases more.len(),
{
    if more.len() == 0 {
        assert(list + more =~= list);
    } else {
        lemma_capped_monotone(list, more.drop_last());
        assert((list + more).drop_last() =~= list + more.drop_last());
    }
}

pub fn reason(rule_id: &str, category: &str, score: u32, detail: String) -> (r: DecisionReason)
    ensures
        r@ == reason_of(rule_id@, category@, score, detail@),
{
    DecisionReason { rule_id: rule_id.to_string(), category: category.to_string(), score, detail }
}

impl DecisionReason {
    /// A copy of the reason.
    pub fn copy(&self) -> (r: DecisionReason)
        ensures
            r@ == self@,
    {
        DecisionReason {
            rule_id: self.rule_id.clone(),
            category: self.category.clone(),
            score: self.score,
            detail: self.detail.clone(),
        }
    }
}

/// A copy of a list of reasons.
pub fn copy_reasons(list: &Vec<DecisionReason>) -> (r: Vec<DecisionReason>)
    ensures
        views(r@) == views(list@),
{
    let mut out: Vec<DecisionReason> = Vec::new();
    for i in 0..list.len()
        invariant
            out@.len() == i,
            forall|j: int| 0 <= j < i ==> out@[j]@ == list@[j]@,
    {
        out.push(list[i].copy());
    }
    assert(views(out@) =~= views(list@));
    out
}

/// Appends one reason.
pub fn push_reason(out: &mut Vec<DecisionReason>, r: DecisionReason)
    ensures
        views(final(out)@) == views(old(out)@).push(r@),
{
    out.push(r);
    assert(views(out@) =~= views(old(out)@).push(r@));
}

/// Appends the reason `r` where `c` holds.
pub fn push_when(out: &mut Vec<DecisionReason>, c: bool, r: DecisionReason)
    ensures
        views(final(out)@) == views(old(out)@) + when(c, r@),
{
    if c {
        push_reason(out, r);
    }
    assert(views(out@) =~= views(old(out)@) + when(c, r@));
}

#[derive(Debug)]
pub struct Decision {
    pub action: Action,
    pub status: u16,
    pub score: u32,
    pub reasons: Vec<DecisionReason>,
    /// Logical request id used to correlate logs.
    pub request_id: String,
}

#[verifier::ext_equal]
pub struct DecisionView {
    pub action: Action,
    pub status: u16,
    pub score: u32,
    pub reasons: Seq<ReasonView>,
    pub request_id: Seq<char>,
}

impl View for Decision {
    type V = DecisionView;

    open spec fn view(&self) -> DecisionView {
        DecisionView {
            action: self.action,
            status: self.status,
            score: self.score,
            reasons: views(self.reasons@),
            request_id: self.request_id@,
        }
    }
}

impl DecisionView {
    pub open spec fn allow(request_id: Seq<char>) -> DecisionView {
        DecisionView { action: Action::Allow, status: 200, score: 0, reasons: seq![], request_id }
    }

    pub open spec fn block(request_id: Seq<char>, status: u16, r: ReasonView) -> DecisionView {
        DecisionView { action: Action::Block, status, score: r.score, reasons: seq![r], request_id }
    }

    pub open spec fn challenge(request_id: Seq<char>, score: u32, reasons: Seq<ReasonView>) -> DecisionView {
        DecisionView { action: Action::Challenge, status: 403, score, reasons, request_id }
    }

    pub open spec fn tarpit(request_id: Seq<char>, score: u32, reasons: Seq<ReasonView>) -> DecisionView {
        DecisionView { action: Action::Tarpit, status: 200, score, reasons, request_id }
    }

    /// The decision with the reasons of `more` added, one by one.
    pub open spec fn with_reasons(self, more: Seq<ReasonView>) -> DecisionView
        decreases more.len(),
    {
        if more.len() == 0 {
            self
        } else {
            self.with_reason(more.first()).with_reasons(more.drop_first())
        }
    }

    pub open spec fn with_reason(self, r: ReasonView) -> DecisionView {
        DecisionView {
            score: if self.score + r.score > u32::MAX {
                u32::MAX
            } else {
                (self.score + r.score) as u32
            },
            reasons: self.reasons.push(r),
            ..self
        }
    }

    /// Whether the score is the sum of the reasons' scores.
    pub open spec fn summed(self) -> bool {
        self.score == capped_sum(self.reasons)
    }

    /// The reason that is reported where only one can be.
    pub open spec fn primary(self) -> Option<ReasonView> {
        if self.reasons.len() == 0 {
            None
        } else {
            Some(self.reasons[0])
        }
    }
}

/// Adding reasons keeps the score equal to the sum of the reasons' scores, and the reasons in
/// the order in which they came.
pub proof fn lemma_with_reasons(d: DecisionView, more: Seq<ReasonView>)
    requires
        d.summed(),
    ensures
        d.with_reasons(more).summed(),
        d.with_reasons(more).reasons == d.reasons + more,
        d.with_reasons(more).action == d.action,
        d.with_reasons(more).status == d.status,
        d.with_reasons(more).request_id == d.request_id,
    decreases more.len(),
{
    if more.len() > 0 {
        lemma_capped_push(d.reasons, more.first());
        lemma_with_reasons(d.with_reason(more.first()), more.drop_first());
        assert(d.reasons.push(more.first()) + more.drop_first() =~= d.reasons + more);
    } else {
        assert(d.reasons + more =~= d.reasons);
    }
}

impl Decision {
    pub fn allow(request_id: String) -> (r: Decision)
        ensures
            r@ == DecisionView::allow(request_id@),
    {
        let r = Decision { action: Action::Allow, status: 200, score: 0, reasons: Vec::new(), request_id };
        assert(r@.reasons =~= seq![]);
        r
    }

    pub fn block(request_id: String, status: u16, reason: DecisionReason) -> (r: Decision)
        ensures
            r@ == DecisionView::block(request_id@, status, reason@),
    {
        let mut reasons: Vec<DecisionReason> = Vec::new();
        let score: u32 = reason.score;
        let ghost v = reason@;
        reasons.push(reason);
        let r = Decision { action: Action::Block, status, score, reasons, request_id };
        assert(r@.reasons =~= seq![v]);
        r
    }

    pub fn challenge(request_id: String, score: u32, reasons: Vec<DecisionReason>) -> (r: Decision)
        ensures
            r@ == DecisionView::challenge(request_id@, score, views(reasons@)),
    {
        Decision { action: Action::Challenge, status: 403, score, reasons, request_id }
    }

    /// The status pretends to be a slow legitimate answer.
    pub fn tarpit(request_id: String, score: u32, reasons: Vec<DecisionReason>) -> (r: Decision)
        ensures
            r@ == DecisionView::tarpit(request_id@, score, views(reasons@)),
    {
        Decision { action: Action::Tarpit, status: 200, score, reasons, request_id }
    }

    pub fn add_reason(&mut self, r: DecisionReason)
        ensures
            final(self)@ == old(self)@.with_reason(r@),
    {
        self.score = self.score.saturating_add(r.score);
        self.reasons.push(r);
        assert(self@.reasons =~= old(self)@.reasons.push(r@));
    }

    /// Adds every reason of a list.
    pub fn add_reasons(&mut self, list: Vec<DecisionReason>)
        ensures
            final(self)@ == old(self)@.with_reasons(views(list@)),
    {
        let ghost before = self@;
        let ghost all = views(list@);
        let mut rest = list;
        let mut queue: Vec<DecisionReason> = Vec::new();
        let n: usize = rest.len();
        while rest.len() > 0
            invariant
                rest@.len() + queue@.len() == n,
                n == all.len(),
                forall|j: int| 0 <= j < rest@.len() ==> (#[trigger] rest@[j])@ == all[j],
                forall|j: int| 0 <= j < queue@.len() ==> (#[trigger] queue@[j])@ == all[n - 1 - j],
                self@ == before,
            decreases rest@.len(),
        {
            if let Some(r) = rest.pop() {
                queue.push(r);
            }
        }
        assert(all.skip(0) =~= all);
        while queue.len() > 0
            invariant
                queue@.len() <= n,
                n == all.len(),
                forall|j: int| 0 <= j < queue@.len() ==> (#[trigger] queue@[j])@ == all[n - 1 - j],
                self@.with_reasons(all.skip(n - queue@.len())) == before.with_reasons(all),
            decreases queue@.len(),
        {
            let ghost tail = all.skip(n - queue@.len());
            if let Some(r) = queue.pop() {
                proof {
                    assert(r@ == tail.first());
                    assert(tail.drop_first() =~= all.skip(n - queue@.len()));
                }
                self.add_reason(r);
            }
        }
    }

    /// A copy of the decision.
    pub fn copy(&self) -> (r: Decision)
        ensures
            r@ == self@,
    {
        Decision {
            action: self.action,
            status: self.status,
            score: self.score,
            reasons: copy_reasons(&self.reasons),
            request_id: self.request_id.clone(),
        }
    }
}

// ---------------------------------------------------------------------------
// Laws
// ---------------------------------------------------------------------------

/// Whether some reason of a list bears a rule id.
pub open spec fn names(list: Seq<ReasonView>, rule_id: Seq<char>) -> bool {
    exists|i: int| 0 <= i < list.len() && (#[trigger] list[i]).rule_id == rule_id
}

/// Whether some reason of a list bears a rule id and a score.
pub open spec fn gives(list: Seq<ReasonView>, rule_id: Seq<char>, score: u32) -> bool {
    exists|i: int| 0 <= i < list.len() && (#[trigger] list[i]).rule_id == rule_id && list[i].score == score
}

/// The sum of the scores of a list.
pub open spec fn total(list: Seq<ReasonView>) -> nat
    decreases list.len(),
{
    if list.len() == 0 {
        0
    } else {
        list[0].score as nat + total(list.drop_first())
    }
}

pub broadcast proof fn lemma_names_add(a: Seq<ReasonView>, b: Seq<ReasonView>, rule_id: Seq<char>)
    ensures
        #[trigger] names(a + b, rule_id) <==> names(a, rule_id) || names(b, rule_id),
{
    let c = a + b;
    if names(a, rule_id) {
        let i = choose|i: int| 0 <= i < a.len() && (#[trigger] a[i]).rule_id == rule_id;
        assert(c[i].rule_id == rule_id);
    }
    if names(b, rule_id) {
        let i = choose|i: int| 0 <= i < b.len() && (#[trigger] b[i]).rule_id == rule_id;
        assert(c[a.len() + i].rule_id == rule_id);
    }
    if names(c, rule_id) {
        let i = choose|i: int| 0 <= i < c.len() && (#[trigger] c[i]).rule_id == rule_id;
        if i < a.len() {
            assert(a[i].rule_id == rule_id);
        } else {
            assert(b[i - a.len()].rule_id == rule_id);
        }
    }
}

pub broadcast proof fn lemma_gives_add(a: Seq<ReasonView>, b: Seq<ReasonView>, rule_id: Seq<char>, score: u32)
    ensures
        #[trigger] gives(a + b, rule_id, score) <==> gives(a, rule_id, score) || gives(b, rule_id, score),
{
    let c = a + b;
    if gives(a, rule_id, score) {
        let i = choose|i: int| 0 <= i < a.len() && (#[trigger] a[i]).rule_id == rule_id && a[i].score == score;
        assert(c[i].rule_id == rule_id);
    }
    if gives(b, rule_id, score) {
        let i = choose|i: int| 0 <= i < b.len() && (#[trigger] b[i]).rule_id == rule_id && b[i].score == score;
        assert(c[a.len() + i].rule_id == rule_id);
    }
    if gives(c, rule_id, score) {
        let i = choose|i: int| 0 <= i < c.len() && (#[trigger] c[i]).rule_id == rule_id && c[i].score == score;
        if i < a.len() {
            assert(a[i].rule_id == rule_id);
        } else {
            assert(b[i - a.len()].rule_id == rule_id);
        }
    }
}

pub broadcast proof fn lemma_names_when(c: bool, r: ReasonView, rule_id: Seq<char>)
    ensures
        #[trigger] names(when(c, r), rule_id) <==> c && r.rule_id == rule_id,
{
    if c {
        assert(when(c, r)[0] == r);
    }
}

pub broadcast proof fn lemma_gives_when(c: bool, r: ReasonView, rule_id: Seq<char>, score: u32)
    ensures
        #[trigger] gives(when(c, r), rule_id, score) <==> c && r.rule_id == rule_id && r.score == score,
{
    if c {
        assert(when(c, r)[0] == r);
    }
}

pub broadcast proof fn lemma_total_add(a: Seq<ReasonView>, b: Seq<ReasonView>)
    ensures
        #[trigger] total(a + b) == total(a) + total(b),
    decreases a.len(),
{
    if a.len() == 0 {
        assert(a + b =~= b);
    } else {
        assert((a + b).drop_first() =~= a.drop_first() + b);
        lemma_total_add(a.drop_first(), b);
    }
}

pub broadcast proof fn lemma_total_when(c: bool, r: ReasonView)
    ensures
        #[trigger] total(when(c, r)) == if c {
            r.score as nat
        } else {
            0
        },
{
    if c {
        assert(when(c, r)[0] == r);
        assert(when(c, r).drop_first() =~= seq![]);
        assert(total(seq![]) == 0);
    }
}

/// How lists of reasons are read.
pub broadcast group group_reasons {
    lemma_names_add,
    lemma_gives_add,
    lemma_names_when,
    lemma_gives_when,
    lemma_total_add,
    lemma_total_when,
}

/// The score of a decision is the sum of the scores of all its reasons, as far as it can hold it.
pub proof fn lemma_capped_total(list: Seq<ReasonView>)
    ensures
        capped_sum(list) == if total(list) <= u32::MAX {
            total(list)
        } else {
            u32::MAX as nat
        },
    decreases list.len(),
{
    if list.len() > 0 {
        let rest = list.drop_last();
        lemma_capped_total(rest);
        let one = seq![list.last()];
        assert(list =~= rest + one);
        lemma_total_add(rest, one);
        assert(one.drop_first() =~= seq![]);
        assert(total(seq![]) == 0);
        assert(total(one) == list.last().score);
    }
}

/// A reason that a list gives is part of its sum.
pub proof fn lemma_given_counts(list: Seq<ReasonView>, rule_id: Seq<char>, score: u32)
    requires
        gives(list, rule_id, score),
    ensures
        total(list) >= score,
    decreases list.len(),
{
    let i = choose|i: int| 0 <= i < list.len() && (#[trigger] list[i]).rule_id == rule_id && list[i].score == score;
    if i > 0 {
        let rest = list.drop_first();
        assert(rest[i - 1] == list[i]);
        lemma_given_counts(rest, rule_id, score);
    }
}

} // verus!
