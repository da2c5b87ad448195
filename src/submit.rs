//! The batch submitter: cutting statements into bounded batches, rendering a
//! batch as one N-Quad payload, and the decisions of a submission run, which
//! stops at the first batch whose commit fails.
use crate::mutation::{nquad, statements_view, Statement, StatementModel};
use vstd::prelude::*;
use vstd::string::*;

verus! {

broadcast use vstd::string::group_string_axioms;

/// The largest number of whole statement triples (node, node, edge) that fits
/// in `max_statements`, counted in statements.
pub open spec fn batch_len(max_statements: nat) -> nat {
    (max_statements - max_statements % 3) as nat
}

/// The batches of `[start, n)`: consecutive ranges of `per` statements, the
/// last one possibly shorter.
pub open spec fn batch_bounds(start: nat, n: nat, per: nat) -> Seq<(nat, nat)>
    decreases n - start,
{
    if per == 0 || start >= n {
        Seq::empty()
    } else if n - start <= per {
        seq![(start, n)]
    } else {
        seq![(start, start + per)] + batch_bounds(start + per, n, per)
    }
}

/// Every batch of `batch_bounds(start, n, per)` is non-empty and holds at most
/// `per` statements; the batches follow one another and cover `[start, n)`;
/// where `start` and `per` are multiples of three, so is every batch's start.
pub proof fn lemma_batch_bounds(start: nat, n: nat, per: nat)
    requires
        per > 0,
        start <= n,
    ensures
        ({
            let b = batch_bounds(start, n, per);
            &&& start == n <==> b.len() == 0
            &&& b.len() > 0 ==> b[0].0 == start && b.last().1 == n
            &&& forall|j: int|
                0 <= j < b.len() ==> start <= #[trigger] b[j].0 < b[j].1 <= b[j].0 + per
            &&& start % 3 == 0 && per % 3 == 0 ==> forall|j: int|
                0 <= j < b.len() ==> #[trigger] b[j].0 % 3 == 0
            &&& forall|j: int| 0 <= j < b.len() - 1 ==> #[trigger] b[j].1 == b[j + 1].0
        }),
    decreases n - start,
{
    let b = batch_bounds(start, n, per);
    if start < n && n - start > per {
        lemma_batch_bounds(start + per, n, per);
        let rest = batch_bounds(start + per, n, per);
        assert(b == seq![(start, start + per)] + rest);
        assert forall|j: int| 0 < j < b.len() implies #[trigger] b[j] == rest[j - 1] by {}
        assert(b.last() == rest.last());
        assert forall|j: int| 0 <= j < b.len() - 1 implies #[trigger] b[j].1 == b[j + 1].0 by {
            if j > 0 {
                assert(b[j] == rest[j - 1]);
                assert(b[j + 1] == rest[j]);
            }
        }
    } else if start < n {
        assert(b == seq![(start, n)]);
    } else {
        assert(b.len() == 0);
    }
}

/// The batches that `n` statements are cut into for a bound of
/// `max_statements` per batch: whole triples only, so that every edge stays
/// with the declarations of its two nodes.
pub fn batch_ranges(n: usize, max_statements: usize) -> (r: Vec<(usize, usize)>)
    requires
        max_statements >= 3,
    ensures
        r@.len() == batch_bounds(0, n as nat, batch_len(max_statements as nat)).len(),
        forall|j: int|
            0 <= j < r@.len() ==> (#[trigger] r@[j]).0 as nat == batch_bounds(
                0,
                n as nat,
                batch_len(max_statements as nat),
            )[j].0 && r@[j].1 as nat == batch_bounds(0, n as nat, batch_len(max_statements as nat))[j].1,
{
    let per = max_statements - max_statements % 3;
    let ghost all = batch_bounds(0, n as nat, per as nat);
    let mut out: Vec<(usize, usize)> = Vec::new();
    let mut start: usize = 0;
    while start < n
        invariant
            per == batch_len(max_statements as nat),
            per >= 3,
            start <= n,
            all == batch_bounds(0, n as nat, per as nat),
            all == out@.map_values(|p: (usize, usize)| (p.0 as nat, p.1 as nat)) + batch_bounds(
                start as nat,
                n as nat,
                per as nat,
            ),
        decreases n - start,
    {
        let end = if n - start <= per {
            n
        } else {
            start + per
        };
        let ghost before = out@.map_values(|p: (usize, usize)| (p.0 as nat, p.1 as nat));
        out.push((start, end));
        proof {
            let now = out@.map_values(|p: (usize, usize)| (p.0 as nat, p.1 as nat));
            assert(now =~= before.push((start as nat, end as nat)));
            if n - start <= per {
                assert(batch_bounds(end as nat, n as nat, per as nat) =~= Seq::<(nat, nat)>::empty());
            }
            assert(now + batch_bounds(end as nat, n as nat, per as nat) =~= before
                + batch_bounds(start as nat, n as nat, per as nat));
        }
        start = end;
    }
    assert(out@.map_values(|p: (usize, usize)| (p.0 as nat, p.1 as nat)) =~= all);
    assert forall|j: int| 0 <= j < out@.len() implies (#[trigger] out@[j]).0 as nat == all[j].0
        && out@[j].1 as nat == all[j].1 by {
        assert(all[j] == out@.map_values(|p: (usize, usize)| (p.0 as nat, p.1 as nat))[j]);
    }
    out
}

/// The N-Quad payload of statements: each one's line, followed by a line break.
pub open spec fn payload_text(s: Seq<StatementModel>) -> Seq<char>
    decreases s.len(),
{
    if s.len() == 0 {
        Seq::empty()
    } else {
        payload_text(s.drop_last()) + nquad(s.last()) + "\n"@
    }
}

/// The payload of the statements `[start, end)` of `statements`, as one
/// transaction stages it.
pub fn batch_payload(statements: &Vec<Statement>, start: usize, end: usize) -> (r: String)
    requires
        start <= end <= statements@.len(),
    ensures
        r@ == payload_text(statements_view(statements@).subrange(start as int, end as int)),
{
    let ghost sv = statements_view(statements@);
    let mut out = String::new();
    let mut i: usize = start;
    while i < end
        invariant
            start <= i <= end <= statements@.len(),
            sv == statements_view(statements@),
            out@ == payload_text(sv.subrange(start as int, i as int)),
        decreases end - i,
    {
        let line = statements[i].to_nquad();
        out.append(line.as_str());
        out.append("\n");
        proof {
            let next = sv.subrange(start as int, i + 1);
            assert(next.drop_last() =~= sv.subrange(start as int, i as int));
            assert(next.last() == statements@[i as int]@);
        }
        i += 1;
    }
    out
}

/// Where a submission run stands: of `n_chunks` batches, the first
/// `committed` have been committed, and `failed` names the batch whose commit
/// failed, if one did.
pub struct SubmitState {
    pub n_chunks: nat,
    pub committed: nat,
    pub failed: Option<nat>,
}

pub open spec fn start_state(n_chunks: nat) -> SubmitState {
    SubmitState { n_chunks, committed: 0, failed: None }
}

/// A run is over once a commit has failed or every batch is committed.
pub open spec fn is_finished(s: SubmitState) -> bool {
    s.failed is Some || s.committed >= s.n_chunks
}

/// The state after the commit of the next batch succeeded (`ok`) or failed.
pub open spec fn step(s: SubmitState, ok: bool) -> SubmitState {
    if ok {
        SubmitState { committed: s.committed + 1, ..s }
    } else {
        SubmitState { failed: Some(s.committed), ..s }
    }
}

/// The state after the store answered the commits in turn with `outcomes`;
/// answers after the run is over are never asked for.
pub open spec fn drive(s: SubmitState, outcomes: Seq<bool>) -> SubmitState
    decreases outcomes.len(),
{
    if outcomes.len() == 0 || is_finished(s) {
        s
    } else {
        drive(step(s, outcomes[0]), outcomes.drop_first())
    }
}

/// The indices of the batches submitted in that run, in order.
pub open spec fn attempts(s: SubmitState, outcomes: Seq<bool>) -> Seq<nat>
    decreases outcomes.len(),
{
    if outcomes.len() == 0 || is_finished(s) {
        Seq::empty()
    } else {
        seq![s.committed] + attempts(step(s, outcomes[0]), outcomes.drop_first())
    }
}

/// The indices of the batches that the store committed in that run, in order.
pub open spec fn commits(s: SubmitState, outcomes: Seq<bool>) -> Seq<nat>
    decreases outcomes.len(),
{
    if outcomes.len() == 0 || is_finished(s) {
        Seq::empty()
    } else if outcomes[0] {
        seq![s.committed] + commits(step(s, outcomes[0]), outcomes.drop_first())
    } else {
        commits(step(s, outcomes[0]), outcomes.drop_first())
    }
}

proof fn lemma_drive_from(s: SubmitState, outcomes: Seq<bool>, f: nat)
    requires
        s.failed is None,
        s.committed <= f < s.n_chunks,
        f < s.committed + outcomes.len(),
        !outcomes[f - s.committed],
        forall|i: int| 0 <= i < f - s.committed ==> #[trigger] outcomes[i],
    ensures
        drive(s, outcomes) == (SubmitState { committed: f, failed: Some(f), ..s }),
        attempts(s, outcomes) == Seq::new((f + 1 - s.committed) as nat, |i: int| (s.committed + i) as nat),
        commits(s, outcomes) == Seq::new((f - s.committed) as nat, |i: int| (s.committed + i) as nat),
    decreases outcomes.len(),
{
    let s1 = step(s, outcomes[0]);
    let rest = outcomes.drop_first();
    if s.committed == f {
        assert(!outcomes[0]);
        assert(is_finished(s1));
        assert(attempts(s1, rest) =~= Seq::<nat>::empty());
        assert(commits(s1, rest) =~= Seq::<nat>::empty());
        assert(attempts(s, outcomes) =~= Seq::new((f + 1 - s.committed) as nat, |i: int| (s.committed + i) as nat));
        assert(commits(s, outcomes) =~= Seq::new((f - s.committed) as nat, |i: int| (s.committed + i) as nat));
    } else {
        assert(outcomes[0]);
        assert forall|i: int| 0 <= i < f - s1.committed implies #[trigger] rest[i] by {
            assert(rest[i] == outcomes[i + 1]);
        }
        assert(rest[f - s1.committed] == outcomes[f - s.committed]);
        lemma_drive_from(s1, rest, f);
        assert(attempts(s, outcomes) =~= Seq::new((f + 1 - s.committed) as nat, |i: int| (s.committed + i) as nat));
        assert(commits(s, outcomes) =~= Seq::new((f - s.committed) as nat, |i: int| (s.committed + i) as nat));
    }
}

/// A run over `n_chunks` batches whose store commits the first `f` and fails
/// the commit of batch `f` ends failed at `f`, having submitted batches
/// `0..=f` and nothing after, with exactly batches `0..f` committed.
pub proof fn lemma_batch_atomicity(n_chunks: nat, outcomes: Seq<bool>, f: nat)
    requires
        f < n_chunks,
        f < outcomes.len(),
        !outcomes[f as int],
        forall|i: int| 0 <= i < f ==> #[trigger] outcomes[i],
    ensures
        drive(start_state(n_chunks), outcomes) == (SubmitState {
            n_chunks,
            committed: f,
            failed: Some(f),
        }),
        attempts(start_state(n_chunks), outcomes) == Seq::new(f + 1, |i: int| i as nat),
        commits(start_state(n_chunks), outcomes) == Seq::new(f, |i: int| i as nat),
{
    lemma_drive_from(start_state(n_chunks), outcomes, f);
    assert(Seq::new((f + 1) as nat, |i: int| (0 + i) as nat) =~= Seq::new(f + 1, |i: int| i as nat));
    assert(Seq::new(f, |i: int| (0 + i) as nat) =~= Seq::new(f, |i: int| i as nat));
}

/// What a submission run does next.
#[derive(Debug, PartialEq, Eq, Structural)]
pub enum SubmitStep {
    /// Stage and commit the batch with this index.
    Submit(usize),
    /// Every batch is committed.
    Done,
    /// The commit of the batch with this index failed; nothing more is sent.
    Failed(usize),
}

/// The next action of a run in state `s`.
pub open spec fn next_action(s: SubmitState) -> SubmitStep {
    match s.failed {
        Some(f) => SubmitStep::Failed(f as usize),
        None => if s.committed >= s.n_chunks {
            SubmitStep::Done
        } else {
            SubmitStep::Submit(s.committed as usize)
        },
    }
}

/// The decisions of one submission run over a known number of batches.
pub struct BatchSubmission {
    n_chunks: usize,
    committed: usize,
    failed: Option<usize>,
}

impl View for BatchSubmission {
    type V = SubmitState;

    closed spec fn view(&self) -> SubmitState {
        SubmitState {
            n_chunks: self.n_chunks as nat,
            committed: self.committed as nat,
            failed: match self.failed {
                Some(f) => Some(f as nat),
                None => None,
            },
        }
    }
}

impl BatchSubmission {
    pub closed spec fn wf(&self) -> bool {
        &&& self.committed <= self.n_chunks
        &&& match self.failed {
            Some(f) => f == self.committed && f < self.n_chunks,
            None => true,
        }
    }

    /// A run over `n_chunks` batches that has sent nothing yet.
    pub fn new(n_chunks: usize) -> (r: BatchSubmission)
        ensures
            r.wf(),
            r@ == start_state(n_chunks as nat),
    {
        BatchSubmission { n_chunks, committed: 0, failed: None }
    }

    /// What to do next.
    pub fn next_step(&self) -> (r: SubmitStep)
        requires
            self.wf(),
        ensures
            r == next_action(self@),
    {
        match self.failed {
            Some(f) => SubmitStep::Failed(f),
            None => if self.committed >= self.n_chunks {
                SubmitStep::Done
            } else {
                SubmitStep::Submit(self.committed)
            },
        }
    }

    /// Records whether the commit of the batch that `next_step` named succeeded.
    pub fn record_commit(&mut self, ok: bool)
        requires
            old(self).wf(),
            !is_finished(old(self)@),
        ensures
            final(self).wf(),
            final(self)@ == step(old(self)@, ok),
    {
        if ok {
            self.committed = self.committed + 1;
        } else {
            self.failed = Some(self.committed);
        }
    }

    /// Whether the run is over.
    pub fn is_finished(&self) -> (r: bool)
        requires
            self.wf(),
        ensures
            r == is_finished(self@),
    {
        self.failed.is_some() || self.committed >= self.n_chunks
    }

    /// How many batches have been committed.
    pub fn committed(&self) -> (r: usize)
        ensures
            r as nat == self@.committed,
    {
        self.committed
    }
}

} // verus!
