//! Admission scheduler: runs a list of download requests with at most a
//! fixed number in flight, hands each exactly one output path, and collects
//! exactly one outcome per request.

use vstd::prelude::*;
use crate::resolve::{answered, candidate, joined, pick_output_path, MAX_PROBES};
use crate::naming::{file_name_for, file_name_from_url, parsed_url, Source};
use crate::transfer::TransferError;

verus! {

/// The final result of one download request.
#[derive(Clone, Debug, PartialEq, Eq)]
pub enum TransferOutcome {
    /// Saved at this path.
    Success { path: String },
    /// Failed, after the retries that were allowed.
    Failure { source: String, error: TransferError },
}

/// Number of `true` entries.
pub open spec fn count_true(s: Seq<bool>) -> nat
    decreases s.len(),
{
    if s.len() == 0 {
        0
    } else {
        count_true(s.drop_last()) + if s.last() { 1nat } else { 0nat }
    }
}

proof fn lemma_count_update(s: Seq<bool>, i: int, v: bool)
    requires
        0 <= i < s.len(),
    ensures
        count_true(s.update(i, v)) + (if s[i] { 1nat } else { 0nat }) == count_true(s) + (if v { 1nat } else { 0nat }),
    decreases s.len(),
{
    let t = s.update(i, v);
    if i == s.len() - 1 {
        assert(t.drop_last() =~= s.drop_last());
    } else {
        assert(t.drop_last() =~= s.drop_last().update(i, v));
        lemma_count_update(s.drop_last(), i, v);
    }
}

proof fn lemma_count_none(s: Seq<bool>)
    requires
        forall|i: int| 0 <= i < s.len() ==> !s[i],
    ensures
        count_true(s) == 0,
    decreases s.len(),
{
    if s.len() > 0 {
        lemma_count_none(s.drop_last());
    }
}

proof fn lemma_count_zero(s: Seq<bool>, i: int)
    requires
        count_true(s) == 0,
        0 <= i < s.len(),
    ensures
        !s[i],
    decreases s.len(),
{
    if i < s.len() - 1 {
        lemma_count_zero(s.drop_last(), i);
    }
}

/// The text `p` is one of `v`.
pub open spec fn holds_path(v: Seq<String>, p: Seq<char>) -> bool {
    exists|i: int| 0 <= i < v.len() && (#[trigger] v[i])@ == p
}

/// `p` counts as taken in a run that has handed out `claimed`: it was
/// handed out already, or the probe reported it existing.
pub open spec fn taken_in_run<F: Fn(&String) -> bool>(claimed: Seq<String>, is_taken: &F, p: Seq<char>) -> bool {
    holds_path(claimed, p) || answered(is_taken, p, true)
}

/// `p` counts as free in a run that has handed out `claimed`: not handed
/// out yet, and the probe reported it absent.
pub open spec fn free_in_run<F: Fn(&String) -> bool>(claimed: Seq<String>, is_taken: &F, p: Seq<char>) -> bool {
    !holds_path(claimed, p) && answered(is_taken, p, false)
}

/// The path handed out for `base` in `dir` without overwriting: `dir/base`
/// when free; else the first numbered alternative that is free, all lower
/// ones being taken; else, every alternative being taken, `dir/base`.
pub open spec fn claim_result<F: Fn(&String) -> bool>(
    claimed: Seq<String>,
    is_taken: &F,
    dir: Seq<char>,
    base: Seq<char>,
    r: Seq<char>,
) -> bool {
    let first = joined(dir, base);
    ||| r == first && free_in_run(claimed, is_taken, first)
    ||| taken_in_run(claimed, is_taken, first) && exists|k: nat|
        1 <= k <= MAX_PROBES && r == candidate(dir, base, k) && free_in_run(
            claimed,
            is_taken,
            candidate(dir, base, k),
        ) && forall|j: nat|
            1 <= j < k ==> #[trigger] taken_in_run(claimed, is_taken, candidate(dir, base, j))
    ||| r == first && taken_in_run(claimed, is_taken, first) && forall|j: nat|
        1 <= j <= MAX_PROBES ==> #[trigger] taken_in_run(claimed, is_taken, candidate(dir, base, j))
}

/// Without overwriting, a claim never hands out a path that this run has
/// handed out before, except in the fallback where `dir/base` and every
/// numbered alternative are taken.
pub proof fn lemma_claims_distinct<F: Fn(&String) -> bool>(
    claimed: Seq<String>,
    is_taken: &F,
    dir: Seq<char>,
    base: Seq<char>,
    r: Seq<char>,
    i: int,
)
    requires
        claim_result(claimed, is_taken, dir, base, r),
        0 <= i < claimed.len(),
        claimed[i]@ == r,
    ensures
        r == joined(dir, base),
        forall|j: nat|
            1 <= j <= MAX_PROBES ==> #[trigger] taken_in_run(claimed, is_taken, candidate(dir, base, j)),
{
    assert(holds_path(claimed, r));
}

fn contains_path(v: &Vec<String>, p: &String) -> (b: bool)
    ensures
        b == holds_path(v@, p@),
{
    let mut i: usize = 0;
    while i < v.len()
        invariant
            i <= v@.len(),
            forall|j: int| 0 <= j < i ==> (#[trigger] v@[j])@ != p@,
        decreases v@.len() - i,
    {
        if v[i] == *p {
            return true;
        }
        i = i + 1;
    }
    false
}

/// Admission state of one run over `total` requests.
///
/// Requests are admitted in order. A request holds one permit from its
/// admission until its outcome is reported; at most `limit` permits are
/// held at any time.
pub struct Scheduler {
    limit: usize,
    next: usize,
    in_flight: usize,
    running: Vec<bool>,
    outcomes: Vec<Option<TransferOutcome>>,
    claimed: Vec<String>,
}

impl Scheduler {
    /// Most permits held at once.
    pub closed spec fn limit(&self) -> nat {
        self.limit as nat
    }

    /// Number of requests in the run.
    pub closed spec fn total(&self) -> nat {
        self.outcomes@.len()
    }

    /// Requests admitted so far (they are admitted in order).
    pub closed spec fn admitted(&self) -> nat {
        self.next as nat
    }

    /// Request `i` holds a permit.
    pub closed spec fn holds_permit(&self, i: int) -> bool {
        self.running@[i]
    }

    /// Permits held now.
    pub closed spec fn permits_held(&self) -> nat {
        self.in_flight as nat
    }

    /// Outcome reported for request `i`, if any.
    pub closed spec fn outcome_of(&self, i: int) -> Option<TransferOutcome> {
        self.outcomes@[i]
    }

    /// Output paths handed out so far.
    pub closed spec fn claimed(&self) -> Seq<String> {
        self.claimed@
    }

    pub closed spec fn wf(&self) -> bool {
        &&& self.limit >= 1
        &&& self.running@.len() == self.outcomes@.len()
        &&& self.next <= self.outcomes@.len()
        &&& self.in_flight == count_true(self.running@)
        &&& self.in_flight <= self.limit
        &&& forall|i: int| self.next <= i < self.outcomes@.len() ==> !self.running@[i] && self.outcomes@[i] is None
        &&& forall|i: int| 0 <= i < self.next ==> (self.running@[i] <==> self.outcomes@[i] is None)
    }

    /// A run over `total` requests with at most `limit` in flight; a limit of
    /// zero is an invalid configuration and gives `None`.
    pub fn new(total: usize, limit: usize) -> (r: Option<Scheduler>)
        ensures
            r is None <==> limit == 0,
            r matches Some(s) ==> s.wf() && s.limit() == limit && s.total() == total && s.admitted()
                == 0 && s.permits_held() == 0 && s.claimed().len() == 0,
    {
        if limit == 0 {
            return None;
        }
        let mut running: Vec<bool> = Vec::new();
        let mut outcomes: Vec<Option<TransferOutcome>> = Vec::new();
        let mut i: usize = 0;
        while i < total
            invariant
                i <= total,
                running@.len() == i,
                outcomes@.len() == i,
                forall|j: int| 0 <= j < i ==> !running@[j] && outcomes@[j] is None,
            decreases total - i,
        {
            running.push(false);
            outcomes.push(None);
            i = i + 1;
        }
        proof {
            lemma_count_none(running@);
        }
        Some(Scheduler { limit, next: 0, in_flight: 0, running, outcomes, claimed: Vec::new() })
    }

    /// Admits the next request when one is waiting and a permit is free,
    /// and returns its index; otherwise admits nothing and returns `None`.
    pub fn try_admit(&mut self) -> (r: Option<usize>)
        requires
            old(self).wf(),
        ensures
            final(self).wf(),
            final(self).limit() == old(self).limit(),
            final(self).total() == old(self).total(),
            final(self).claimed() == old(self).claimed(),
            forall|i: int| 0 <= i < old(self).total() ==> final(self).outcome_of(i) == old(self).outcome_of(i),
            r is Some <==> old(self).admitted() < old(self).total() && old(self).permits_held()
                < old(self).limit(),
            r matches Some(i) ==> i == old(self).admitted() && final(self).admitted() == i + 1
                && final(self).permits_held() == old(self).permits_held() + 1
                && final(self).holds_permit(i as int)
                && forall|j: int| 0 <= j < old(self).total() && j != i ==> final(self).holds_permit(j)
                    == old(self).holds_permit(j),
            r is None ==> final(self).admitted() == old(self).admitted() && final(self).permits_held()
                == old(self).permits_held()
                && forall|j: int| 0 <= j < old(self).total() ==> final(self).holds_permit(j)
                    == old(self).holds_permit(j),
    {
        if self.next < self.outcomes.len() && self.in_flight < self.limit {
            let i = self.next;
            proof {
                lemma_count_update(self.running@, i as int, true);
            }
            self.running.set(i, true);
            self.next = i + 1;
            self.in_flight = self.in_flight + 1;
            Some(i)
        } else {
            None
        }
    }

    /// Records the outcome of admitted request `index` and releases its
    /// permit. Every other request keeps its state and outcome.
    pub fn complete(&mut self, index: usize, outcome: TransferOutcome)
        requires
            old(self).wf(),
            index < old(self).total(),
            old(self).holds_permit(index as int),
        ensures
            final(self).wf(),
            final(self).limit() == old(self).limit(),
            final(self).total() == old(self).total(),
            final(self).admitted() == old(self).admitted(),
            final(self).claimed() == old(self).claimed(),
            final(self).permits_held() == old(self).permits_held() - 1,
            !final(self).holds_permit(index as int),
            final(self).outcome_of(index as int) == Some(outcome),
            forall|j: int| 0 <= j < old(self).total() && j != index ==> final(self).outcome_of(j)
                == old(self).outcome_of(j) && final(self).holds_permit(j) == old(self).holds_permit(j),
    {
        proof {
            lemma_count_update(self.running@, index as int, false);
            if index >= self.next {
                assert(!self.running@[index as int]);
            }
        }
        self.running.set(index, false);
        self.outcomes.set(index, Some(outcome));
        self.in_flight = self.in_flight - 1;
        assert(forall|i: int| 0 <= i < self.next ==> (self.running@[i] <==> self.outcomes@[i] is None));
        assert(self.in_flight == count_true(self.running@));
        assert(self.running@.len() == self.outcomes@.len());
        assert(forall|i: int| self.next <= i < self.outcomes@.len() ==> !self.running@[i] && self.outcomes@[i] is None);
    }

    /// Every request has been admitted and has reported its outcome.
    pub fn is_finished(&self) -> (r: bool)
        requires
            self.wf(),
        ensures
            r == (self.admitted() == self.total() && self.permits_held() == 0),
            r ==> forall|i: int| 0 <= i < self.total() ==> self.outcome_of(i) is Some,
    {
        let r = self.next == self.outcomes.len() && self.in_flight == 0;
        if r {
            assert forall|i: int| 0 <= i < self.total() implies self.outcome_of(i) is Some by {
                lemma_count_zero(self.running@, i);
            }
        }
        r
    }

    /// The outcomes of a finished run, one per request, in request order.
    pub fn into_outcomes(self) -> (r: Vec<TransferOutcome>)
        requires
            self.wf(),
            self.admitted() == self.total(),
            self.permits_held() == 0,
        ensures
            r@.len() == self.total(),
            forall|i: int| 0 <= i < r@.len() ==> self.outcome_of(i) == Some(#[trigger] r@[i]),
    {
        let ghost all = self.outcomes@;
        proof {
            assert forall|i: int| 0 <= i < all.len() implies all[i] is Some by {
                lemma_count_zero(self.running@, i);
            }
        }
        let mut rest = self.outcomes;
        let mut r: Vec<TransferOutcome> = Vec::new();
        while rest.len() > 0
            invariant
                r@.len() + rest@.len() == all.len(),
                rest@ == all.subrange(r@.len() as int, all.len() as int),
                forall|i: int| 0 <= i < r@.len() ==> all[i] == Some(#[trigger] r@[i]),
                forall|i: int| 0 <= i < all.len() ==> all[i] is Some,
            decreases rest@.len(),
        {
            let ghost k = r@.len();
            let o = rest.remove(0);
            assert(o == all[k as int]);
            match o {
                Some(x) => r.push(x),
                None => {
                    assert(false);
                },
            }
            assert(rest@ =~= all.subrange(r@.len() as int, all.len() as int));
        }
        r
    }

    /// Prepares admitted request `raw` for transfer: parses the locator,
    /// derives the file name from it, and hands out the output path once,
    /// before any attempt. A locator that does not parse fails here.
    pub fn prepare<F: Fn(&String) -> bool>(
        &mut self,
        raw: &str,
        dir: &str,
        overwrite: bool,
        is_taken: &F,
    ) -> (r: Result<(Source, String), TransferError>)
        requires
            old(self).wf(),
            forall|p: &String| call_requires(*is_taken, (p,)),
        ensures
            final(self).wf(),
            final(self).limit() == old(self).limit(),
            final(self).total() == old(self).total(),
            final(self).admitted() == old(self).admitted(),
            final(self).permits_held() == old(self).permits_held(),
            forall|i: int| 0 <= i < old(self).total() ==> final(self).outcome_of(i) == old(self).outcome_of(i)
                && final(self).holds_permit(i) == old(self).holds_permit(i),
            r is Ok <==> parsed_url(raw@) is Some,
            r matches Err(e) ==> (e matches TransferError::InvalidSource { source, .. } && source@
                == raw@) && final(self).claimed() == old(self).claimed(),
            r matches Ok((src, path)) ==> parsed_url(raw@) == Some((src.href@, src.path@))
                && final(self).claimed() == old(self).claimed().push(path)
                && (overwrite ==> path@ == joined(dir@, file_name_for(src.path@)))
                && (!overwrite ==> claim_result(
                old(self).claimed(),
                is_taken,
                dir@,
                file_name_for(src.path@),
                path@,
            )),
    {
        let src = match Source::parse(raw) {
            Ok(s) => s,
            Err(e) => {
                return Err(e);
            },
        };
        let name = file_name_from_url(&src);
        let path = self.claim_target(dir, name.as_str(), overwrite, is_taken);
        Ok((src, path))
    }

    /// Permits held never exceed the limit, in any state the run can reach.
    pub proof fn lemma_permits_within_limit(&self)
        requires
            self.wf(),
        ensures
            self.permits_held() <= self.limit(),
            self.limit() >= 1,
    {
    }

    /// A request holds a permit only between its admission and the report
    /// of its outcome: exactly the admitted requests without an outcome
    /// hold one.
    pub proof fn lemma_permit_until_outcome(&self, i: int)
        requires
            self.wf(),
            0 <= i < self.total(),
        ensures
            self.holds_permit(i) <==> i < self.admitted() && self.outcome_of(i) is None,
    {
    }

    /// Hands out the output path for a download of `base` into `dir`:
    /// a path already handed out in this run counts as taken, just as one
    /// that `is_taken` reports existing. With `overwrite` the path is
    /// `dir/base`. The path is recorded as handed out.
    pub fn claim_target<F: Fn(&String) -> bool>(
        &mut self,
        dir: &str,
        base: &str,
        overwrite: bool,
        is_taken: &F,
    ) -> (r: String)
        requires
            old(self).wf(),
            forall|p: &String| call_requires(*is_taken, (p,)),
        ensures
            final(self).wf(),
            final(self).limit() == old(self).limit(),
            final(self).total() == old(self).total(),
            final(self).admitted() == old(self).admitted(),
            final(self).permits_held() == old(self).permits_held(),
            forall|i: int| 0 <= i < old(self).total() ==> final(self).outcome_of(i) == old(self).outcome_of(i)
                && final(self).holds_permit(i) == old(self).holds_permit(i),
            final(self).claimed() == old(self).claimed().push(r),
            overwrite ==> r@ == joined(dir@, base@),
            !overwrite ==> claim_result(old(self).claimed(), is_taken, dir@, base@, r@),
    {
        let claimed = &self.claimed;
        let probe = |p: &String| -> (b: bool)
            requires
                call_requires(is_taken, (p,)),
            ensures
                b ==> holds_path(claimed@, p@) || call_ensures(is_taken, (p,), true),
                !b ==> !holds_path(claimed@, p@) && call_ensures(is_taken, (p,), false),
            {
                contains_path(claimed, p) || is_taken(p)
            };
        let r = pick_output_path(dir, base, overwrite, &probe);
        proof {
            assert forall|x: Seq<char>| answered(&probe, x, true) implies taken_in_run(
                claimed@,
                is_taken,
                x,
            ) by {
                let s = choose|s: String| s@ == x && call_ensures(probe, (&s,), true);
                if !holds_path(claimed@, x) {
                    assert(call_ensures(*is_taken, (&s,), true));
                }
            }
            assert forall|x: Seq<char>| answered(&probe, x, false) implies free_in_run(
                claimed@,
                is_taken,
                x,
            ) by {
                let s = choose|s: String| s@ == x && call_ensures(probe, (&s,), false);
                assert(call_ensures(*is_taken, (&s,), false));
            }
            let first = joined(dir@, base@);
            if !overwrite && !(r@ == first && answered(&probe, first, false)) {
                if exists|k: nat|
                    1 <= k <= MAX_PROBES && r@ == candidate(dir@, base@, k) && answered(
                        &probe,
                        candidate(dir@, base@, k),
                        false,
                    ) && forall|j: nat|
                        1 <= j < k ==> #[trigger] answered(&probe, candidate(dir@, base@, j), true) {
                    let k = choose|k: nat|
                        1 <= k <= MAX_PROBES && r@ == candidate(dir@, base@, k) && answered(
                            &probe,
                            candidate(dir@, base@, k),
                            false,
                        ) && forall|j: nat|
                            1 <= j < k ==> #[trigger] answered(&probe, candidate(dir@, base@, j), true);
                    assert(free_in_run(claimed@, is_taken, candidate(dir@, base@, k)));
                    assert forall|j: nat| 1 <= j < k implies #[trigger] taken_in_run(
                        claimed@,
                        is_taken,
                        candidate(dir@, base@, j),
                    ) by {
                        assert(answered(&probe, candidate(dir@, base@, j), true));
                    }
                    assert(taken_in_run(claimed@, is_taken, first));
                } else {
                    assert forall|j: nat| 1 <= j <= MAX_PROBES implies #[trigger] taken_in_run(
                        claimed@,
                        is_taken,
                        candidate(dir@, base@, j),
                    ) by {
                        assert(answered(&probe, candidate(dir@, base@, j), true));
                    }
                    assert(taken_in_run(claimed@, is_taken, first));
                }
            }
        }
        self.claimed.push(r.clone());
        r
    }
}

} // verus!
