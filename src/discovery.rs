//! The convergence loop of fail-then-add discovery, as a state machine.
//!
//! The caller runs the loop: before each probe it escalates its own credentials
//! when `should_escalate` says so, runs the prober, and hands the result to
//! `observe`. The returned step says which policy to revoke, whether to enforce
//! the adopted policy before the next probe, and whether discovery has ended.

use vstd::prelude::*;
use crate::policy::{empty_model, same_requirements, Policy, PolicyModel};

verus! {

/// What discovery does after a probe.
#[derive(Clone, Copy, Debug, PartialEq, Eq, Structural)]
pub enum Outcome {
    /// Probe again.
    Probe,
    /// The adopted policy is final.
    Converged,
    /// The command keeps failing: discovery has failed.
    DidNotConverge,
}

/// The actions that follow a probe.
#[derive(Debug)]
pub struct Step {
    /// A policy enforced earlier, to be revoked now.
    pub revoke: Option<Policy>,
    /// Whether the adopted policy is to be enforced, and its capabilities added to
    /// the prober, before the next probe.
    pub enforce: bool,
    /// Whether discovery goes on.
    pub outcome: Outcome,
}

/// The state of a discovery session.
#[derive(Debug)]
pub struct Discovery {
    /// The policy adopted from the last probe.
    pub current: Policy,
    /// Number of consecutive probes whose report required the same as the adopted policy.
    pub stable_count: u64,
    /// Whether the last probe failed.
    pub last_failed: bool,
    /// Whether no probe has been observed yet.
    pub first: bool,
    /// Whether discovery has ended.
    pub done: bool,
}

/// The mathematical content of a discovery session.
pub struct DiscoveryModel {
    pub current: PolicyModel,
    pub stable_count: nat,
    pub last_failed: bool,
    pub first: bool,
    pub done: bool,
}

impl View for Discovery {
    type V = DiscoveryModel;

    open spec fn view(&self) -> DiscoveryModel {
        DiscoveryModel {
            current: self.current@,
            stable_count: self.stable_count as nat,
            last_failed: self.last_failed,
            first: self.first,
            done: self.done,
        }
    }
}

/// Whether a session that has not ended holds at most one repeat.
pub open spec fn model_wf(s: DiscoveryModel) -> bool {
    s.done || (s.stable_count <= 1 && (s.stable_count == 1 ==> s.last_failed))
}

/// Whether the probe fails right after a failed probe: the retry, escalated, failed
/// again, which ends discovery with a failure.
pub open spec fn aborts(s: DiscoveryModel, failed: bool) -> bool {
    s.last_failed && failed
}

/// The outcome of a probe that reported `p`.
pub open spec fn next_outcome(s: DiscoveryModel, failed: bool, p: PolicyModel) -> Outcome {
    if aborts(s, failed) {
        Outcome::DidNotConverge
    } else if !failed && same_requirements(p, s.current) {
        Outcome::Converged
    } else {
        Outcome::Probe
    }
}

/// The session after a probe that reported `p`: `p` is adopted, and the repeat count
/// grows when `p` requires the same as the policy adopted before (stamped identities
/// aside), else starts again from zero.
pub open spec fn next_state(s: DiscoveryModel, failed: bool, p: PolicyModel) -> DiscoveryModel {
    DiscoveryModel {
        current: p,
        stable_count: if aborts(s, failed) {
            s.stable_count
        } else if same_requirements(p, s.current) {
            s.stable_count + 1
        } else {
            0
        },
        last_failed: failed,
        first: false,
        done: next_outcome(s, failed, p) != Outcome::Probe,
    }
}

/// The policy revoked after a probe: the one adopted before, unless none was.
pub open spec fn revoked(s: DiscoveryModel, failed: bool) -> Option<PolicyModel> {
    if aborts(s, failed) || !s.first {
        Some(s.current)
    } else {
        None
    }
}

/// Whether the adopted policy is enforced after a probe: when the probe failed and
/// discovery goes on.
pub open spec fn enforced(s: DiscoveryModel, failed: bool) -> bool {
    failed && !aborts(s, failed)
}

impl Discovery {
    /// Whether the state is consistent.
    pub open spec fn wf(&self) -> bool {
        self.current.wf() && model_wf(self@)
    }

    /// A session that has adopted the empty policy and observed no probe.
    pub fn new() -> (r: Discovery)
        ensures
            r.wf(),
            r@ == (DiscoveryModel {
                current: empty_model(),
                stable_count: 0,
                last_failed: false,
                first: true,
                done: false,
            }),
    {
        Discovery { current: Policy::empty(), stable_count: 0, last_failed: false, first: true, done: false }
    }

    /// Whether the next probe is a retry after a failed probe, for which the caller
    /// first takes the superuser's credentials.
    pub fn should_escalate(&self) -> (r: bool)
        ensures
            r == self.last_failed,
    {
        self.last_failed
    }

    /// Takes the result of a probe: whether it failed and the policy it reported.
    pub fn observe(&mut self, failed: bool, discovered: Policy) -> (r: Step)
        requires
            old(self).wf(),
            !old(self).done,
            discovered.wf(),
        ensures
            final(self).wf(),
            final(self)@ == next_state(old(self)@, failed, discovered@),
            r.outcome == next_outcome(old(self)@, failed, discovered@),
            r.enforce == enforced(old(self)@, failed),
            match revoked(old(self)@, failed) {
                Some(m) => r.revoke is Some && r.revoke->Some_0@ == m && r.revoke->Some_0.wf(),
                None => r.revoke is None,
            },
    {
        let abort = self.last_failed && failed;
        let same = discovered.same_requirements_as(&self.current);
        let mut previous = discovered;
        core::mem::swap(&mut self.current, &mut previous);
        let revoke = if abort || !self.first { Some(previous) } else { None };
        let outcome = if abort {
            Outcome::DidNotConverge
        } else if !failed && same {
            Outcome::Converged
        } else {
            Outcome::Probe
        };
        if !abort {
            self.stable_count = if same { self.stable_count + 1 } else { 0 };
        }
        self.last_failed = failed;
        self.first = false;
        self.done = outcome != Outcome::Probe;
        Step { revoke, enforce: failed && !abort, outcome }
    }
}

/// Two failing probes in a row end discovery with a failure, whatever they report; the
/// retry in between is escalated.
pub proof fn lemma_repeated_failure_ends(s: DiscoveryModel, p: PolicyModel, q: PolicyModel)
    requires
        model_wf(s),
        !s.done,
    ensures
        next_outcome(s, true, p) == Outcome::DidNotConverge || {
            &&& next_outcome(s, true, p) == Outcome::Probe
            &&& next_state(s, true, p).last_failed
            &&& next_outcome(next_state(s, true, p), true, q) == Outcome::DidNotConverge
        },
{
}

/// Once the probes report one fixed policy, discovery ends within three probes,
/// whichever of them fail.
pub proof fn lemma_fixed_report_ends(s: DiscoveryModel, p: PolicyModel, f1: bool, f2: bool, f3: bool)
    requires
        model_wf(s),
        !s.done,
    ensures
        next_outcome(s, f1, p) != Outcome::Probe || {
            let s1 = next_state(s, f1, p);
            next_outcome(s1, f2, p) != Outcome::Probe || next_outcome(next_state(s1, f2, p), f3, p)
                != Outcome::Probe
        },
{
}

/// The session after observing each probe of `reports` (whether it failed, what it
/// reported) in turn, stopping once discovery has ended.
pub open spec fn run_probes(s: DiscoveryModel, reports: Seq<(bool, PolicyModel)>) -> DiscoveryModel
    decreases reports.len(),
{
    if reports.len() == 0 || s.done {
        s
    } else {
        run_probes(next_state(s, reports[0].0, reports[0].1), reports.drop_first())
    }
}

proof fn lemma_next_wf(s: DiscoveryModel, failed: bool, p: PolicyModel)
    requires
        model_wf(s),
        !s.done,
    ensures
        model_wf(next_state(s, failed, p)),
{
}

/// Discovery ends within three probes of the point from which the probes report one
/// fixed policy, whichever probes fail: when the requirements are finite and each
/// failure reveals more of them, the reports stop changing and the loop is bounded.
pub proof fn lemma_bounded_iterations(s: DiscoveryModel, reports: Seq<(bool, PolicyModel)>, k: int)
    requires
        model_wf(s),
        0 <= k,
        k + 3 <= reports.len(),
        forall|i: int| k <= i < reports.len() ==> (#[trigger] reports[i]).1 == reports[k].1,
    ensures
        run_probes(s, reports).done,
    decreases k,
{
    if s.done {
        return;
    }
    let s1 = next_state(s, reports[0].0, reports[0].1);
    let rest = reports.drop_first();
    assert(run_probes(s, reports) == run_probes(s1, rest));
    lemma_next_wf(s, reports[0].0, reports[0].1);
    if k > 0 {
        assert forall|i: int| k - 1 <= i < rest.len() implies (#[trigger] rest[i]).1 == rest[k - 1].1 by {
            assert(rest[i] == reports[i + 1]);
            assert(rest[k - 1] == reports[k]);
        }
        lemma_bounded_iterations(s1, rest, k - 1);
    } else {
        let p = reports[0].1;
        assert(reports[1].1 == p && reports[2].1 == p);
        lemma_fixed_report_ends(s, p, reports[0].0, reports[1].0, reports[2].0);
        if !s1.done {
            let s2 = next_state(s1, rest[0].0, rest[0].1);
            let rest2 = rest.drop_first();
            assert(rest[0] == reports[1]);
            assert(rest2[0] == reports[2]);
            assert(run_probes(s1, rest) == run_probes(s2, rest2));
            if !s2.done {
                let s3 = next_state(s2, rest2[0].0, rest2[0].1);
                assert(s3.done);
                assert(run_probes(s2, rest2) == run_probes(s3, rest2.drop_first()));
                lemma_run_done(s3, rest2.drop_first());
            } else {
                lemma_run_done(s2, rest2);
            }
        } else {
            lemma_run_done(s1, rest);
        }
    }
}

proof fn lemma_run_done(s: DiscoveryModel, reports: Seq<(bool, PolicyModel)>)
    requires
        s.done,
    ensures
        run_probes(s, reports) == s,
{
}

/// Whether `rank` grades `reports` by how much of a requirement set of size `n` they
/// reveal: at most `n`, never decreasing, and growing whenever the report changes,
/// starting from `prev` for the report `current` before the first.
pub open spec fn revealed_by(
    reports: Seq<(bool, PolicyModel)>,
    rank: Seq<nat>,
    n: nat,
    current: PolicyModel,
    prev: nat,
) -> bool {
    &&& rank.len() == reports.len()
    &&& prev <= n
    &&& forall|i: int| 0 <= i < rank.len() ==> #[trigger] rank[i] <= n
    &&& (reports.len() > 0 ==> rank[0] >= prev && (!same_requirements(reports[0].1, current) ==> rank[0] > prev))
    &&& forall|i: int|
        0 <= i < reports.len() - 1 ==> rank[i + 1] >= #[trigger] rank[i] && (!same_requirements(
            reports[i + 1].1,
            reports[i].1,
        ) ==> rank[i + 1] > rank[i])
}

proof fn lemma_monotone_run(
    s: DiscoveryModel,
    reports: Seq<(bool, PolicyModel)>,
    rank: Seq<nat>,
    n: nat,
    prev: nat,
)
    requires
        model_wf(s),
        revealed_by(reports, rank, n, s.current, prev),
        reports.len() >= 2 * (n - prev) + (if s.last_failed { 1nat } else { 2nat }),
    ensures
        run_probes(s, reports).done,
    decreases reports.len(),
{
    if s.done {
        return;
    }
    let s1 = next_state(s, reports[0].0, reports[0].1);
    let rest = reports.drop_first();
    assert(run_probes(s, reports) == run_probes(s1, rest));
    lemma_next_wf(s, reports[0].0, reports[0].1);
    if s1.done {
        lemma_run_done(s1, rest);
        return;
    }
    let rest_rank = rank.drop_first();
    assert(revealed_by(rest, rest_rank, n, s1.current, rank[0])) by {
        assert forall|i: int| 0 <= i < rest_rank.len() implies #[trigger] rest_rank[i] <= n by {
            assert(rest_rank[i] == rank[i + 1]);
        }
        assert forall|i: int| 0 <= i < rest.len() - 1 implies rest_rank[i + 1] >= #[trigger] rest_rank[i]
            && (!same_requirements(rest[i + 1].1, rest[i].1) ==> rest_rank[i + 1] > rest_rank[i]) by {
            assert(rest_rank[i] == rank[i + 1] && rest_rank[i + 1] == rank[i + 2]);
            assert(rest[i] == reports[i + 1] && rest[i + 1] == reports[i + 2]);
        }
        if rest.len() > 0 {
            assert(rest[0] == reports[1] && rest_rank[0] == rank[1]);
        }
    }
    lemma_monotone_run(s1, rest, rest_rank, n, rank[0]);
}

/// Whether `rank` grades `reports` by how much of a requirement set of size `n` they
/// reveal: at most `n`, never decreasing, and growing whenever the report changes.
pub open spec fn reveals_monotonically(reports: Seq<(bool, PolicyModel)>, rank: Seq<nat>, n: nat) -> bool {
    &&& rank.len() == reports.len()
    &&& forall|i: int| 0 <= i < rank.len() ==> #[trigger] rank[i] <= n
    &&& forall|i: int|
        0 <= i < reports.len() - 1 ==> rank[i + 1] >= #[trigger] rank[i] && (!same_requirements(
            reports[i + 1].1,
            reports[i].1,
        ) ==> rank[i + 1] > rank[i])
}

/// Discovery ends within `2 * n + 3` probes when the probes reveal a requirement set
/// of size `n` monotonically. Two failures in a row end it, and a success goes on only
/// when its report changed, so each requirement revealed costs at most a failing and
/// a succeeding probe.
pub proof fn lemma_bounded_by_requirements(
    s: DiscoveryModel,
    reports: Seq<(bool, PolicyModel)>,
    rank: Seq<nat>,
    n: nat,
)
    requires
        model_wf(s),
        reports.len() >= 2 * n + 3,
        reveals_monotonically(reports, rank, n),
    ensures
        run_probes(s, reports).done,
{
    if s.done {
        return;
    }
    let s1 = next_state(s, reports[0].0, reports[0].1);
    let rest = reports.drop_first();
    assert(run_probes(s, reports) == run_probes(s1, rest));
    lemma_next_wf(s, reports[0].0, reports[0].1);
    if s1.done {
        lemma_run_done(s1, rest);
        return;
    }
    let rest_rank = rank.drop_first();
    assert(rank[0] <= n);
    assert(revealed_by(rest, rest_rank, n, s1.current, rank[0])) by {
        assert forall|i: int| 0 <= i < rest_rank.len() implies #[trigger] rest_rank[i] <= n by {
            assert(rest_rank[i] == rank[i + 1]);
        }
        assert forall|i: int| 0 <= i < rest.len() - 1 implies rest_rank[i + 1] >= #[trigger] rest_rank[i]
            && (!same_requirements(rest[i + 1].1, rest[i].1) ==> rest_rank[i + 1] > rest_rank[i]) by {
            assert(rest_rank[i] == rank[i + 1] && rest_rank[i + 1] == rank[i + 2]);
            assert(rest[i] == reports[i + 1] && rest[i + 1] == reports[i + 2]);
        }
        assert(rest[0] == reports[1] && rest_rank[0] == rank[1]);
        assert(rank[1] >= rank[0]);
    }
    lemma_monotone_run(s1, rest, rest_rank, n, rank[0]);
}

/// A command whose probes all fail ends discovery with a failure by its second probe,
/// whatever the probes report.
pub proof fn lemma_always_failing_ends(s: DiscoveryModel, reports: Seq<(bool, PolicyModel)>)
    requires
        model_wf(s),
        !s.done,
        reports.len() >= 2,
        forall|i: int| 0 <= i < reports.len() ==> (#[trigger] reports[i]).0,
    ensures
        run_probes(s, reports).done,
        run_probes(s, reports).current == reports[0].1 || run_probes(s, reports).current == reports[1].1,
{
    let s1 = next_state(s, reports[0].0, reports[0].1);
    let rest = reports.drop_first();
    assert(run_probes(s, reports) == run_probes(s1, rest));
    if s1.done {
        lemma_run_done(s1, rest);
    } else {
        assert(rest[0] == reports[1]);
        let s2 = next_state(s1, rest[0].0, rest[0].1);
        assert(run_probes(s1, rest) == run_probes(s2, rest.drop_first()));
        assert(s2.done);
        lemma_run_done(s2, rest.drop_first());
    }
}

/// A succeeding probe that requires the same as the adopted policy ends discovery with
/// that policy.
pub proof fn lemma_stable_success_converges(s: DiscoveryModel, p: PolicyModel)
    requires
        !s.done,
        same_requirements(p, s.current),
    ensures
        next_outcome(s, false, p) == Outcome::Converged,
        next_state(s, false, p).current == p,
        next_state(s, false, p).done,
{
}

} // verus!
