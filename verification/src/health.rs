use vstd::prelude::*;

use crate::conf::HealthCheck;

verus! {

/// Health of one address, with the count of consecutive results that speak
/// against its current state.
#[derive(Debug, Clone, Copy, PartialEq, Eq, Structural)]
pub enum Health {
    Healthy { failures: usize },
    Unhealthy { successes: usize },
}

impl Default for Health {
    /// A newly seen address is unhealthy and has no successes yet.
    fn default() -> (h: Self)
        ensures
            h == (Health::Unhealthy { successes: 0 }),
    {
        Health::Unhealthy { successes: 0 }
    }
}

impl Health {
    /// Whether the address counts as healthy.
    pub open spec fn spec_is_up(self) -> bool {
        self is Healthy
    }

    /// The counter the variant carries.
    pub open spec fn counter(self) -> usize {
        match self {
            Health::Healthy { failures } => failures,
            Health::Unhealthy { successes } => successes,
        }
    }

    /// The health after one more check result, with `up` consecutive
    /// successes needed to become healthy and `down` consecutive failures
    /// needed to become unhealthy.
    pub open spec fn next(self, success: bool, up: usize, down: usize) -> Health {
        match self {
            Health::Healthy { failures } => if success {
                Health::Healthy { failures: 0 }
            } else if failures + 1 >= down {
                Health::Unhealthy { successes: 0 }
            } else {
                Health::Healthy { failures: (failures + 1) as usize }
            },
            Health::Unhealthy { successes } => if !success {
                Health::Unhealthy { successes: 0 }
            } else if successes + 1 >= up {
                Health::Healthy { failures: 0 }
            } else {
                Health::Unhealthy { successes: (successes + 1) as usize }
            },
        }
    }

    /// A counter never stands at or above the threshold it counts towards
    /// (a zero counter is always allowed).
    pub open spec fn within(self, up: usize, down: usize) -> bool {
        match self {
            Health::Healthy { failures } => failures == 0 || failures < down,
            Health::Unhealthy { successes } => successes == 0 || successes < up,
        }
    }

    pub fn is_up(&self) -> (r: bool)
        ensures
            r == self.spec_is_up(),
    {
        match self {
            Health::Healthy { .. } => true,
            Health::Unhealthy { .. } => false,
        }
    }

    /// Records one check result under the thresholds of `policy`.
    pub fn add_result(&self, success: bool, policy: &HealthCheck) -> (r: Health)
        requires
            success && self is Unhealthy ==> self.counter() < usize::MAX,
            !success && self is Healthy ==> self.counter() < usize::MAX,
        ensures
            r == self.next(success, policy.checks_to_up, policy.checks_to_down),
            success && self.spec_is_up() ==> r.spec_is_up(),
            !success && !self.spec_is_up() ==> !r.spec_is_up(),
    {
        match self {
            Health::Healthy { failures } => {
                if success {
                    Health::Healthy { failures: 0 }
                } else {
                    let failures = *failures + 1;
                    if failures >= policy.checks_to_down {
                        Health::Unhealthy { successes: 0 }
                    } else {
                        Health::Healthy { failures }
                    }
                }
            },
            Health::Unhealthy { successes } => {
                if !success {
                    Health::Unhealthy { successes: 0 }
                } else {
                    let successes = *successes + 1;
                    if successes >= policy.checks_to_up {
                        Health::Healthy { failures: 0 }
                    } else {
                        Health::Unhealthy { successes }
                    }
                }
            },
        }
    }
}


/// The health after the results in `results`, oldest first.
pub open spec fn after_results(h: Health, results: Seq<bool>, up: usize, down: usize) -> Health
    decreases results.len(),
{
    if results.len() == 0 {
        h
    } else {
        after_results(h, results.drop_last(), up, down).next(results.last(), up, down)
    }
}

/// `n` results that are all `success`.
pub open spec fn repeated(success: bool, n: nat) -> Seq<bool> {
    Seq::new(n, |i: int| success)
}

/// The smallest run of results that can change a state: a threshold of
/// zero acts as one.
pub open spec fn run_needed(threshold: usize) -> nat {
    if threshold == 0 { 1 } else { threshold as nat }
}

/// No result moves the health the wrong way: a success never turns a
/// healthy address unhealthy, and a failure never turns an unhealthy
/// address healthy.
pub proof fn lemma_results_never_push_backwards(h: Health, up: usize, down: usize)
    ensures
        h.spec_is_up() ==> h.next(true, up, down).spec_is_up(),
        !h.spec_is_up() ==> !h.next(false, up, down).spec_is_up(),
{
}

/// A state whose counter lies below its threshold keeps it so after any
/// result, and such a state can always take another result.
pub proof fn lemma_counters_stay_within(h: Health, success: bool, up: usize, down: usize)
    requires
        h.within(up, down),
    ensures
        h.counter() < usize::MAX,
        h.next(success, up, down).within(up, down),
{
}

proof fn lemma_successes_from_fresh(up: usize, down: usize, n: nat)
    ensures
        after_results(Health::Unhealthy { successes: 0 }, repeated(true, n), up, down) == (if n
            >= run_needed(up) {
            Health::Healthy { failures: 0 }
        } else {
            Health::Unhealthy { successes: n as usize }
        }),
    decreases n,
{
    if n > 0 {
        assert(repeated(true, n).drop_last() =~= repeated(true, (n - 1) as nat));
        lemma_successes_from_fresh(up, down, (n - 1) as nat);
    }
}

/// An address seen for the first time becomes healthy after exactly
/// `checks_to_up` consecutive successes (one, when the threshold is zero),
/// and not before.
pub proof fn lemma_checks_to_up_successes_make_healthy(up: usize, down: usize, n: nat)
    ensures
        after_results(Health::Unhealthy { successes: 0 }, repeated(true, n), up, down).spec_is_up()
            <==> n >= run_needed(up),
{
    lemma_successes_from_fresh(up, down, n);
}

proof fn lemma_failures_from_healthy(up: usize, down: usize, n: nat)
    ensures
        after_results(Health::Healthy { failures: 0 }, repeated(false, n), up, down) == (if n
            >= run_needed(down) {
            Health::Unhealthy { successes: 0 }
        } else {
            Health::Healthy { failures: n as usize }
        }),
    decreases n,
{
    if n > 0 {
        assert(repeated(false, n).drop_last() =~= repeated(false, (n - 1) as nat));
        lemma_failures_from_healthy(up, down, (n - 1) as nat);
    }
}

/// A freshly healthy address becomes unhealthy after exactly
/// `checks_to_down` consecutive failures (one, when the threshold is zero),
/// and not before.
pub proof fn lemma_checks_to_down_failures_make_unhealthy(up: usize, down: usize, n: nat)
    ensures
        !after_results(Health::Healthy { failures: 0 }, repeated(false, n), up, down).spec_is_up()
            <==> n >= run_needed(down),
{
    lemma_failures_from_healthy(up, down, n);
}

} // verus!
