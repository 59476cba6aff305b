//! The bounds of the search for a new volatility. The search itself is
//! numeric and the caller's; what the library decides is when it goes on,
//! when it is over, and when it has failed.

use vstd::prelude::*;
use crate::binary64::Binary64;
use crate::engine::UpdateFailure;

verus! {

/// What the update of a period is run with.
#[derive(Clone, Copy, Debug, PartialEq, Eq, Structural)]
pub struct SolverSettings {
    /// The system constant: how fast the volatility may change.
    pub tau: Binary64,
    /// The search is over once two successive iterates are closer than this.
    pub tolerance: Binary64,
    /// The number of iterations that one player's search may take.
    pub max_iterations: u32,
}

impl SolverSettings {
    /// The system constant and the tolerance are finite and greater than zero.
    pub open spec fn valid(self) -> bool {
        self.tau.positive() && self.tolerance.positive()
    }

    /// Whether the system constant and the tolerance are finite and greater
    /// than zero.
    pub fn is_valid(&self) -> (valid: bool)
        ensures
            valid == self.valid(),
    {
        self.tau.is_positive() && self.tolerance.is_positive()
    }
}

/// Accepts an estimated variance only where it is finite and greater than
/// zero: anything else would carry a division by zero or a NaN into the
/// rating, and is the failure of a degenerate variance.
pub fn accept_variance(variance: Binary64) -> (accepted: Result<Binary64, UpdateFailure>)
    ensures
        accepted == if variance.positive() {
            Ok::<Binary64, UpdateFailure>(variance)
        } else {
            Err::<Binary64, UpdateFailure>(UpdateFailure::DegenerateVariance)
        },
{
    if variance.is_positive() {
        Ok(variance)
    } else {
        Err(UpdateFailure::DegenerateVariance)
    }
}

/// What the search does next.
#[derive(Clone, Copy, Debug, PartialEq, Eq, Structural)]
pub enum SearchStep {
    /// Not there yet, and an iteration is left: take it.
    Iterate,
    /// The iterates have met: the search is over and its value stands.
    Converged,
    /// Not there yet, and no iteration is left: the search has failed, and
    /// its last iterate is no result.
    Exhausted,
}

/// The iterations of one player's search: how many were taken, and how many
/// may be taken at most.
#[derive(Clone, Copy, Debug, PartialEq, Eq, Structural)]
pub struct IterationBudget {
    pub used: u32,
    pub limit: u32,
}

impl IterationBudget {
    /// The step that the budget answers with, given whether the iterates have met.
    pub open spec fn answer(self, converged: bool) -> SearchStep {
        if converged {
            SearchStep::Converged
        } else if self.used < self.limit {
            SearchStep::Iterate
        } else {
            SearchStep::Exhausted
        }
    }

    /// The budget after the answer: one more iteration is taken where the
    /// search goes on.
    pub open spec fn after(self, converged: bool) -> IterationBudget {
        if self.answer(converged) == SearchStep::Iterate {
            IterationBudget { used: (self.used + 1) as u32, limit: self.limit }
        } else {
            self
        }
    }

    /// A fresh budget of `limit` iterations.
    pub fn new(limit: u32) -> (budget: IterationBudget)
        ensures
            budget == (IterationBudget { used: 0, limit }),
    {
        IterationBudget { used: 0, limit }
    }

    /// Decides the next step of the search. `converged` says whether the last
    /// two iterates are within the tolerance. A search that has converged is
    /// over, whatever is left of the budget. One that has not goes on while an
    /// iteration is left, and is given up as failed once none is.
    ///
    /// No budget grants more iterations than its limit: where `used` is within
    /// the limit before the step, it is so after it.
    pub fn step(&mut self, converged: bool) -> (next: SearchStep)
        ensures
            next == old(self).answer(converged),
            *final(self) == old(self).after(converged),
            old(self).used <= old(self).limit ==> final(self).used <= final(self).limit,
    {
        if converged {
            SearchStep::Converged
        } else if self.used < self.limit {
            self.used = self.used + 1;
            SearchStep::Iterate
        } else {
            SearchStep::Exhausted
        }
    }
}

/// The budget after a run of steps, `events` telling for each step whether
/// the iterates had met.
pub open spec fn budget_after(budget: IterationBudget, events: Seq<bool>) -> IterationBudget
    decreases events.len(),
{
    if events.len() == 0 {
        budget
    } else {
        budget_after(budget, events.drop_last()).after(events.last())
    }
}

/// However long a search is kept going, it takes no more iterations than its
/// limit; and once the budget is used up, a search that has not converged is
/// given up.
pub proof fn lemma_budget_bounds_search(limit: u32, events: Seq<bool>)
    ensures
        budget_after(IterationBudget { used: 0, limit }, events).limit == limit,
        budget_after(IterationBudget { used: 0, limit }, events).used <= limit,
        budget_after(IterationBudget { used: 0, limit }, events).used <= events.len(),
        budget_after(IterationBudget { used: 0, limit }, events).used == limit ==> budget_after(
            IterationBudget { used: 0, limit },
            events,
        ).answer(false) == SearchStep::Exhausted,
    decreases events.len(),
{
    if events.len() > 0 {
        lemma_budget_bounds_search(limit, events.drop_last());
    }
}

} // verus!
