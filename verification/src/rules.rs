//! The transition rule of the undecided-state dynamics.
use vstd::prelude::*;

verus! {

/// The opinion of undecided agents.
pub const UNDECIDED: usize = 0;

/// The opinion an initiator holding `i` holds after it meets a responder holding `r`:
/// an undecided initiator adopts a decided responder's opinion; a decided initiator
/// that meets a different decided opinion becomes undecided; otherwise nothing changes.
/// The responder never changes.
pub open spec fn usd_outcome(i: usize, r: usize) -> usize {
    if i == UNDECIDED && r != UNDECIDED {
        r
    } else if i != r && r != UNDECIDED {
        UNDECIDED
    } else {
        i
    }
}

/// No agent switches directly between two decided opinions: a decided initiator
/// either keeps its opinion or becomes undecided, and an undecided initiator either
/// stays undecided or takes the responder's opinion.
pub proof fn lemma_no_direct_switch(i: usize, r: usize)
    ensures
        i != UNDECIDED ==> usd_outcome(i, r) == i || usd_outcome(i, r) == UNDECIDED,
        i == UNDECIDED ==> usd_outcome(i, r) == UNDECIDED || usd_outcome(i, r) == r,
{
}

/// Agents that agree stay as they are: an initiator meeting its own opinion keeps it.
pub proof fn lemma_agreement_is_stable(o: usize)
    ensures
        usd_outcome(o, o) == o,
{
}

/// The rule case by case, for every pair of opinions: an undecided initiator takes
/// any decided responder's opinion; a decided initiator meeting any other decided
/// opinion becomes undecided; meeting an undecided responder or its own opinion, it
/// keeps its opinion.
pub proof fn lemma_usd_rule(i: usize, r: usize)
    ensures
        i == UNDECIDED && r != UNDECIDED ==> usd_outcome(i, r) == r,
        i != UNDECIDED && r != UNDECIDED && i != r ==> usd_outcome(i, r) == UNDECIDED,
        r == UNDECIDED ==> usd_outcome(i, r) == i,
        i == r ==> usd_outcome(i, r) == i,
{
}

} // verus!
