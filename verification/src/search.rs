//! The integer decisions of the bias experiments: the search for the bias at which
//! opinion 1 starts to lose, the stop rule of repeated unbiased runs, and the tally
//! of winners. Biases are counted in hundredths: `bias == k` stands for `k / 100`.
use vstd::prelude::*;

verus! {

/// The state of the bias search: the bias under test (in hundredths), the number of
/// runs lost in a row at it, and the first bias at which a run was lost, if any.
#[derive(PartialEq, Eq, Structural, Clone, Copy, Debug)]
pub struct BiasSearch {
    pub bias: usize,
    pub count: usize,
    pub first: usize,
    pub found: bool,
}

/// The search starts at bias 0, with no run lost.
pub fn search_start() -> (s: BiasSearch)
    ensures
        s == (BiasSearch { bias: 0, count: 0, first: 0, found: false }),
{
    BiasSearch { bias: 0, count: 0, first: 0, found: false }
}

/// The search after a run at bias `s.bias` that `winner` won, and whether it stops.
/// A run not won by opinion 1 counts as lost: the losses in a row grow, the first
/// losing bias is kept, and the search stops once `needed_count` runs were lost in a
/// row. A run won by opinion 1 resets the losses and raises the bias by a hundredth.
/// The search also stops once the bias is above 100 hundredths.
pub fn search_step(s: BiasSearch, winner: usize, needed_count: usize) -> (res: (BiasSearch, bool))
    requires
        s.count < usize::MAX,
        s.bias < usize::MAX,
    ensures
        winner != 1 ==> res.0 == (BiasSearch {
            count: (s.count + 1) as usize,
            first: if s.found { s.first } else { s.bias },
            found: true,
            ..s
        }) && res.1 == (s.count + 1 >= needed_count || s.bias > 100),
        winner == 1 ==> res.0 == (BiasSearch { count: 0, bias: (s.bias + 1) as usize, ..s })
            && res.1 == (s.bias + 1 > 100),
{
    let mut next = s;
    if winner != 1 {
        next.count = s.count + 1;
        if !s.found {
            next.first = s.bias;
            next.found = true;
        }
        if next.count >= needed_count {
            return (next, true);
        }
    } else {
        next.count = 0;
        next.bias = s.bias + 1;
    }
    (next, next.bias > 100)
}

/// Whether repeated unbiased runs stop after a run of `steps` steps won by `winner`:
/// when opinion 1 did not win, or the run took 500 000 000 steps or more.
pub fn unbiased_run_failed(steps: usize, winner: usize) -> (failed: bool)
    ensures
        failed == (winner != 1 || steps >= 500_000_000),
{
    winner != 1 || steps >= 500_000_000
}

/// The winners counted over the runs of one bias: runs that ended undecided (or at
/// the step limit), and runs won by opinion 1.
#[derive(PartialEq, Eq, Structural, Clone, Copy, Debug)]
pub struct Tally {
    pub undecided: usize,
    pub opinion1: usize,
}

/// The tally after a run of `steps` steps won by `winner`: a run won by the
/// undecided or reaching `undecided_limit` steps counts as undecided, else one won
/// by opinion 1 counts for opinion 1, and any other run is not counted.
pub fn tally_run(t: Tally, steps: usize, winner: usize, undecided_limit: usize) -> (n: Tally)
    requires
        t.undecided < usize::MAX,
        t.opinion1 < usize::MAX,
    ensures
        n == if winner == 0 || steps >= undecided_limit {
            Tally { undecided: (t.undecided + 1) as usize, ..t }
        } else if winner == 1 {
            Tally { opinion1: (t.opinion1 + 1) as usize, ..t }
        } else {
            t
        },
{
    if winner == 0 || steps >= undecided_limit {
        Tally { undecided: t.undecided + 1, opinion1: t.opinion1 }
    } else if winner == 1 {
        Tally { undecided: t.undecided, opinion1: t.opinion1 + 1 }
    } else {
        t
    }
}

} // verus!
