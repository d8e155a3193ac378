//! The histogram-based simulation: only the number of agents per opinion is kept,
//! in a dynamic weighted index, and interacting agents are drawn by drawing
//! opinions with probability proportional to their support.
use vstd::prelude::*;
use rand::rngs::ThreadRng;
use crate::counting::{count, histogram, sum, lemma_entry_le_sum, lemma_count_le_len, lemma_count_pos, lemma_count_update, lemma_sum_take, lemma_sum_update, lemma_sum_zeros, lemma_two_entries_le_sum};
use crate::rng::thread_rng;
use crate::rules::{usd_outcome, UNDECIDED};
use crate::usd::{after_transition, counts_match, lemma_run_laws, runs_to, stepped, PopulationState};
use crate::weighted_index::{
    index_weights, new_index, sample_index_and_weight, set_weight, total_weight, weight, MAX_ELEMENTS,
    WeightedIndex,
};

verus! {

/// The simulation state: the support of each opinion (index `0` is the undecided),
/// the number of opinions and of agents, the steps taken, the step budget, whether
/// the run is over, and the random generator used to draw interactions.
pub struct Population {
    dyn_idx: WeightedIndex,
    opinions: usize,
    agents: usize,
    finished: bool,
    steps: usize,
    rng: ThreadRng,
    max: usize,
}

/// The step budget a fresh population starts with.
pub const DEFAULT_MAX: u64 = 5_000_000_000;

/// An opinion as drawn: its id and the number of agents that held it when drawn.
pub struct Opinion {
    pub id: usize,
    pub number: usize,
}

/// What a [`Population`] is, mathematically.
pub struct FastState {
    /// `weights[o]` agents hold opinion `o`.
    pub weights: Seq<usize>,
    pub opinions: nat,
    pub agents: nat,
    pub finished: bool,
    pub steps: nat,
    pub max: nat,
}

impl View for Population {
    type V = FastState;

    closed spec fn view(&self) -> FastState {
        FastState {
            weights: index_weights(self.dyn_idx),
            opinions: self.opinions as nat,
            agents: self.agents as nat,
            finished: self.finished,
            steps: self.steps as nat,
            max: self.max as nat,
        }
    }
}

/// `o` is a faithful draw from `s`: an opinion that some agent holds, with its support.
pub open spec fn is_drawn_from(s: FastState, o: Opinion) -> bool {
    &&& o.id < s.weights.len()
    &&& o.number == s.weights[o.id as int]
    &&& o.number > 0
}

/// The supports after an agent of opinion `i` initiated with an agent of opinion `r`:
/// if the USD rule changes the initiator's opinion, one agent moves from `i` to the
/// new opinion.
pub open spec fn usd_weights(w: Seq<usize>, i: usize, r: usize) -> Seq<usize> {
    moved_weights(w, i, usd_outcome(i, r))
}

/// The supports after one agent of opinion `i` took opinion `o` (none moves if `o == i`).
pub open spec fn moved_weights(w: Seq<usize>, i: usize, o: usize) -> Seq<usize> {
    if o == i {
        w
    } else {
        w.update(i as int, (w[i as int] - 1) as usize).update(o as int, (w[o as int] + 1) as usize)
    }
}

/// Some opinion is held by every agent.
pub open spec fn has_consensus(s: FastState) -> bool {
    exists|o: int| 0 <= o < s.weights.len() && #[trigger] s.weights[o] >= s.agents
}

/// `t` is `s` after the initiator's opinion `i` met the responder's opinion `r`,
/// with `steps` the step count checked against the budget.
pub open spec fn interacted(s: FastState, t: FastState, i: usize, r: usize) -> bool {
    moved(s, t, i, usd_outcome(i, r))
}

/// `t` is `s` after an agent of opinion `i` took opinion `o`, with `steps` the step
/// count checked against the budget: the run is over if an agent moved and its new
/// opinion now holds every agent, or the budget is spent.
pub open spec fn moved(s: FastState, t: FastState, i: usize, o: usize) -> bool {
    &&& t.weights == moved_weights(s.weights, i, o)
    &&& t.opinions == s.opinions
    &&& t.agents == s.agents
    &&& t.steps == s.steps
    &&& t.max == s.max
    &&& t.finished == (s.finished || (o != i && (t.weights[o as int] >= s.agents || s.steps
        >= s.max)))
}

/// The supports `v` are reached from the supports `w` by `n` interactions, each
/// between opinions held by some agent.
pub open spec fn weights_reach(w: Seq<usize>, v: Seq<usize>, n: nat) -> bool
    decreases n,
{
    if n == 0 {
        v == w
    } else {
        exists|m: Seq<usize>, i: usize, r: usize|
            #![trigger usd_weights(m, i, r)]
            weights_reach(w, m, (n - 1) as nat) && i < m.len() && m[i as int] > 0 && r < m.len()
                && m[r as int] > 0 && v == usd_weights(m, i, r)
    }
}

/// Opinion `o` is held by some agent in `s`.
pub open spec fn supported(s: FastState, o: usize) -> bool {
    o < s.weights.len() && s.weights[o as int] > 0
}

/// `t` is reached from `s` by `n` counted interactions, each between opinions held
/// by some agent and each taken while the run was not over.
pub open spec fn fast_runs_to(s: FastState, t: FastState, n: nat) -> bool
    decreases n,
{
    if n == 0 {
        t == s
    } else {
        exists|m: FastState, i: usize, r: usize|
            #![trigger interacted(counted(m), t, i, r)]
            fast_runs_to(s, m, (n - 1) as nat) && !m.finished && supported(m, i) && supported(m, r)
                && interacted(counted(m), t, i, r)
    }
}

/// The state that [`run`] starts from: the population of `dist` with the budget `max`.
pub open spec fn fast_start(dist: Seq<usize>, max: usize) -> FastState {
    FastState {
        weights: dist,
        opinions: dist.len(),
        agents: sum(dist),
        finished: false,
        steps: 0,
        max: max as nat,
    }
}

/// Some agent holds a decided opinion.
pub open spec fn has_decided(w: Seq<usize>) -> bool {
    exists|d: int| 0 < d < w.len() && #[trigger] w[d] > 0
}

impl Population {
    /// The invariant: one weight per opinion (at most [`MAX_ELEMENTS`] opinions), and
    /// the weights add up to the number of agents (which fits in a `usize`).
    pub open spec fn wf(&self) -> bool {
        &&& self@.weights.len() == self@.opinions
        &&& self@.opinions <= MAX_ELEMENTS
        &&& sum(self@.weights) == self@.agents
        &&& self@.agents <= usize::MAX
    }
}

impl Population {
    /// Builds the start from `opinion_dist` (`opinion_dist[o]` agents hold opinion
    /// `o`, index `0` being the undecided), no step taken, and the step budget
    /// [`DEFAULT_MAX`] (as a `usize`). At most [`MAX_ELEMENTS`] opinions: the weighted
    /// index may fail beyond.
    pub fn setup(opinion_dist: Vec<usize>) -> (p: Self)
        requires
            sum(opinion_dist@) <= usize::MAX,
            opinion_dist.len() <= MAX_ELEMENTS,
        ensures
            p.wf(),
            p@.weights == opinion_dist@,
            p@.opinions == opinion_dist.len(),
            p@.agents == sum(opinion_dist@),
            !p@.finished,
            p@.steps == 0,
            p@.max == DEFAULT_MAX as usize,
    {
        let opinions = opinion_dist.len();
        let mut dyn_idx: WeightedIndex = new_index(opinions);
        let mut opinion: usize = 0;
        proof {
            lemma_sum_zeros(opinions as nat);
        }
        while opinion < opinion_dist.len()
            invariant
                opinions == opinion_dist.len(),
                opinions <= MAX_ELEMENTS,
                opinion <= opinions,
                sum(opinion_dist@) <= usize::MAX,
                index_weights(dyn_idx) == Seq::new(opinions as nat, |k: int| if k < opinion { opinion_dist@[k] } else { 0usize }),
                sum(index_weights(dyn_idx)) == sum(opinion_dist@.take(opinion as int)),
            decreases opinions - opinion,
        {
            let weight = opinion_dist[opinion];
            proof {
                let w = index_weights(dyn_idx);
                lemma_sum_update(w, opinion as int, weight);
                assert(opinion_dist@.take(opinion + 1).drop_last() =~= opinion_dist@.take(opinion as int));
                lemma_sum_take(opinion_dist@, opinion + 1);
            }
            set_weight(&mut dyn_idx, opinion, weight);
            opinion = opinion + 1;
            proof {
                assert(index_weights(dyn_idx) =~= Seq::new(opinions as nat, |k: int| if k < opinion { opinion_dist@[k] } else { 0usize }));
            }
        }
        proof {
            assert(index_weights(dyn_idx) =~= opinion_dist@);
            assert(opinion_dist@.take(opinions as int) =~= opinion_dist@);
        }
        let agents = total_weight(&dyn_idx);
        Population {
            dyn_idx,
            opinions,
            agents,
            finished: false,
            steps: 0,
            rng: thread_rng(),
            max: DEFAULT_MAX as usize,
        }
    }
}

/// `s` with one more step counted.
pub open spec fn counted(s: FastState) -> FastState {
    FastState { steps: s.steps + 1, ..s }
}

impl Population {
    /// Draws an opinion with probability proportional to its support (that is, the
    /// opinion of an agent drawn uniformly), with its support. Whatever comes, it is
    /// a faithful draw and the state stays.
    pub(crate) fn get_opinion(&mut self) -> (o: Opinion)
        requires
            old(self).wf(),
            old(self)@.agents > 0,
        ensures
            final(self)@ == old(self)@,
            is_drawn_from(final(self)@, o),
    {
        let result = sample_index_and_weight(&self.dyn_idx, &mut self.rng).unwrap();
        Opinion { id: result.0, number: result.1 }
    }

    /// The undecided opinion with its support.
    fn get_undecided_opinion(&self) -> (o: Opinion)
        requires
            self@.weights.len() > 0,
        ensures
            o.id == UNDECIDED,
            o.number == self@.weights[UNDECIDED as int],
    {
        Opinion { id: UNDECIDED, number: weight(&self.dyn_idx, UNDECIDED) }
    }

    /// Moves one agent from `old_opinion` to `new_opinion` (given with the supports
    /// they have now), and declares the run over if the new opinion now holds every
    /// agent or the budget is spent. Returns the new opinion's support.
    pub(crate) fn update_opinion(&mut self, old_opinion: Opinion, new_opinion: Opinion) -> (n: usize)
        requires
            old(self).wf(),
            is_drawn_from(old(self)@, old_opinion),
            new_opinion.id < old(self)@.weights.len(),
            new_opinion.number == old(self)@.weights[new_opinion.id as int],
            old_opinion.id != new_opinion.id,
        ensures
            final(self).wf(),
            n == new_opinion.number + 1,
            final(self)@.weights == old(self)@.weights.update(old_opinion.id as int, (old_opinion.number - 1) as usize).update(
                new_opinion.id as int, n),
            final(self)@.finished == (old(self)@.finished || n >= old(self)@.agents || old(self)@.steps
                >= old(self)@.max),
            final(self)@.opinions == old(self)@.opinions,
            final(self)@.agents == old(self)@.agents,
            final(self)@.steps == old(self)@.steps,
            final(self)@.max == old(self)@.max,
    {
        let ghost w = self@.weights;
        proof {
            lemma_two_entries_le_sum(w, old_opinion.id as int, new_opinion.id as int);
            lemma_sum_update(w, old_opinion.id as int, (old_opinion.number - 1) as usize);
            let w1 = w.update(old_opinion.id as int, (old_opinion.number - 1) as usize);
            lemma_sum_update(w1, new_opinion.id as int, (new_opinion.number + 1) as usize);
        }
        set_weight(&mut self.dyn_idx, old_opinion.id, old_opinion.number - 1);
        set_weight(&mut self.dyn_idx, new_opinion.id, new_opinion.number + 1);
        if (new_opinion.number + 1) >= self.agents || self.steps >= self.max {
            self.finished = true;
        }
        new_opinion.number + 1
    }

    /// Moves one agent from `old_opinion` to the undecided.
    pub(crate) fn make_undecided(&mut self, old_opinion: Opinion)
        requires
            old(self).wf(),
            is_drawn_from(old(self)@, old_opinion),
            old_opinion.id != UNDECIDED,
        ensures
            final(self).wf(),
            final(self)@.weights == old(self)@.weights.update(old_opinion.id as int, (old_opinion.number - 1) as usize).update(
                UNDECIDED as int, (old(self)@.weights[UNDECIDED as int] + 1) as usize),
            final(self)@.finished == (old(self)@.finished || old(self)@.weights[UNDECIDED as int] + 1
                >= old(self)@.agents || old(self)@.steps >= old(self)@.max),
            final(self)@.opinions == old(self)@.opinions,
            final(self)@.agents == old(self)@.agents,
            final(self)@.steps == old(self)@.steps,
            final(self)@.max == old(self)@.max,
    {
        let undecided = self.get_undecided_opinion();
        self.update_opinion(old_opinion, undecided);
    }

    /// The initiator (opinion `initiator`) meets the responder (opinion
    /// `responder`): an undecided initiator adopts a decided responder's opinion, a
    /// decided initiator meeting another decided opinion becomes undecided. Both are
    /// draws from the current state.
    pub fn basic_usd(&mut self, initiator: Opinion, responder: Opinion)
        requires
            old(self).wf(),
            is_drawn_from(old(self)@, initiator),
            is_drawn_from(old(self)@, responder),
        ensures
            final(self).wf(),
            interacted(old(self)@, final(self)@, initiator.id, responder.id),
    {
        let i = initiator.id;
        let r = responder.id;
        let ghost pre = self@;
        if i == UNDECIDED && r != UNDECIDED {
            self.update_opinion(initiator, responder);
        } else if i != r && r != UNDECIDED {
            proof {
                lemma_two_entries_le_sum(pre.weights, i as int, UNDECIDED as int);
            }
            self.make_undecided(initiator);
        }
    }

    /// One interaction: two opinions are drawn (each an agent's, drawn uniformly),
    /// the step is counted, and the initiator follows the USD rule. Whatever is
    /// drawn, both are opinions held by some agent and the new state is the old one
    /// [`interacted`] with them.
    pub fn step(&mut self)
        requires
            old(self).wf(),
            old(self)@.agents > 0,
            old(self)@.steps < usize::MAX,
        ensures
            final(self).wf(),
            exists|i: usize, r: usize|
                #![trigger interacted(counted(old(self)@), final(self)@, i, r)]
                i < old(self)@.weights.len() && r < old(self)@.weights.len()
                && old(self)@.weights[i as int] > 0 && old(self)@.weights[r as int] > 0
                && interacted(counted(old(self)@), final(self)@, i, r),
    {
        let initiator = self.get_opinion();
        let responder = self.get_opinion();
        self.steps = self.steps + 1;
        self.basic_usd(initiator, responder);
        assert(interacted(counted(old(self)@), self@, initiator.id, responder.id));
    }
}

impl Population {
    /// Draws an opinion with probability proportional to its support, with a fresh
    /// generator: once some opinion holds every agent, that opinion. Whatever comes,
    /// it is an opinion that some agent holds.
    pub fn get_winner(&self) -> (w: usize)
        requires
            self.wf(),
            self@.agents > 0,
        ensures
            w < self@.weights.len(),
            self@.weights[w as int] > 0,
    {
        let mut rng = thread_rng();
        let result = sample_index_and_weight(&self.dyn_idx, &mut rng).unwrap();
        result.0
    }

    /// Sets the step budget.
    pub fn set_max(&mut self, max: usize)
        ensures
            final(self)@ == (FastState { max: max as nat, ..old(self)@ }),
    {
        self.max = max;
    }

    /// Steps until the run is over, then returns the number of steps and a winner
    /// drawn as by [`Population::get_winner`]. A run over once some opinion holds
    /// every agent or, after the budget is spent, at the next change of opinion.
    /// The step counter never wraps: at `usize::MAX` steps the run stops there.
    pub fn run(&mut self) -> (res: (usize, usize))
        requires
            old(self).wf(),
            old(self)@.agents > 0,
        ensures
            final(self).wf(),
            final(self)@.finished || final(self)@.steps == usize::MAX,
            final(self)@.agents == old(self)@.agents,
            final(self)@.opinions == old(self)@.opinions,
            final(self)@.max == old(self)@.max,
            old(self)@.steps <= final(self)@.steps,
            old(self)@.finished ==> final(self)@ == old(self)@,
            !old(self)@.finished && final(self)@.finished ==> has_consensus(final(self)@)
                || final(self)@.steps >= old(self)@.max,
            !old(self)@.finished && old(self)@.steps < usize::MAX ==> old(self)@.steps < final(self)@.steps,
            fast_runs_to(old(self)@, final(self)@, (final(self)@.steps - old(self)@.steps) as nat),
            res.0 == final(self)@.steps,
            res.1 < final(self)@.weights.len(),
            final(self)@.weights[res.1 as int] > 0,
    {
        let ghost pre = self@;
        while self.finished == false && self.steps < usize::MAX
            invariant
                self.wf(),
                self@.agents == pre.agents,
                self@.opinions == pre.opinions,
                self@.max == pre.max,
                pre.agents > 0,
                pre.steps <= self@.steps,
                fast_runs_to(pre, self@, (self@.steps - pre.steps) as nat),
                pre.finished ==> self@ == pre,
                self@.finished && !pre.finished ==> has_consensus(self@) || self@.steps >= self@.max,
                !pre.finished && pre.steps < usize::MAX && self@.steps == pre.steps ==> !self@.finished,
            decreases usize::MAX - self@.steps,
        {
            let ghost before = self@;
            self.step();
            proof {
                let (i, r) = choose|i: usize, r: usize|
                    #![trigger interacted(counted(before), self@, i, r)]
                    i < before.weights.len() && r < before.weights.len()
                    && before.weights[i as int] > 0 && before.weights[r as int] > 0
                    && interacted(counted(before), self@, i, r);
                let n = (self@.steps - pre.steps) as nat;
                assert(fast_runs_to(pre, before, (n - 1) as nat) && !before.finished && supported(before, i)
                    && supported(before, r) && interacted(counted(before), self@, i, r));
                assert(fast_runs_to(pre, self@, n));
                if self@.finished && !before.finished {
                    let (i, r) = choose|i: usize, r: usize|
                        #![trigger interacted(counted(before), self@, i, r)]
                        i < before.weights.len() && r < before.weights.len()
                        && before.weights[i as int] > 0 && before.weights[r as int] > 0
                        && interacted(counted(before), self@, i, r);
                    let o = usd_outcome(i, r);
                    assert(o == i || o == r || o == UNDECIDED);
                    if self@.weights[o as int] >= self@.agents {
                        assert(0 <= o < self@.weights.len());
                    }
                }
            }
        }
        (self.steps, self.get_winner())
    }
}

impl Population {
    /// Counts one step.
    pub(crate) fn count_step(&mut self)
        requires
            old(self)@.steps < usize::MAX,
        ensures
            final(self)@ == counted(old(self)@),
    {
        self.steps = self.steps + 1;
    }
}

impl Population {
    /// The record of the current state: the step count, then the support of each
    /// opinion in order.
    pub fn to_array(&self) -> (v: Vec<usize>)
        requires
            self.wf(),
        ensures
            v@ == seq![self@.steps as usize] + self@.weights,
    {
        let mut vec: Vec<usize> = Vec::new();
        vec.push(self.steps);
        let mut i: usize = 0;
        while i < self.opinions
            invariant
                self.wf(),
                i <= self@.opinions,
                vec@ == seq![self@.steps as usize] + self@.weights.take(i as int),
            decreases self@.opinions - i,
        {
            let s = weight(&self.dyn_idx, i);
            vec.push(s);
            i = i + 1;
            proof {
                assert(vec@ =~= seq![self@.steps as usize] + self@.weights.take(i as int));
            }
        }
        proof {
            assert(self@.weights.take(i as int) =~= self@.weights);
        }
        vec
    }

    /// The number of steps taken.
    pub fn steps(&self) -> (n: usize)
        ensures
            n == self@.steps,
    {
        self.steps
    }

    /// The number of agents.
    pub fn agents(&self) -> (n: usize)
        ensures
            n == self@.agents,
    {
        self.agents
    }

    /// The number of opinions, the undecided included.
    pub fn opinions(&self) -> (n: usize)
        ensures
            n == self@.opinions,
    {
        self.opinions
    }

    /// Whether the run is over.
    pub fn finished(&self) -> (b: bool)
        ensures
            b == self@.finished,
    {
        self.finished
    }

    /// The support of opinion `o`.
    pub fn support(&self, o: usize) -> (n: usize)
        requires
            o < self@.weights.len(),
        ensures
            n == self@.weights[o as int],
    {
        weight(&self.dyn_idx, o)
    }
}

/// The histogram simulation is the agent simulation seen through its histogram:
/// when agent `i` initiates with agent `r`, the histogram of the agents' opinions
/// afterwards is the histogram before, updated by the USD rule on the two agents'
/// opinions.
pub proof fn lemma_histogram_commutes(s: PopulationState, n: nat, i: int, r: int)
    requires
        0 <= i < s.opinions.len(),
        0 <= r < s.opinions.len(),
        s.opinions.len() <= usize::MAX,
        forall|a: int| 0 <= a < s.opinions.len() ==> s.opinions[a] < n,
        n <= usize::MAX,
    ensures
        histogram(after_transition(s, i, r), n) == usd_weights(histogram(s.opinions, n), s.opinions[i], s.opinions[r]),
{
    let t = after_transition(s, i, r);
    let h = histogram(s.opinions, n);
    let oi = s.opinions[i];
    let o = usd_outcome(oi, s.opinions[r]);
    assert(o == oi || o == s.opinions[r] || o == UNDECIDED);
    assert forall|k: int| 0 <= k < n implies #[trigger] histogram(t, n)[k] == usd_weights(h, oi, s.opinions[r])[k] by {
        lemma_count_update(s.opinions, i, o, k as usize);
        lemma_count_le_len(t, k as usize);
        lemma_count_le_len(s.opinions, k as usize);
        lemma_count_pos(s.opinions, i);
        if o != oi {
            lemma_count_update(s.opinions, i, o, o);
            lemma_count_le_len(t, o);
        }
    }
    assert(histogram(t, n) =~= usd_weights(h, oi, s.opinions[r]));
}

/// Unanimity is stable: once one opinion holds every agent, interactions between
/// agents (opinions of positive support) change no support.
pub proof fn lemma_unanimity_is_stable(w: Seq<usize>, o: int, i: usize, r: usize)
    requires
        0 <= o < w.len(),
        w[o] == sum(w),
        i < w.len() && w[i as int] > 0,
        r < w.len() && w[r as int] > 0,
    ensures
        i == o && r == o,
        usd_weights(w, i, r) == w,
{
    if i != o {
        lemma_two_entries_le_sum(w, o, i as int);
    }
    if r != o {
        lemma_two_entries_le_sum(w, o, r as int);
    }
}

/// An interaction moves at most one agent and conserves the number of agents.
pub proof fn lemma_interaction_conserves_agents(w: Seq<usize>, i: usize, r: usize)
    requires
        i < w.len() && w[i as int] > 0,
        r < w.len(),
        sum(w) <= usize::MAX,
    ensures
        usd_weights(w, i, r).len() == w.len(),
        sum(usd_weights(w, i, r)) == sum(w),
{
    let o = usd_outcome(i, r);
    assert(o == i || o == r || o == UNDECIDED);
    if o != i && o < w.len() {
        lemma_two_entries_le_sum(w, i as int, o as int);
        let w1 = w.update(i as int, (w[i as int] - 1) as usize);
        lemma_sum_update(w, i as int, (w[i as int] - 1) as usize);
        lemma_sum_update(w1, o as int, (w[o as int] + 1) as usize);
    }
}

/// An opinion that no agent holds is never taken up by an interaction between held
/// opinions.
pub proof fn lemma_interaction_keeps_unsupported(w: Seq<usize>, i: usize, r: usize, o: int)
    requires
        i < w.len() && w[i as int] > 0,
        r < w.len() && w[r as int] > 0,
        0 < o < w.len(),
        w[o] == 0,
    ensures
        usd_weights(w, i, r)[o] == 0,
{
}

/// The population never becomes entirely undecided, and after an interaction that
/// moves an agent some agent is decided.
pub proof fn lemma_interaction_keeps_decided(w: Seq<usize>, i: usize, r: usize)
    requires
        i < w.len() && w[i as int] > 0,
        r < w.len() && w[r as int] > 0,
        has_decided(w) || usd_outcome(i, r) != i,
        sum(w) <= usize::MAX,
    ensures
        has_decided(usd_weights(w, i, r)),
{
    let o = usd_outcome(i, r);
    let v = usd_weights(w, i, r);
    lemma_interaction_conserves_agents(w, i, r);
    if o != i {
        if o == r {
            lemma_two_entries_le_sum(w, i as int, r as int);
            assert(v[r as int] > 0);
        } else {
            assert(v[r as int] == w[r as int]);
        }
    } else {
        let d = choose|d: int| 0 < d < w.len() && #[trigger] w[d] > 0;
        assert(v[d] > 0);
    }
}

/// Along a run: the agents, opinions and budget stay, the supports still add up to
/// the agents, the steps add up, no opinion without agents gains any, some agent
/// stays decided, and a run that became over after at least one step ended with an
/// agent decided and with consensus or the budget spent.
pub proof fn lemma_fast_run_laws(s: FastState, t: FastState, n: nat)
    requires
        fast_runs_to(s, t, n),
        sum(s.weights) == s.agents,
        s.agents <= usize::MAX,
    ensures
        t.agents == s.agents,
        t.opinions == s.opinions,
        t.max == s.max,
        t.weights.len() == s.weights.len(),
        sum(t.weights) == s.agents,
        t.steps == s.steps + n,
        weights_reach(s.weights, t.weights, n),
        forall|o: int| 0 < o < s.weights.len() && s.weights[o] == 0 ==> #[trigger] t.weights[o] == 0,
        has_decided(s.weights) ==> has_decided(t.weights),
        n > 0 && t.finished ==> has_decided(t.weights) && (has_consensus(t) || t.steps >= t.max),
    decreases n,
{
    if n > 0 {
        let (m, i, r) = choose|m: FastState, i: usize, r: usize|
            #![trigger interacted(counted(m), t, i, r)]
            fast_runs_to(s, m, (n - 1) as nat) && !m.finished && supported(m, i) && supported(m, r)
                && interacted(counted(m), t, i, r);
        lemma_fast_run_laws(s, m, (n - 1) as nat);
        lemma_interaction_conserves_agents(m.weights, i, r);
        assert(weights_reach(s.weights, m.weights, (n - 1) as nat) && t.weights == usd_weights(m.weights, i, r));
        assert forall|o: int| 0 < o < s.weights.len() && s.weights[o] == 0 implies #[trigger] t.weights[o] == 0 by {
            lemma_interaction_keeps_unsupported(m.weights, i, r, o);
        }
        if has_decided(s.weights) || t.finished {
            lemma_interaction_keeps_decided(m.weights, i, r);
        }
        if t.finished {
            let o = usd_outcome(i, r);
            assert(o == i || o == r || o == UNDECIDED);
            if t.weights[o as int] >= t.agents {
                assert(0 <= o < t.weights.len());
            }
        }
    }
}

/// What holds at the end of a run from `dist` with budget `max` that ended in `t`
/// with the winner `winner`: the run is over or the step counter is spent; the
/// supports still add up to the agents; the winner is held by some agent, and was at
/// the start unless it is the undecided; an opinion without agents at the start has
/// none; and a run that ended over before the budget ended in every agent holding the
/// winner, a decided opinion.
pub open spec fn fast_run_outcome(dist: Seq<usize>, max: usize, t: FastState, winner: usize) -> bool {
    &&& t.finished || t.steps == usize::MAX
    &&& t.weights.len() == dist.len()
    &&& sum(t.weights) == sum(dist)
    &&& winner < dist.len()
    &&& t.weights[winner as int] > 0
    &&& winner == UNDECIDED || dist[winner as int] > 0
    &&& forall|o: int| 0 < o < dist.len() && dist[o] == 0 ==> #[trigger] t.weights[o] == 0
    &&& t.finished && t.steps < max ==> winner != UNDECIDED && t.weights[winner as int] == sum(dist)
}

/// Runs the dynamics from `opinion_dist` (`opinion_dist[o]` agents hold opinion
/// `o`, index `0` being the undecided) with the step budget `max`, and returns the
/// number of steps taken (at least one) and a winner: an opinion held by some agent
/// at the end, drawn proportionally to its support. The steps are those of a run from
/// the start that ends as [`fast_run_outcome`] says. The distribution has at most
/// [`MAX_ELEMENTS`] opinions, and at least two of them held, without which the run
/// would never change.
pub fn run(opinion_dist: Vec<usize>, max: usize) -> (res: (usize, usize))
    requires
        0 < sum(opinion_dist@) <= usize::MAX,
        opinion_dist.len() <= MAX_ELEMENTS,
        exists|i: int, j: int| 0 <= i < j < opinion_dist.len() && #[trigger] opinion_dist[i] > 0 && #[trigger] opinion_dist[j] > 0,
    ensures
        1 <= res.0,
        res.1 < opinion_dist.len(),
        exists|t: FastState| #[trigger] fast_runs_to(fast_start(opinion_dist@, max), t, res.0 as nat)
            && fast_run_outcome(opinion_dist@, max, t, res.1),
{
    let mut alg = Population::setup(opinion_dist);
    alg.set_max(max);
    let ghost start = alg@;
    assert(start == fast_start(opinion_dist@, max));
    let result = alg.run();
    proof {
        let t = alg@;
        lemma_fast_run_laws(start, t, t.steps);
        assert forall|o: int| 0 < o < opinion_dist.len() && opinion_dist@[o] == 0 implies #[trigger] t.weights[o] == 0 by {
            assert(start.weights[o] == 0);
        }
        if result.1 != UNDECIDED {
            if opinion_dist@[result.1 as int] == 0 {
                assert(start.weights[result.1 as int] == 0);
            }
        }
        assert(t.steps > 0);
        if t.finished && t.steps < max {
            assert(has_decided(t.weights) && has_consensus(t));
            let o = choose|o: int| 0 <= o < t.weights.len() && #[trigger] t.weights[o] >= t.agents;
            lemma_entry_le_sum(t.weights, o);
            if result.1 != o {
                lemma_two_entries_le_sum(t.weights, o, result.1 as int);
            }
            let d = choose|d: int| 0 < d < t.weights.len() && #[trigger] t.weights[d] > 0;
            if d != o {
                lemma_two_entries_le_sum(t.weights, o, d);
            }
        }
        assert(fast_run_outcome(opinion_dist@, max, t, result.1));
    }
    result
}

/// The histogram simulation follows the agent simulation over whole runs: along a
/// run of the agent simulation, its histogram (over opinions below `k`, which holds
/// every key) moves by interactions between held opinions, as the supports of the
/// histogram simulation do ([`lemma_fast_run_laws`]).
pub proof fn lemma_agent_run_histograms(s: PopulationState, t: PopulationState, n: nat, k: nat)
    requires
        runs_to(s, t, n),
        counts_match(s),
        forall|o: usize| #[trigger] s.counts.contains_key(o) ==> o < k,
        k <= usize::MAX,
    ensures
        weights_reach(histogram(s.opinions, k), histogram(t.opinions, k), n),
    decreases n,
{
    if n > 0 {
        let (m, i, r) = choose|m: PopulationState, i: int, r: int|
            #![trigger stepped(m, t, i, r)]
            runs_to(s, m, (n - 1) as nat) && !m.finished && stepped(m, t, i, r);
        lemma_agent_run_histograms(s, m, (n - 1) as nat, k);
        lemma_run_laws(s, m, (n - 1) as nat);
        assert forall|a: int| 0 <= a < m.opinions.len() implies m.opinions[a] < k by {
            assert(m.counts.contains_key(m.opinions[a]));
        }
        lemma_histogram_commutes(m, k, i, r);
        let h = histogram(m.opinions, k);
        let oi = m.opinions[i];
        let or = m.opinions[r];
        lemma_count_pos(m.opinions, i);
        lemma_count_pos(m.opinions, r);
        lemma_count_le_len(m.opinions, oi);
        lemma_count_le_len(m.opinions, or);
        assert(h[oi as int] > 0 && h[or as int] > 0);
        assert(weights_reach(histogram(s.opinions, k), h, (n - 1) as nat) && histogram(t.opinions, k) == usd_weights(h, oi, or));
    }
}

/// What an agent moving from opinion `i` to opinion `o` does to the supports: none
/// changes if `o == i` (and the run is over only if it was); otherwise `i` loses one
/// agent, `o` gains one, every other support stays, and the run is over if it was,
/// if `o` now holds every agent, or if the budget is spent.
pub proof fn lemma_moved_supports(s: FastState, t: FastState, i: usize, o: usize)
    requires
        moved(s, t, i, o),
        i < s.weights.len() && s.weights[i as int] > 0,
        o < s.weights.len(),
        sum(s.weights) <= usize::MAX,
    ensures
        o == i ==> t.weights == s.weights && t.finished == s.finished,
        o != i ==> {
            &&& t.weights.len() == s.weights.len()
            &&& t.weights[i as int] + 1 == s.weights[i as int]
            &&& t.weights[o as int] == s.weights[o as int] + 1
            &&& forall|k: int| 0 <= k < s.weights.len() && k != i && k != o ==> #[trigger] t.weights[k]
                == s.weights[k]
            &&& t.finished == (s.finished || t.weights[o as int] >= s.agents || s.steps >= s.max)
        },
{
    if o != i {
        lemma_two_entries_le_sum(s.weights, i as int, o as int);
    }
}

/// What an interaction does to the supports, for every pair of held opinions: an
/// undecided initiator meeting any decided opinion `r` moves one agent from the
/// undecided to `r`; a decided initiator meeting any other decided opinion moves one
/// agent from its opinion to the undecided; meeting the undecided or its own opinion
/// changes nothing.
pub proof fn lemma_basic_usd_rule(s: FastState, t: FastState, i: usize, r: usize)
    requires
        interacted(s, t, i, r),
        i < s.weights.len() && s.weights[i as int] > 0,
        r < s.weights.len() && s.weights[r as int] > 0,
        sum(s.weights) <= usize::MAX,
    ensures
        i == UNDECIDED && r != UNDECIDED ==> {
            &&& t.weights[UNDECIDED as int] + 1 == s.weights[UNDECIDED as int]
            &&& t.weights[r as int] == s.weights[r as int] + 1
            &&& forall|k: int| 0 <= k < s.weights.len() && k != UNDECIDED && k != r ==> #[trigger] t.weights[k]
                == s.weights[k]
            &&& t.finished == (s.finished || t.weights[r as int] >= s.agents || s.steps >= s.max)
        },
        i != UNDECIDED && r != UNDECIDED && i != r ==> {
            &&& t.weights[i as int] + 1 == s.weights[i as int]
            &&& t.weights[UNDECIDED as int] == s.weights[UNDECIDED as int] + 1
            &&& forall|k: int| 0 <= k < s.weights.len() && k != UNDECIDED && k != i ==> #[trigger] t.weights[k]
                == s.weights[k]
            &&& t.finished == (s.finished || t.weights[UNDECIDED as int] >= s.agents || s.steps >= s.max)
        },
        r == UNDECIDED || i == r ==> t.weights == s.weights && t.finished == s.finished,
{
    let o = usd_outcome(i, r);
    assert(o == i || o == r || o == UNDECIDED);
    lemma_moved_supports(s, t, i, o);
}

} // verus!
