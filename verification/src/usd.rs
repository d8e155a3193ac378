//! The agent-based simulation: every agent is stored with its opinion, and a
//! histogram counts how many agents hold each opinion.
use vstd::prelude::*;
use std::collections::BTreeMap;
use vstd::std_specs::iter::IteratorSpec;
use crate::counting::{
    count, histogram, sum, lemma_histogram_sum, lemma_count_absent, lemma_count_concat, lemma_count_constant, lemma_count_full, lemma_count_le_len,
    lemma_count_pos, lemma_count_update, lemma_sum_take,
};
use crate::rng::{gen_index, thread_rng};
use rand::rngs::ThreadRng;
use crate::rules::{usd_outcome, UNDECIDED};

verus! {

/// An agent and the opinion it holds.
pub struct Agent {
    pub opinion: usize,
}

/// The simulation state: the agents, the histogram `opinions` (opinion to number of
/// agents holding it), the steps taken, whether the run is over, and a record of the
/// random draws the steps made.
pub struct Population {
    agents: Vec<Agent>,
    opinions: BTreeMap<usize, usize>,
    steps: usize,
    finished: bool,
    max_steps: usize,
    agent_count: usize,
    draws: Ghost<Seq<(nat, nat)>>,
}

/// What a [`Population`] is, mathematically.
pub struct PopulationState {
    /// The opinion of each agent, by agent index.
    pub opinions: Seq<usize>,
    /// The histogram: how many agents hold each opinion that it has a key for.
    pub counts: Map<usize, usize>,
    pub steps: nat,
    pub finished: bool,
    pub max_steps: nat,
    pub agent_count: nat,
    /// The draws the steps made from the random generator, in order: each the bound
    /// it was drawn below and the value drawn.
    pub draws: Seq<(nat, nat)>,
}

impl View for Population {
    type V = PopulationState;

    closed spec fn view(&self) -> PopulationState {
        PopulationState {
            opinions: self.agents@.map_values(|a: Agent| a.opinion),
            counts: self.opinions@,
            steps: self.steps as nat,
            finished: self.finished,
            max_steps: self.max_steps as nat,
            agent_count: self.agent_count as nat,
            draws: self.draws@,
        }
    }
}

/// The agents' opinions at the start: `init[j]` agents hold opinion `j + 1`, in order.
pub open spec fn expand(init: Seq<usize>) -> Seq<usize>
    decreases init.len(),
{
    if init.len() == 0 {
        Seq::empty()
    } else {
        expand(init.drop_last()) + Seq::new(init.last() as nat, |k: int| init.len() as usize)
    }
}

/// The histogram at the start: undecided `0`, and `init[j]` for opinion `j + 1`.
pub open spec fn initial_counts(init: Seq<usize>) -> Map<usize, usize> {
    Map::new(
        |o: usize| o <= init.len(),
        |o: usize|
            if o == UNDECIDED {
                0usize
            } else {
                init[o - 1]
            },
    )
}

/// Some opinion in the histogram is held by at least every agent.
pub open spec fn has_consensus(s: PopulationState) -> bool {
    exists|o: usize| #[trigger] s.counts.contains_key(o) && s.counts[o] >= s.agent_count
}

/// The condition on which the run is declared over: consensus, or the step budget spent.
pub open spec fn finish_condition(s: PopulationState) -> bool {
    has_consensus(s) || s.steps >= s.max_steps
}

/// The state after the initiator `i` met the responder `r` (opinions and histogram only).
pub open spec fn after_transition(s: PopulationState, i: int, r: int) -> Seq<usize> {
    s.opinions.update(i, usd_outcome(s.opinions[i], s.opinions[r]))
}

/// `t` is `s` after one step in which agent `i` initiated with agent `r`: the
/// transition, one more step, and the finish check.
pub open spec fn stepped(s: PopulationState, t: PopulationState, i: int, r: int) -> bool {
    &&& 0 <= i < s.opinions.len()
    &&& 0 <= r < s.opinions.len()
    &&& i != r
    &&& t.opinions == after_transition(s, i, r)
    &&& counts_match(t)
    &&& t.counts.dom() == s.counts.dom()
    &&& t.steps == s.steps + 1
    &&& t.max_steps == s.max_steps
    &&& t.agent_count == s.agent_count
    &&& t.draws == s.draws.push((s.opinions.len(), i as nat)).push(((s.opinions.len() - 1) as nat, responder_draw(i, r)))
    &&& t.finished == (s.finished || finish_condition(t))
}

/// The draw below `n - 1` that names responder `r` for initiator `i`: the draws name
/// the agents other than `i` in order.
pub open spec fn responder_draw(i: int, r: int) -> nat {
    if r > i {
        (r - 1) as nat
    } else {
        r as nat
    }
}

/// The state that [`Population::setup`] builds from `init` with the budget `max`.
pub open spec fn start_state(init: Seq<usize>, max: usize) -> PopulationState {
    PopulationState {
        opinions: expand(init),
        counts: initial_counts(init),
        steps: 0,
        finished: false,
        max_steps: max as nat,
        agent_count: sum(init),
        draws: Seq::empty(),
    }
}

/// `t` is reached from `s` by `n` steps, each taken while the run was not over.
pub open spec fn runs_to(s: PopulationState, t: PopulationState, n: nat) -> bool
    decreases n,
{
    if n == 0 {
        t == s
    } else {
        exists|m: PopulationState, i: int, r: int|
            #![trigger stepped(m, t, i, r)]
            runs_to(s, m, (n - 1) as nat) && !m.finished && stepped(m, t, i, r)
    }
}

/// The histogram of `s` is true: it counts the agents' opinions exactly, has a key
/// for the undecided opinion and for every opinion held, and `agent_count` is the
/// number of agents.
pub open spec fn counts_match(s: PopulationState) -> bool {
    &&& s.agent_count == s.opinions.len()
    &&& s.opinions.len() < usize::MAX
    &&& s.counts.contains_key(UNDECIDED)
    &&& forall|a: int| 0 <= a < s.opinions.len() ==> s.counts.contains_key(#[trigger] s.opinions[a])
    &&& forall|o: usize| #[trigger] s.counts.contains_key(o) ==> s.counts[o] == count(s.opinions, o)
}

impl Population {
    /// The invariant: the histogram is true ([`counts_match`]), and a run declared
    /// over meets its finish condition.
    pub open spec fn wf(&self) -> bool {
        &&& counts_match(self@)
        &&& self@.finished ==> finish_condition(self@)
    }
}


/// The start has `sum(init)` agents, each holding an opinion in `1..=init.len()`,
/// and opinion `j + 1` is held by exactly `init[j]` of them.
pub proof fn lemma_expand(init: Seq<usize>)
    requires
        init.len() < usize::MAX,
    ensures
        expand(init).len() == sum(init),
        forall|a: int| 0 <= a < expand(init).len() ==> 1 <= #[trigger] expand(init)[a] <= init.len(),
        forall|o: usize| #[trigger] count(expand(init), o) == if 1 <= o <= init.len() { init[o - 1] as nat } else { 0nat },
    decreases init.len(),
{
    if init.len() > 0 {
        let p = init.drop_last();
        let tail = Seq::new(init.last() as nat, |k: int| init.len() as usize);
        lemma_expand(p);
        assert forall|o: usize| #[trigger] count(expand(init), o) == if 1 <= o <= init.len() { init[o - 1] as nat } else { 0nat } by {
            lemma_count_concat(expand(p), tail, o);
            lemma_count_constant(init.last() as nat, init.len() as usize, o);
        }
        assert forall|a: int| 0 <= a < expand(init).len() implies 1 <= #[trigger] expand(init)[a] <= init.len() by {
            if a < expand(p).len() {
                assert(expand(init)[a] == expand(p)[a]);
            } else {
                assert(expand(init)[a] == tail[a - expand(p).len()]);
            }
        }
    }
}

impl Population {
    /// Builds the start: `init[j]` agents holding opinion `j + 1` (in that order), no
    /// undecided agent, the histogram of it (with key `0` for the undecided), no step
    /// taken, and the budget `max_steps`.
    pub fn setup(init: Vec<usize>, max_steps: usize) -> (p: Self)
        requires
            sum(init@) < usize::MAX,
            init.len() < usize::MAX,
        ensures
            p.wf(),
            p@.opinions == expand(init@),
            p@.counts == initial_counts(init@),
            p@.steps == 0,
            !p@.finished,
            p@.max_steps == max_steps,
            p@.agent_count == sum(init@),
            p@.draws == Seq::<(nat, nat)>::empty(),
    {
        let mut agents: Vec<Agent> = Vec::new();
        let mut opinions: BTreeMap<usize, usize> = BTreeMap::new();
        opinions.insert(0, 0);
        let mut opinion: usize = 1;
        let mut j: usize = 0;
        proof {
            assert(init@.take(0) =~= Seq::<usize>::empty());
            assert(agents@.map_values(|a: Agent| a.opinion) =~= expand(init@.take(0)));
            assert(opinions@ =~= initial_counts(init@.take(0)));
        }
        while j < init.len()
            invariant
                j <= init.len(),
                opinion == j + 1,
                init.len() < usize::MAX,
                sum(init@) < usize::MAX,
                agents@.map_values(|a: Agent| a.opinion) == expand(init@.take(j as int)),
                opinions@ == initial_counts(init@.take(j as int)),
            decreases init.len() - j,
        {
            let init_agents = init[j];
            let ghost prefix = agents@.map_values(|a: Agent| a.opinion);
            proof {
                lemma_expand(init@.take(j as int));
                lemma_expand(init@.take(j + 1));
                lemma_sum_take(init@, j + 1);
                assert(init@.take(j + 1).drop_last() =~= init@.take(j as int));
            }
            let mut c: usize = 0;
            while c < init_agents
                invariant
                    c <= init_agents,
                    opinion == j + 1,
                    prefix.len() + init_agents <= sum(init@),
                    sum(init@) < usize::MAX,
                    agents@.map_values(|a: Agent| a.opinion) == prefix + Seq::new(c as nat, |k: int| opinion),
                decreases init_agents - c,
            {
                let ghost before = agents@;
                agents.push(Agent { opinion });
                c = c + 1;
                proof {
                    let now = agents@.map_values(|a: Agent| a.opinion);
                    let want = prefix + Seq::new(c as nat, |k: int| opinion);
                    let was = prefix + Seq::new((c - 1) as nat, |k: int| opinion);
                    assert(before.map_values(|a: Agent| a.opinion) == was);
                    assert(now.len() == want.len());
                    assert forall|k: int| 0 <= k < now.len() implies now[k] == want[k] by {
                        if k < before.len() {
                            assert(before.map_values(|a: Agent| a.opinion)[k] == before[k].opinion);
                            assert(agents@[k] == before[k]);
                            if k < prefix.len() {
                                assert(want[k] == prefix[k] && was[k] == prefix[k]);
                            } else {
                                assert(want[k] == opinion && was[k] == opinion);
                            }
                        } else {
                            assert(agents@[k] == Agent { opinion });
                        }
                    }
                    assert(now =~= want);
                }
            }
            opinions.insert(opinion, init_agents);
            opinion = opinion + 1;
            j = j + 1;
            proof {
                assert(agents@.map_values(|a: Agent| a.opinion) =~= expand(init@.take(j as int)));
                assert(opinions@ =~= initial_counts(init@.take(j as int)));
            }
        }
        let agent_count = agents.len();
        let p = Population {
            agents,
            opinions,
            steps: 0,
            finished: false,
            max_steps,
            agent_count,
            draws: Ghost(Seq::empty()),
        };
        proof {
            assert(init@.take(init.len() as int) =~= init@);
            lemma_expand(init@);
        }
        p
    }
}

impl Population {
    /// The opinion of agent `id`.
    pub fn get_opinion(&self, id: usize) -> (o: usize)
        requires
            id < self@.opinions.len(),
        ensures
            o == self@.opinions[id as int],
    {
        let x = &self.agents[id];
        x.opinion
    }

    /// The agent `id`, to be changed in place; everything else stays.
    fn get_agent(&mut self, id: usize) -> (a: &mut Agent)
        requires
            id < old(self)@.opinions.len(),
        ensures
            a.opinion == old(self)@.opinions[id as int],
            final(self)@.opinions == old(self)@.opinions.update(id as int, final(a).opinion),
            final(self)@.counts == old(self)@.counts,
            final(self)@.steps == old(self)@.steps,
            final(self)@.finished == old(self)@.finished,
            final(self)@.max_steps == old(self)@.max_steps,
            final(self)@.agent_count == old(self)@.agent_count,
            final(self)@.draws == old(self)@.draws,
    {
        &mut self.agents[id]
    }
}

impl Population {
    /// Agent `agent_id` takes `new_opinion`; the histogram moves one agent from its
    /// old opinion to the new one (making a key for the new opinion if it had none).
    pub fn update_opinion(&mut self, agent_id: usize, new_opinion: usize)
        requires
            counts_match(old(self)@),
            agent_id < old(self)@.opinions.len(),
        ensures
            counts_match(final(self)@),
            forall|k: usize| #[trigger] final(self)@.counts.contains_key(k) ==> final(self)@.counts[k]
                + (if k == old(self)@.opinions[agent_id as int] { 1int } else { 0int })
                == (if old(self)@.counts.contains_key(k) { old(self)@.counts[k] as int } else { 0int })
                + (if k == new_opinion { 1int } else { 0int }),
            final(self)@.opinions == old(self)@.opinions.update(agent_id as int, new_opinion),
            final(self)@.counts.dom() == old(self)@.counts.dom().insert(new_opinion),
            final(self)@.steps == old(self)@.steps,
            final(self)@.finished == old(self)@.finished,
            final(self)@.max_steps == old(self)@.max_steps,
            final(self)@.agent_count == old(self)@.agent_count,
            final(self)@.draws == old(self)@.draws,
    {
        let ghost pre = self@;
        let old_opinion = self.get_opinion(agent_id);
        self.get_agent(agent_id).opinion = new_opinion;
        let ghost seq = self@.opinions;
        proof {
            lemma_count_le_len(pre.opinions, new_opinion);
            lemma_count_pos(pre.opinions, agent_id as int);
            if !pre.counts.contains_key(new_opinion) {
                lemma_count_absent(pre.opinions, new_opinion);
            }
        }
        let c_new: usize = match self.opinions.get(&new_opinion) {
            Some(c) => *c,
            None => 0,
        };
        self.opinions.insert(new_opinion, c_new + 1);
        let c_old: usize = match self.opinions.get(&old_opinion) {
            Some(c) => *c,
            None => 0,
        };
        self.opinions.insert(old_opinion, c_old - 1);
        proof {
            assert forall|o: usize| #[trigger] self@.counts.contains_key(o) implies self@.counts[o]
                == count(self@.opinions, o) by {
                lemma_count_update(pre.opinions, agent_id as int, new_opinion, o);
            }
            assert forall|a: int| 0 <= a < self@.opinions.len() implies self@.counts.contains_key(
                #[trigger] self@.opinions[a]) by {
                if a != agent_id {
                    assert(self@.opinions[a] == pre.opinions[a]);
                }
            }
            assert(self@.counts.dom() =~= pre.counts.dom().insert(new_opinion));
        }
    }

    /// Agent `initiator_id` meets agent `responder_id` and the initiator's opinion
    /// follows the USD rule ([`usd_outcome`]); the histogram follows.
    pub fn transition(&mut self, initiator_id: usize, responder_id: usize)
        requires
            old(self).wf(),
            initiator_id < old(self)@.opinions.len(),
            responder_id < old(self)@.opinions.len(),
        ensures
            final(self).wf(),
            final(self)@.opinions == after_transition(old(self)@, initiator_id as int, responder_id as int),
            final(self)@.counts.dom() == old(self)@.counts.dom(),
            final(self)@.steps == old(self)@.steps,
            final(self)@.finished == old(self)@.finished,
            final(self)@.max_steps == old(self)@.max_steps,
            final(self)@.agent_count == old(self)@.agent_count,
            final(self)@.draws == old(self)@.draws,
    {
        let ghost pre = self@;
        let initiator_opinion = self.get_opinion(initiator_id);
        let responder_opinion = self.get_opinion(responder_id);
        proof {
            if has_consensus(pre) {
                let o = choose|o: usize| #[trigger] pre.counts.contains_key(o) && pre.counts[o] >= pre.agent_count;
                lemma_consensus_is_unanimity(pre, o);
            }
        }
        if initiator_opinion == UNDECIDED && responder_opinion != UNDECIDED {
            self.update_opinion(initiator_id, responder_opinion);
            proof {
                assert(pre.counts.contains_key(pre.opinions[responder_id as int]));
                assert(self@.counts.dom() =~= pre.counts.dom());
            }
        } else if initiator_opinion != responder_opinion && responder_opinion != UNDECIDED {
            self.update_opinion(initiator_id, UNDECIDED);
            proof {
                assert(self@.counts.dom() =~= pre.counts.dom());
            }
        } else {
            proof {
                assert(pre.opinions.update(initiator_id as int, pre.opinions[initiator_id as int])
                    =~= pre.opinions);
            }
        }
    }
}

impl Population {
    /// Declares the run over when some opinion is held by every agent or the step
    /// budget is spent; a run once over stays over.
    fn check_finished(&mut self)
        requires
            old(self).wf(),
        ensures
            final(self).wf(),
            final(self)@ == (PopulationState {
                finished: old(self)@.finished || finish_condition(old(self)@),
                ..old(self)@
            }),
    {
        let ghost pre = self@;
        let agent_count = self.agent_count;
        let mut hit = false;
        for n in it: self.opinions.iter()
            invariant
                agent_count == pre.agent_count,
                self@ == pre,
                it.seq() == vstd::std_specs::btree::spec_btree_map_iter(&self.opinions).remaining(),
                hit ==> has_consensus(pre),
                !hit ==> forall|k: int| 0 <= k < it.index() ==> *(#[trigger] it.seq()[k]).1 < agent_count,
        {
            if *n.1 >= agent_count {
                proof {
                    let k = it.index();
                    assert(*it.seq()[k].1 == *n.1);
                    assert(pre.counts.contains_key(*it.seq()[k].0));
                }
                hit = true;
            }
        }
        if hit {
            self.finished = true;
            proof {
                let o = choose|o: usize| #[trigger] pre.counts.contains_key(o) && pre.counts[o] >= pre.agent_count;
                assert(self@.counts.contains_key(o) && self@.counts[o] >= self@.agent_count);
            }
            return;
        }
        if self.steps >= self.max_steps {
            self.finished = true;
            return;
        }
    }
}

/// A draw below `upper` from `rng`, entered in `record` with its bound.
fn draw(rng: &mut ThreadRng, upper: usize, record: &mut Ghost<Seq<(nat, nat)>>) -> (v: usize)
    requires
        upper > 0,
    ensures
        v < upper,
        final(record)@ == old(record)@.push((upper as nat, v as nat)),
{
    let v = gen_index(rng, upper);
    *record = Ghost(record@.push((upper as nat, v as nat)));
    v
}

impl Population {
    /// One interaction: an initiator and a different responder are drawn uniformly
    /// at random among the agents, the initiator follows the USD rule, the step is
    /// counted and the finish condition checked. Whatever agents were drawn, the new
    /// state is [`stepped`] from the old one with them.
    ///
    /// The responder is drawn uniformly among the agents other than the initiator:
    /// a draw `d` from `0..n - 1` names agent `d` if `d` is below the initiator and
    /// agent `d + 1` otherwise.
    /// Both draws, with the bounds they were made below, are entered in the record
    /// of draws ([`PopulationState::draws`]).
    pub fn step(&mut self)
        requires
            old(self).wf(),
            old(self)@.opinions.len() >= 2,
            old(self)@.steps < usize::MAX,
        ensures
            final(self).wf(),
            exists|i: int, r: int| stepped(old(self)@, final(self)@, i, r),
    {
        let mut rng = thread_rng();
        let max = self.agents.len();
        let ghost pre = self@;
        let initiator_id = draw(&mut rng, max, &mut self.draws);
        let mut responder_id = draw(&mut rng, max - 1, &mut self.draws);
        assert(self@.opinions == pre.opinions && self@.counts == pre.counts);
        assert(self@ == (PopulationState { draws: self@.draws, ..pre }));
        if responder_id >= initiator_id {
            responder_id = responder_id + 1;
        }
        self.transition(initiator_id, responder_id);
        self.steps = self.steps + 1;
        self.check_finished();
        assert(stepped(old(self)@, self@, initiator_id as int, responder_id as int));
    }

    /// Steps until the run is over. A run that is not over yet takes at least one
    /// step and stops at the first step after which some opinion holds every agent
    /// or the budget is spent; so it never goes past the budget (or past one step,
    /// when the budget was already spent).
    pub fn run(&mut self)
        requires
            old(self).wf(),
            old(self)@.opinions.len() >= 2,
            old(self)@.finished || old(self)@.steps < usize::MAX,
        ensures
            final(self).wf(),
            final(self)@.finished,
            finish_condition(final(self)@),
            final(self)@.agent_count == old(self)@.agent_count,
            final(self)@.max_steps == old(self)@.max_steps,
            final(self)@.counts.dom() == old(self)@.counts.dom(),
            old(self)@.finished ==> final(self)@ == old(self)@,
            old(self)@.steps <= final(self)@.steps,
            runs_to(old(self)@, final(self)@, (final(self)@.steps - old(self)@.steps) as nat),
            !old(self)@.finished ==> {
                &&& old(self)@.steps < final(self)@.steps
                &&& finish_condition(final(self)@)
                &&& final(self)@.steps <= if old(self)@.steps < old(self)@.max_steps {
                    old(self)@.max_steps
                } else {
                    old(self)@.steps + 1
                }
            },
    {
        let ghost pre = self@;
        while !self.finished
            invariant
                self.wf(),
                self@.opinions.len() >= 2,
                self@.agent_count == pre.agent_count,
                self@.max_steps == pre.max_steps,
                self@.counts.dom() == pre.counts.dom(),
                pre.finished ==> self@ == pre,
                pre.steps <= self@.steps,
                runs_to(pre, self@, (self@.steps - pre.steps) as nat),
                !pre.finished && self@.steps != pre.steps ==> pre.steps < self@.steps,
                self@.finished && !pre.finished ==> pre.steps < self@.steps && finish_condition(self@),
                !self@.finished ==> self@.steps < usize::MAX,
                !self@.finished && self@.steps != pre.steps ==> self@.steps < self@.max_steps,
                !pre.finished ==> self@.steps <= if pre.steps < pre.max_steps {
                    pre.max_steps
                } else {
                    pre.steps + 1
                },
            decreases (if self@.finished { 0int } else { 1int }) + (if self@.steps < self@.max_steps {
                self@.max_steps - self@.steps
            } else {
                0
            }),
        {
            let ghost before = self@;
            self.step();
            proof {
                let (i, r) = choose|i: int, r: int| stepped(before, self@, i, r);
                let n = (self@.steps - pre.steps) as nat;
                assert(n == (before.steps - pre.steps) + 1);
                assert(runs_to(pre, before, (n - 1) as nat) && !before.finished && stepped(before, self@, i, r));
                assert(runs_to(pre, self@, n));
            }
        }
    }
}

/// Runs the dynamics from `init` (`init[j]` agents holding opinion `j + 1`) with the
/// step budget `max` and returns the number of steps taken: the length of a run from
/// the start that ends as soon as the run is over (at least one step, and at most
/// the budget, or one when the budget is 0), ending as [`run_outcome`] says.
pub fn run(init: Vec<usize>, max: usize) -> (steps: usize)
    requires
        2 <= sum(init@) < usize::MAX,
        init.len() < usize::MAX,
    ensures
        1 <= steps,
        steps <= if max == 0 { 1 } else { max },
        exists|t: PopulationState| #[trigger] runs_to(start_state(init@, max), t, steps as nat) && run_outcome(init@, max, t),
{
    let mut alg = Population::setup(init, max);
    proof {
        lemma_expand(init@);
        assert(alg@ == start_state(init@, max));
    }
    alg.run();
    proof {
        assert(runs_to(start_state(init@, max), alg@, alg@.steps) && alg@.finished);
        lemma_run_outcome(init@, max, alg@, alg@.steps);
    }
    alg.steps
}

/// An interaction changes the initiator's opinion only: every other agent, the
/// responder among them, keeps its opinion, and the number of agents stays.
pub proof fn lemma_only_initiator_changes(s: PopulationState, i: int, r: int, j: int)
    requires
        0 <= i < s.opinions.len(),
        0 <= r < s.opinions.len(),
        0 <= j < s.opinions.len(),
        j != i,
    ensures
        after_transition(s, i, r).len() == s.opinions.len(),
        after_transition(s, i, r)[j] == s.opinions[j],
{
}

/// The finish check detects unanimity: in a well-formed population, an opinion whose
/// count reaches the number of agents is held by every agent.
pub proof fn lemma_consensus_is_unanimity(s: PopulationState, o: usize)
    requires
        counts_match(s),
        s.counts.contains_key(o),
        s.counts[o] >= s.agent_count,
    ensures
        forall|a: int| 0 <= a < s.opinions.len() ==> s.opinions[a] == o,
{
    lemma_count_le_len(s.opinions, o);
    lemma_count_full(s.opinions, o);
}

/// Unanimity is stable: once every agent holds the same opinion, no interaction
/// changes any opinion.
pub proof fn lemma_unanimity_is_stable(s: PopulationState, o: usize, i: int, r: int)
    requires
        forall|a: int| 0 <= a < s.opinions.len() ==> s.opinions[a] == o,
        0 <= i < s.opinions.len(),
        0 <= r < s.opinions.len(),
    ensures
        after_transition(s, i, r) == s.opinions,
{
    assert(after_transition(s, i, r) =~= s.opinions);
}

impl Population {
    /// The number of steps taken.
    pub fn steps(&self) -> (n: usize)
        ensures
            n == self@.steps,
    {
        self.steps
    }

    /// Whether the run is over.
    pub fn finished(&self) -> (b: bool)
        ensures
            b == self@.finished,
    {
        self.finished
    }

    /// The number of agents.
    pub fn agent_count(&self) -> (n: usize)
        ensures
            n == self@.agent_count,
    {
        self.agent_count
    }

    /// The histogram: opinion to number of agents holding it.
    pub fn opinions(&self) -> (m: &BTreeMap<usize, usize>)
        ensures
            m@ == self@.counts,
    {
        &self.opinions
    }
}

/// Some agent holds a decided opinion.
pub open spec fn has_decided(s: Seq<usize>) -> bool {
    exists|a: int| 0 <= a < s.len() && #[trigger] s[a] != UNDECIDED
}

/// Every agent holds `o`.
pub open spec fn unanimous(s: Seq<usize>, o: usize) -> bool {
    forall|a: int| 0 <= a < s.len() ==> s[a] == o
}

/// The population never becomes entirely undecided: if some agent is decided before
/// an interaction, some agent is decided after it.
pub proof fn lemma_step_keeps_decided(s: PopulationState, i: int, r: int)
    requires
        0 <= i < s.opinions.len(),
        0 <= r < s.opinions.len(),
        has_decided(s.opinions),
    ensures
        has_decided(after_transition(s, i, r)),
{
    let t = after_transition(s, i, r);
    let d = choose|a: int| 0 <= a < s.opinions.len() && #[trigger] s.opinions[a] != UNDECIDED;
    if d != i {
        assert(t[d] == s.opinions[d]);
    } else if t[i] == UNDECIDED {
        assert(t[r] == s.opinions[r]);
    } else {
        assert(t[i] != UNDECIDED);
    }
}

/// An opinion that no agent holds is never taken up by an interaction.
pub proof fn lemma_step_keeps_unsupported(s: PopulationState, i: int, r: int, o: usize)
    requires
        0 <= i < s.opinions.len(),
        0 <= r < s.opinions.len(),
        o != UNDECIDED,
        count(s.opinions, o) == 0,
    ensures
        count(after_transition(s, i, r), o) == 0,
{
    lemma_count_pos(s.opinions, i);
    lemma_count_pos(s.opinions, r);
    lemma_count_update(s.opinions, i, usd_outcome(s.opinions[i], s.opinions[r]), o);
}

/// Along a run: the histogram stays true and keeps its keys, the agents and the
/// budget stay, the steps add up, no opinion without agents gains any, the
/// population never becomes entirely undecided, and after at least one step the
/// run is over exactly when the finish condition holds.
pub proof fn lemma_run_laws(s: PopulationState, t: PopulationState, n: nat)
    requires
        runs_to(s, t, n),
        counts_match(s),
    ensures
        counts_match(t),
        t.counts.dom() == s.counts.dom(),
        t.agent_count == s.agent_count,
        t.opinions.len() == s.opinions.len(),
        t.max_steps == s.max_steps,
        t.steps == s.steps + n,
        forall|o: usize| o != UNDECIDED && count(s.opinions, o) == 0 ==> #[trigger] count(t.opinions, o) == 0,
        has_decided(s.opinions) ==> has_decided(t.opinions),
        n > 0 ==> (t.finished <==> finish_condition(t)),
    decreases n,
{
    if n > 0 {
        let (m, i, r) = choose|m: PopulationState, i: int, r: int|
            #![trigger stepped(m, t, i, r)]
            runs_to(s, m, (n - 1) as nat) && !m.finished && stepped(m, t, i, r);
        lemma_run_laws(s, m, (n - 1) as nat);
        assert forall|o: usize| o != UNDECIDED && count(s.opinions, o) == 0 implies #[trigger] count(t.opinions, o) == 0 by {
            lemma_step_keeps_unsupported(m, i, r, o);
        }
        if has_decided(s.opinions) {
            lemma_step_keeps_decided(m, i, r);
        }
    }
}

/// What holds at the end of a run from `init` with budget `max` that ended in `t`:
/// the histogram is true and over the keys `0..=init.len()`, counting `sum(init)`
/// agents; the run is over and meets its finish condition; an opinion that no agent
/// held at the start has none; some agent is decided; and if the run ended before
/// the budget, every agent holds one and the same decided opinion.
pub open spec fn run_outcome(init: Seq<usize>, max: usize, t: PopulationState) -> bool {
    &&& counts_match(t)
    &&& t.finished
    &&& finish_condition(t)
    &&& t.counts.dom() == initial_counts(init).dom()
    &&& t.opinions.len() == sum(init)
    &&& sum(histogram(t.opinions, init.len() + 1)) == sum(init)
    &&& forall|o: usize| 1 <= o <= init.len() && init[o - 1] == 0 ==> #[trigger] count(t.opinions, o) == 0
    &&& has_decided(t.opinions)
    &&& t.steps < max ==> exists|o: usize| o != UNDECIDED && #[trigger] unanimous(t.opinions, o)
}

/// A run from `init` ends as [`run_outcome`] says.
pub proof fn lemma_run_outcome(init: Seq<usize>, max: usize, t: PopulationState, n: nat)
    requires
        2 <= sum(init) < usize::MAX,
        init.len() < usize::MAX,
        n > 0,
        runs_to(start_state(init, max), t, n),
        t.finished,
    ensures
        run_outcome(init, max, t),
{
    let s = start_state(init, max);
    lemma_expand(init);
    assert(counts_match(s));
    assert(s.opinions[0] != UNDECIDED);
    lemma_run_laws(s, t, n);
    assert forall|o: usize| 1 <= o <= init.len() && init[o - 1] == 0 implies #[trigger] count(t.opinions, o) == 0 by {
        assert(count(s.opinions, o) == 0);
    }
    assert forall|a: int| 0 <= a < t.opinions.len() implies t.opinions[a] < init.len() + 1 by {
        assert(t.counts.contains_key(t.opinions[a]));
    }
    lemma_histogram_sum(t.opinions, init.len() + 1);
    if t.steps < max {
        let o = choose|o: usize| #[trigger] t.counts.contains_key(o) && t.counts[o] >= t.agent_count;
        lemma_consensus_is_unanimity(t, o);
        let d = choose|a: int| 0 <= a < t.opinions.len() && #[trigger] t.opinions[a] != UNDECIDED;
        assert(t.opinions[d] == o);
        assert(unanimous(t.opinions, o));
    }
}

/// A run stops at the first step after which it is over: every state it passes
/// through before its end is not over.
pub proof fn lemma_run_stops_first(s: PopulationState, t: PopulationState, n: nat, k: nat)
    requires
        runs_to(s, t, n),
        0 < k < n,
    ensures
        exists|m: PopulationState| #[trigger] runs_to(s, m, k) && !m.finished,
    decreases n,
{
    let (m, i, r) = choose|m: PopulationState, i: int, r: int|
        #![trigger stepped(m, t, i, r)]
        runs_to(s, m, (n - 1) as nat) && !m.finished && stepped(m, t, i, r);
    if k < n - 1 {
        lemma_run_stops_first(s, m, (n - 1) as nat, k);
    } else {
        assert(runs_to(s, m, k) && !m.finished);
    }
}

/// What an interaction does to the agents, for every pair of agents and opinions:
/// an undecided initiator meeting a decided responder takes the responder's opinion;
/// a decided initiator meeting a responder of another decided opinion becomes
/// undecided; an initiator meeting an undecided responder or its own opinion keeps
/// its opinion; and no other agent changes.
pub proof fn lemma_transition_rule(s: PopulationState, i: int, r: int)
    requires
        0 <= i < s.opinions.len(),
        0 <= r < s.opinions.len(),
    ensures
        after_transition(s, i, r).len() == s.opinions.len(),
        s.opinions[i] == UNDECIDED && s.opinions[r] != UNDECIDED ==> after_transition(s, i, r)[i]
            == s.opinions[r],
        s.opinions[i] != UNDECIDED && s.opinions[r] != UNDECIDED && s.opinions[i] != s.opinions[r]
            ==> after_transition(s, i, r)[i] == UNDECIDED,
        s.opinions[r] == UNDECIDED || s.opinions[i] == s.opinions[r] ==> after_transition(s, i, r)
            == s.opinions,
        forall|j: int| 0 <= j < s.opinions.len() && j != i ==> #[trigger] after_transition(s, i, r)[j]
            == s.opinions[j],
{
    if s.opinions[r] == UNDECIDED || s.opinions[i] == s.opinions[r] {
        assert(after_transition(s, i, r) =~= s.opinions);
    }
}

/// The two draws of a step name every ordered pair of different agents, each from
/// exactly one pair of draws: a first draw `i` below `n` names the initiator, and a
/// second draw `d` below `n - 1` names the responder `d` if `d < i`, else `d + 1`.
pub proof fn lemma_draws_name_every_pair(n: int, i: int, r: int, d: int)
    requires
        0 <= i < n,
    ensures
        0 <= r < n && r != i ==> responder_draw(i, r) < n - 1 && (if responder_draw(i, r) >= i {
            responder_draw(i, r) + 1
        } else {
            responder_draw(i, r) + 0
        }) == r,
        0 <= d < n - 1 ==> {
            let named = if d >= i { d + 1 } else { d };
            &&& 0 <= named < n
            &&& named != i
            &&& responder_draw(i, named) == d
        },
{
}

/// A step draws its initiator below the number of agents and its responder's draw
/// below one less, and interacts the pair those draws name.
pub proof fn lemma_step_draws(s: PopulationState, t: PopulationState, i: int, r: int)
    requires
        stepped(s, t, i, r),
    ensures
        t.draws.len() == s.draws.len() + 2,
        t.draws[s.draws.len() as int] == (s.opinions.len(), i as nat),
        t.draws[s.draws.len() + 1int].0 == s.opinions.len() - 1,
        t.draws[s.draws.len() + 1int].1 < s.opinions.len() - 1,
        r == if t.draws[s.draws.len() + 1int].1 >= i { t.draws[s.draws.len() + 1int].1 + 1 } else {
            t.draws[s.draws.len() + 1int].1 + 0
        },
{
    lemma_draws_name_every_pair(s.opinions.len() as int, i, r, 0);
}

} // verus!
