//! Biased undecided-state dynamics on the histogram-based simulation: each kind of
//! meeting is resolved by biased coins, one bias per opinion of the initiator.
//!
//! The coins themselves are tossed by the caller (their biases are probabilities);
//! this module decides which coins a meeting needs ([`bias_rule`]) and what their
//! outcomes do ([`Population::bias_usd`]).
use vstd::prelude::*;
use vstd::string::StringExecFns;
use crate::counting::{sum, lemma_two_entries_le_sum};
use crate::rules::{usd_outcome, UNDECIDED};
use crate::weighted_index::MAX_ELEMENTS;
use crate::usd_fast::{counted, is_drawn_from, lemma_moved_supports, moved, FastState, Opinion, Population};

verus! {

/// The step budget of a biased run.
pub const BIASED_MAX: usize = 50_000_000;

/// The kinds of meetings, each with its own biases.
#[derive(PartialEq, Eq, Structural, Clone, Copy, Debug)]
pub enum BiasRule {
    /// A decided initiator meets a different decided opinion: with the first bias
    /// it adopts the responder's opinion; otherwise with the second bias nothing
    /// happens, and else it becomes undecided.
    DecidedMeetsOther,
    /// An undecided initiator meets a decided responder: with the bias nothing
    /// happens, else it adopts the responder's opinion.
    UndecidedMeetsDecided,
    /// A decided initiator meets its own opinion: with the bias it becomes undecided.
    DecidedMeetsSame,
    /// A decided initiator meets an undecided responder: with the bias it becomes
    /// undecided.
    DecidedMeetsUndecided,
}

/// The kind of meeting of an initiator holding `i` with a responder holding `r`;
/// `None` when both are undecided.
pub open spec fn spec_bias_rule(i: usize, r: usize) -> Option<BiasRule> {
    if i != r && i != UNDECIDED && r != UNDECIDED {
        Some(BiasRule::DecidedMeetsOther)
    } else if i == UNDECIDED && r != UNDECIDED {
        Some(BiasRule::UndecidedMeetsDecided)
    } else if i == r && i != UNDECIDED {
        Some(BiasRule::DecidedMeetsSame)
    } else if i != UNDECIDED && r == UNDECIDED {
        Some(BiasRule::DecidedMeetsUndecided)
    } else {
        None
    }
}

/// The opinion the initiator holds after the meeting, given the outcome `first` of
/// the coin with the meeting's own bias and, for [`BiasRule::DecidedMeetsOther`],
/// the outcome `second` of the coin with the second bias.
pub open spec fn biased_outcome(i: usize, r: usize, first: bool, second: bool) -> usize {
    match spec_bias_rule(i, r) {
        Some(BiasRule::DecidedMeetsOther) => if first {
            r
        } else if second {
            i
        } else {
            UNDECIDED
        },
        Some(BiasRule::UndecidedMeetsDecided) => if first {
            i
        } else {
            r
        },
        Some(BiasRule::DecidedMeetsSame) => if first {
            UNDECIDED
        } else {
            i
        },
        Some(BiasRule::DecidedMeetsUndecided) => if first {
            UNDECIDED
        } else {
            i
        },
        None => i,
    }
}

/// The kind of meeting of an initiator holding `i` with a responder holding `r`.
pub fn bias_rule(i: usize, r: usize) -> (rule: Option<BiasRule>)
    ensures
        rule == spec_bias_rule(i, r),
{
    if i != r && i != UNDECIDED && r != UNDECIDED {
        Some(BiasRule::DecidedMeetsOther)
    } else if i == UNDECIDED && r != UNDECIDED {
        Some(BiasRule::UndecidedMeetsDecided)
    } else if i == r && i != UNDECIDED {
        Some(BiasRule::DecidedMeetsSame)
    } else if i != UNDECIDED && r == UNDECIDED {
        Some(BiasRule::DecidedMeetsUndecided)
    } else {
        None
    }
}

/// The start of a biased run: the population of `opinion_dist` (at most
/// [`MAX_ELEMENTS`] opinions) with the budget [`BIASED_MAX`].
pub fn setup(opinion_dist: Vec<usize>) -> (p: Population)
    requires
        sum(opinion_dist@) <= usize::MAX,
        opinion_dist.len() <= MAX_ELEMENTS,
    ensures
        p.wf(),
        p@.weights == opinion_dist@,
        p@.opinions == opinion_dist.len(),
        p@.agents == sum(opinion_dist@),
        !p@.finished,
        p@.steps == 0,
        p@.max == BIASED_MAX,
{
    let mut p = Population::setup(opinion_dist);
    p.set_max(BIASED_MAX);
    p
}

impl Population {
    /// Draws the two opinions of an interaction (each an agent's, drawn uniformly)
    /// and counts the step. Whatever is drawn, both are opinions held by some agent.
    pub fn draw_pair(&mut self) -> (pair: (Opinion, Opinion))
        requires
            old(self).wf(),
            old(self)@.agents > 0,
            old(self)@.steps < usize::MAX,
        ensures
            final(self).wf(),
            final(self)@ == counted(old(self)@),
            is_drawn_from(final(self)@, pair.0),
            is_drawn_from(final(self)@, pair.1),
    {
        let initiator = self.get_opinion();
        let responder = self.get_opinion();
        self.count_step();
        (initiator, responder)
    }

    /// The initiator (opinion `initiator`) meets the responder (opinion `responder`)
    /// under the biased rules: `first` is the outcome of the coin with the bias of
    /// the meeting's kind ([`bias_rule`]) for the initiator's opinion, `second` that
    /// of the coin with the second bias, which only a
    /// [`BiasRule::DecidedMeetsOther`] meeting whose first coin came up false reads.
    pub fn bias_usd(&mut self, initiator: Opinion, responder: Opinion, first: bool, second: bool)
        requires
            old(self).wf(),
            is_drawn_from(old(self)@, initiator),
            is_drawn_from(old(self)@, responder),
        ensures
            final(self).wf(),
            moved(old(self)@, final(self)@, initiator.id, biased_outcome(initiator.id, responder.id, first, second)),
    {
        let i = initiator.id;
        let r = responder.id;
        let ghost pre = self@;
        proof {
            if i != UNDECIDED {
                lemma_two_entries_le_sum(pre.weights, i as int, UNDECIDED as int);
            }
        }
        if i != r && i != UNDECIDED && r != UNDECIDED {
            if first {
                self.update_opinion(initiator, responder);
            } else if second {
                // the initiator keeps its opinion
            } else {
                self.make_undecided(initiator);
            }
        } else if i == UNDECIDED && r != UNDECIDED {
            if first {
                // the initiator stays undecided
            } else {
                self.update_opinion(initiator, responder);
            }
        } else if i == r && i != UNDECIDED {
            if first {
                self.make_undecided(initiator);
            }
        } else if i != UNDECIDED && r == UNDECIDED {
            if first {
                self.make_undecided(initiator);
            }
        }
    }
}

/// With every bias 0 no coin comes up true, and the biased dynamics is the plain
/// undecided-state dynamics.
pub proof fn lemma_zero_bias_is_usd(i: usize, r: usize)
    ensures
        biased_outcome(i, r, false, false) == usd_outcome(i, r),
{
}

/// Under any coins, the initiator keeps its opinion, takes the responder's, or
/// becomes undecided; two undecided agents stay undecided.
pub proof fn lemma_biased_outcomes(i: usize, r: usize, first: bool, second: bool)
    ensures
        biased_outcome(i, r, first, second) == i || biased_outcome(i, r, first, second) == r
            || biased_outcome(i, r, first, second) == UNDECIDED,
        i == UNDECIDED && r == UNDECIDED ==> biased_outcome(i, r, first, second) == UNDECIDED,
{
}

/// Whether the record is written after step `steps`: every `agents / 10` steps.
pub fn record_due(steps: usize, agents: usize) -> (due: bool)
    requires
        agents / 10 > 0,
    ensures
        due == (steps % (agents / 10) == 0),
{
    steps % (agents / 10) == 0
}

/// The character of the decimal digit `d`.
pub open spec fn digit_char(d: nat) -> char {
    (d + 48) as char
}

/// The decimal digits of `n`, most significant first, without sign or padding.
pub open spec fn decimal(n: nat) -> Seq<char>
    decreases n,
{
    if n < 10 {
        seq![digit_char(n)]
    } else {
        decimal(n / 10) + seq![digit_char(n % 10)]
    }
}

/// Calls `ToString::to_string` on `n`: per the documentation of `usize`'s `Display`,
/// its decimal digits, without sign or padding.
#[verifier::external_body]
fn decimal_string(n: usize) -> (s: String)
    ensures
        s@ == decimal(n as nat),
{
    n.to_string()
}

/// The header of the record: the steps, the undecided, then `Opinion i` for each
/// opinion `i` in `1..opinions`.
pub fn csv_header(opinions: usize) -> (h: Vec<String>)
    ensures
        h.len() == if opinions == 0 { 2 } else { opinions + 1 },
        h[0]@ == "usd/Steps"@,
        h[1]@ == "usd/opinions/Undecided"@,
        forall|i: int| 1 <= i < opinions ==> #[trigger] h[i + 1]@ == "usd/opinions/Opinion "@ + decimal(i as nat),
{
    let mut h: Vec<String> = Vec::new();
    h.push(String::from_str("usd/Steps"));
    h.push(String::from_str("usd/opinions/Undecided"));
    let mut i: usize = 1;
    while i < opinions
        invariant
            1 <= i,
            i <= opinions || opinions == 0,
            opinions == 0 ==> i == 1,
            h.len() == i + 1,
            h[0]@ == "usd/Steps"@,
            h[1]@ == "usd/opinions/Undecided"@,
            forall|k: int| 1 <= k < i ==> #[trigger] h[k + 1]@ == "usd/opinions/Opinion "@ + decimal(k as nat),
        decreases opinions - i,
    {
        let digits = decimal_string(i);
        let label = String::from_str("usd/opinions/Opinion ").concat(digits.as_str());
        h.push(label);
        i = i + 1;
    }
    h
}

/// The opinion whose biases a meeting's coins use: the initiator's.
pub fn coin_opinion(initiator: &Opinion, responder: &Opinion) -> (o: usize)
    ensures
        o == initiator.id,
{
    initiator.id
}

/// The digit characters are `'0'` to `'9'`; so the label of opinion 12 ends in `"12"`.
pub proof fn lemma_digit_chars()
    ensures
        digit_char(0) == '0',
        digit_char(1) == '1',
        digit_char(2) == '2',
        digit_char(3) == '3',
        digit_char(4) == '4',
        digit_char(5) == '5',
        digit_char(6) == '6',
        digit_char(7) == '7',
        digit_char(8) == '8',
        digit_char(9) == '9',
        decimal(12) == seq!['1', '2'],
{
    assert(decimal(1) == seq![digit_char(1)]);
    assert(decimal(12) == decimal(1) + seq![digit_char(2)]);
    assert(decimal(12) =~= seq!['1', '2']);
}

/// The kind of a meeting, for every pair of opinions: two different decided
/// opinions, an undecided initiator with a decided responder, a decided initiator
/// with its own opinion, a decided initiator with an undecided responder, or two
/// undecided agents (no kind).
pub proof fn lemma_bias_rule_kinds(i: usize, r: usize)
    ensures
        i != UNDECIDED && r != UNDECIDED && i != r ==> spec_bias_rule(i, r) == Some(BiasRule::DecidedMeetsOther),
        i == UNDECIDED && r != UNDECIDED ==> spec_bias_rule(i, r) == Some(BiasRule::UndecidedMeetsDecided),
        i != UNDECIDED && i == r ==> spec_bias_rule(i, r) == Some(BiasRule::DecidedMeetsSame),
        i != UNDECIDED && r == UNDECIDED ==> spec_bias_rule(i, r) == Some(BiasRule::DecidedMeetsUndecided),
        i == UNDECIDED && r == UNDECIDED ==> spec_bias_rule(i, r) == None::<BiasRule>,
{
}

/// The kind of a meeting depends only on whether the two opinions agree and which
/// of them is undecided, not on the opinions' values.
pub proof fn lemma_bias_rule_by_pattern(i: usize, r: usize, i2: usize, r2: usize)
    requires
        (i == r) == (i2 == r2),
        (i == UNDECIDED) == (i2 == UNDECIDED),
        (r == UNDECIDED) == (r2 == UNDECIDED),
    ensures
        spec_bias_rule(i, r) == spec_bias_rule(i2, r2),
{
    lemma_bias_rule_kinds(i, r);
    lemma_bias_rule_kinds(i2, r2);
}

/// What the coins decide, for every pair of opinions: two different decided
/// opinions: the first coin adopts the responder's opinion, else the second keeps
/// the initiator's, else it becomes undecided; an undecided initiator meeting a
/// decided one: the coin keeps it undecided, else it adopts; a decided initiator
/// meeting its own opinion or the undecided: the coin makes it undecided, else it
/// keeps its opinion; two undecided agents stay undecided.
pub proof fn lemma_biased_rule(i: usize, r: usize, first: bool, second: bool)
    ensures
        i != UNDECIDED && r != UNDECIDED && i != r && first ==> biased_outcome(i, r, first, second) == r,
        i != UNDECIDED && r != UNDECIDED && i != r && !first && second ==> biased_outcome(i, r, first, second) == i,
        i != UNDECIDED && r != UNDECIDED && i != r && !first && !second ==> biased_outcome(i, r, first, second)
            == UNDECIDED,
        i == UNDECIDED && r != UNDECIDED && first ==> biased_outcome(i, r, first, second) == UNDECIDED,
        i == UNDECIDED && r != UNDECIDED && !first ==> biased_outcome(i, r, first, second) == r,
        i != UNDECIDED && (i == r || r == UNDECIDED) && first ==> biased_outcome(i, r, first, second) == UNDECIDED,
        i != UNDECIDED && (i == r || r == UNDECIDED) && !first ==> biased_outcome(i, r, first, second) == i,
        i == UNDECIDED && r == UNDECIDED ==> biased_outcome(i, r, first, second) == UNDECIDED,
{
}

/// What a biased meeting does to the supports when its coins keep the initiator's
/// opinion (for instance an undecided initiator whose first coin came up true, or a
/// decided one meeting another decided opinion with the second coin true): nothing
/// changes. When the coins change it, one agent moves from the initiator's opinion
/// to the new one.
pub proof fn lemma_biased_supports(s: FastState, t: FastState, i: usize, r: usize, first: bool, second: bool)
    requires
        moved(s, t, i, biased_outcome(i, r, first, second)),
        i < s.weights.len() && s.weights[i as int] > 0,
        r < s.weights.len() && s.weights[r as int] > 0,
        sum(s.weights) <= usize::MAX,
    ensures
        i == UNDECIDED && r != UNDECIDED && first ==> t.weights == s.weights && t.finished == s.finished,
        i == UNDECIDED && r != UNDECIDED && !first ==> t.weights[UNDECIDED as int] + 1 == s.weights[UNDECIDED as int]
            && t.weights[r as int] == s.weights[r as int] + 1,
        i != UNDECIDED && r != UNDECIDED && i != r && !first && second ==> t.weights == s.weights,
        i != UNDECIDED && r != UNDECIDED && i != r && !first && !second ==> t.weights[i as int] + 1 == s.weights[i as int]
            && t.weights[UNDECIDED as int] == s.weights[UNDECIDED as int] + 1,
        i != UNDECIDED && r != UNDECIDED && i != r && first ==> t.weights[i as int] + 1 == s.weights[i as int]
            && t.weights[r as int] == s.weights[r as int] + 1,
{
    let o = biased_outcome(i, r, first, second);
    lemma_biased_outcomes(i, r, first, second);
    lemma_moved_supports(s, t, i, o);
}

} // verus!
