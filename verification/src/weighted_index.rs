//! The dynamic weighted index of `dynamic_weighted_index`, holding one `usize`
//! weight per element.
use vstd::prelude::*;
use dynamic_weighted_index::DynamicWeightedIndex;
use rand::rngs::ThreadRng;
use crate::counting::sum;

verus! {

/// A `dynamic_weighted_index::DynamicWeightedIndex<usize>`, held in a private
/// field; opaque to verification. What it holds is named by [`index_weights`].
#[verifier::external_body]
pub struct WeightedIndex {
    index: DynamicWeightedIndex<usize>,
}

/// The weights held by an index: entry `i` is the weight of element `i`, and the
/// length is the number of elements the index was made with.
pub uninterp spec fn index_weights(d: WeightedIndex) -> Seq<usize>;

/// Calls `DynamicWeightedIndex::new(n)`: per its documentation, an index on `n`
/// elements, all of weight 0.
#[verifier::external_body]
pub(crate) fn new_index(n: usize) -> (d: WeightedIndex)
    ensures
        index_weights(d) == Seq::new(n as nat, |i: int| 0usize),
{
    WeightedIndex { index: DynamicWeightedIndex::new(n) }
}

/// The most elements an index may hold for [`set_weight`] to return: the source
/// builds five levels of ranges and pushes a range that gains a second element into
/// the next level, which with more elements in one weight class than this reaches
/// past the fifth level and panics.
pub const MAX_ELEMENTS: usize = 65536;

/// Calls `DynamicWeightedIndex::set_weight(index, weight)`: the weight of element
/// `index` becomes `weight` and the others stay. The source indexes a vector by
/// `index`, so it must be in bounds; it keeps the total as a running `usize` sum, so
/// the new total must fit; and its five levels of ranges only suffice for at most
/// [`MAX_ELEMENTS`] elements.
#[verifier::external_body]
pub(crate) fn set_weight(d: &mut WeightedIndex, index: usize, weight: usize)
    requires
        index < index_weights(*old(d)).len(),
        index_weights(*old(d)).len() <= MAX_ELEMENTS,
        sum(index_weights(*old(d)).update(index as int, weight)) <= usize::MAX,
    ensures
        index_weights(*final(d)) == index_weights(*old(d)).update(index as int, weight),
{
    d.index.set_weight(index, weight)
}

/// Calls `DynamicWeightedIndex::weight(index)`: the weight of element `index`,
/// which must be in bounds.
#[verifier::external_body]
pub(crate) fn weight(d: &WeightedIndex, index: usize) -> (w: usize)
    requires
        index < index_weights(*d).len(),
    ensures
        w == index_weights(*d)[index as int],
{
    d.index.weight(index)
}

/// Calls `DynamicWeightedIndex::total_weight()`: the sum of all weights, which the
/// source keeps as a running sum (exact while it fits in a `usize`).
#[verifier::external_body]
pub(crate) fn total_weight(d: &WeightedIndex) -> (t: usize)
    requires
        sum(index_weights(*d)) <= usize::MAX,
    ensures
        t == sum(index_weights(*d)),
{
    d.index.total_weight()
}

/// Calls `DynamicWeightedIndex::sample_index_and_weight(rng)` and hands out the
/// sampled element and its weight. Per the source, the result is `None` exactly when
/// the total weight is 0; otherwise the element is one of positive weight, returned
/// with its current weight. Which element comes is random: nothing more is claimed.
#[verifier::external_body]
pub(crate) fn sample_index_and_weight(d: &WeightedIndex, rng: &mut ThreadRng) -> (r:
    Option<(usize, usize)>)
    requires
        sum(index_weights(*d)) <= usize::MAX,
    ensures
        r is None <==> sum(index_weights(*d)) == 0,
        r matches Some((i, w)) ==> i < index_weights(*d).len() && w == index_weights(*d)[i as int]
            && w > 0,
{
    match d.index.sample_index_and_weight(rng) {
        Some(s) => Some((s.index, s.weight)),
        None => None,
    }
}

} // verus!
