//! Sums and counts over sequences of natural numbers, with the lemmas the
//! simulations need about them.
use vstd::prelude::*;

verus! {

/// The sum of all entries of `s`.
pub open spec fn sum(s: Seq<usize>) -> nat
    decreases s.len(),
{
    if s.len() == 0 {
        0
    } else {
        sum(s.drop_last()) + s.last() as nat
    }
}

/// The number of entries of `s` equal to `o`.
pub open spec fn count(s: Seq<usize>, o: usize) -> nat
    decreases s.len(),
{
    if s.len() == 0 {
        0
    } else {
        count(s.drop_last(), o) + if s.last() == o { 1nat } else { 0nat }
    }
}

} // verus!

verus! {

/// `count(s, o)` never exceeds the length of `s`.
pub proof fn lemma_count_le_len(s: Seq<usize>, o: usize)
    ensures
        count(s, o) <= s.len(),
    decreases s.len(),
{
    if s.len() > 0 {
        lemma_count_le_len(s.drop_last(), o);
    }
}

/// Counts add up over a concatenation.
pub proof fn lemma_count_concat(a: Seq<usize>, b: Seq<usize>, o: usize)
    ensures
        count(a + b, o) == count(a, o) + count(b, o),
    decreases b.len(),
{
    if b.len() == 0 {
        assert(a + b =~= a);
    } else {
        assert((a + b).drop_last() =~= a + b.drop_last());
        lemma_count_concat(a, b.drop_last(), o);
    }
}

/// Overwriting entry `i` with `v` moves one unit of count from `s[i]` to `v`.
pub proof fn lemma_count_update(s: Seq<usize>, i: int, v: usize, o: usize)
    requires
        0 <= i < s.len(),
    ensures
        count(s.update(i, v), o) + (if s[i] == o { 1nat } else { 0nat }) == count(s, o) + (if v
            == o { 1nat } else { 0nat }),
    decreases s.len(),
{
    if i == s.len() - 1 {
        assert(s.update(i, v).drop_last() =~= s.drop_last());
    } else {
        assert(s.update(i, v).drop_last() =~= s.drop_last().update(i, v));
        lemma_count_update(s.drop_last(), i, v, o);
    }
}

/// An entry that occurs in `s` has a positive count.
pub proof fn lemma_count_pos(s: Seq<usize>, i: int)
    requires
        0 <= i < s.len(),
    ensures
        count(s, s[i]) >= 1,
    decreases s.len(),
{
    if i < s.len() - 1 {
        lemma_count_pos(s.drop_last(), i);
    }
}

/// If every entry of `s` is `o`, the count of `o` is the length; and conversely.
pub proof fn lemma_count_full(s: Seq<usize>, o: usize)
    ensures
        count(s, o) == s.len() <==> forall|i: int| 0 <= i < s.len() ==> s[i] == o,
    decreases s.len(),
{
    if s.len() > 0 {
        lemma_count_full(s.drop_last(), o);
        lemma_count_le_len(s.drop_last(), o);
        if count(s, o) == s.len() {
            assert forall|i: int| 0 <= i < s.len() implies s[i] == o by {
                if i < s.len() - 1 {
                    assert(s.drop_last()[i] == s[i]);
                }
            }
        }
        if forall|i: int| 0 <= i < s.len() ==> s[i] == o {
            assert forall|i: int| 0 <= i < s.drop_last().len() implies s.drop_last()[i] == o by {
                assert(s.drop_last()[i] == s[i]);
            }
        }
    }
}

/// A sequence of `n` copies of `x` holds `n` entries `x` and nothing else.
pub proof fn lemma_count_constant(n: nat, x: usize, o: usize)
    ensures
        count(Seq::new(n, |k: int| x), o) == if x == o { n } else { 0nat },
    decreases n,
{
    if n > 0 {
        assert(Seq::new(n, |k: int| x).drop_last() =~= Seq::new((n - 1) as nat, |k: int| x));
        lemma_count_constant((n - 1) as nat, x, o);
    }
}

/// Overwriting entry `i` with `v` changes the sum by `v - s[i]`.
pub proof fn lemma_sum_update(s: Seq<usize>, i: int, v: usize)
    requires
        0 <= i < s.len(),
    ensures
        sum(s.update(i, v)) + s[i] == sum(s) + v,
    decreases s.len(),
{
    if i == s.len() - 1 {
        assert(s.update(i, v).drop_last() =~= s.drop_last());
    } else {
        assert(s.update(i, v).drop_last() =~= s.drop_last().update(i, v));
        lemma_sum_update(s.drop_last(), i, v);
    }
}

/// Every entry is at most the sum.
pub proof fn lemma_entry_le_sum(s: Seq<usize>, i: int)
    requires
        0 <= i < s.len(),
    ensures
        s[i] <= sum(s),
    decreases s.len(),
{
    if i < s.len() - 1 {
        lemma_entry_le_sum(s.drop_last(), i);
    }
}

/// Two distinct entries together are at most the sum.
pub proof fn lemma_two_entries_le_sum(s: Seq<usize>, i: int, j: int)
    requires
        0 <= i < s.len(),
        0 <= j < s.len(),
        i != j,
    ensures
        s[i] + s[j] <= sum(s),
{
    lemma_sum_update(s, i, 0);
    lemma_entry_le_sum(s.update(i, 0), j);
}

/// Sums add up over a concatenation.
pub proof fn lemma_sum_concat(a: Seq<usize>, b: Seq<usize>)
    ensures
        sum(a + b) == sum(a) + sum(b),
    decreases b.len(),
{
    if b.len() == 0 {
        assert(a + b =~= a);
    } else {
        assert((a + b).drop_last() =~= a + b.drop_last());
        lemma_sum_concat(a, b.drop_last());
    }
}

/// A value that no entry holds has count 0.
pub proof fn lemma_count_absent(s: Seq<usize>, o: usize)
    requires
        forall|i: int| 0 <= i < s.len() ==> s[i] != o,
    ensures
        count(s, o) == 0,
    decreases s.len(),
{
    if s.len() > 0 {
        assert forall|i: int| 0 <= i < s.drop_last().len() implies s.drop_last()[i] != o by {
            assert(s.drop_last()[i] == s[i]);
        }
        lemma_count_absent(s.drop_last(), o);
    }
}

/// The sum of a prefix is at most the sum of the whole.
pub proof fn lemma_sum_take(s: Seq<usize>, j: int)
    requires
        0 <= j <= s.len(),
    ensures
        sum(s.take(j)) <= sum(s),
{
    assert(s =~= s.take(j) + s.skip(j));
    lemma_sum_concat(s.take(j), s.skip(j));
}

/// A sequence of zeros sums to zero.
pub proof fn lemma_sum_zeros(n: nat)
    ensures
        sum(Seq::new(n, |k: int| 0usize)) == 0,
    decreases n,
{
    if n > 0 {
        assert(Seq::new(n, |k: int| 0usize).drop_last() =~= Seq::new((n - 1) as nat, |k: int| 0usize));
        lemma_sum_zeros((n - 1) as nat);
    }
}

/// The histogram of `s` over the values `0..n`: entry `o` is the number of entries
/// of `s` equal to `o`.
pub open spec fn histogram(s: Seq<usize>, n: nat) -> Seq<usize> {
    Seq::new(n, |o: int| count(s, o as usize) as usize)
}

/// A histogram over a range holding every entry counts every entry once.
pub proof fn lemma_histogram_sum(s: Seq<usize>, n: nat)
    requires
        s.len() <= usize::MAX,
        n <= usize::MAX + 1,
        forall|a: int| 0 <= a < s.len() ==> s[a] < n,
    ensures
        sum(histogram(s, n)) == s.len(),
    decreases s.len(),
{
    if s.len() == 0 {
        assert forall|k: int| 0 <= k < n implies histogram(s, n)[k] == 0usize by {}
        assert(histogram(s, n) =~= Seq::new(n, |k: int| 0usize));
        lemma_sum_zeros(n);
    } else {
        let p = s.drop_last();
        let x = s.last();
        assert forall|a: int| 0 <= a < p.len() implies p[a] < n by {
            assert(p[a] == s[a]);
        }
        lemma_histogram_sum(p, n);
        let h = histogram(p, n);
        lemma_count_le_len(p, x);
        assert forall|k: int| 0 <= k < n implies #[trigger] histogram(s, n)[k] == h.update(x as int, (h[x as int] + 1) as usize)[k] by {
            lemma_count_le_len(s, k as usize);
            lemma_count_le_len(p, k as usize);
        }
        assert(histogram(s, n) =~= h.update(x as int, (h[x as int] + 1) as usize));
        lemma_sum_update(h, x as int, (h[x as int] + 1) as usize);
    }
}

} // verus!
