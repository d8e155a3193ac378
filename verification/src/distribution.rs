//! Initial opinion distributions.
use vstd::prelude::*;
use crate::counting::sum;

verus! {

/// The distribution in which nobody is undecided and `ammount` agents are split
/// evenly over `opinions` opinions; the remainder `ammount % opinions` is dropped.
///
/// Entry `0` (the undecided agents) is `0`; entries `1..=opinions` are each
/// `ammount / opinions`.
pub fn even_distributed(ammount: usize, opinions: usize) -> (v: Vec<usize>)
    requires
        opinions > 0,
    ensures
        v.len() == opinions + 1,
        v[0] == 0,
        forall|i: int| 1 <= i <= opinions ==> v[i] == ammount / opinions,
        sum(v@) == opinions * (ammount / opinions),
        sum(v@) <= ammount,
{
    let num_per_opinion = ammount / opinions;
    let mut v: Vec<usize> = Vec::new();
    v.push(0);
    proof {
        assert(v@.drop_last() =~= Seq::<usize>::empty());
        assert(sum(Seq::<usize>::empty()) == 0);
        assert(sum(v@) == 0);
    }
    let mut k: usize = 0;
    while k < opinions
        invariant
            k <= opinions,
            v.len() == k + 1,
            v[0] == 0,
            num_per_opinion == ammount / opinions,
            forall|i: int| 1 <= i <= k ==> v[i] == num_per_opinion,
            sum(v@) == k * num_per_opinion,
        decreases opinions - k,
    {
        proof {
            assert(v@.push(num_per_opinion).drop_last() =~= v@);
        }
        v.push(num_per_opinion);
        k = k + 1;
        proof {
            assert(sum(v@) == (k - 1) * num_per_opinion + num_per_opinion);
            vstd::arithmetic::mul::lemma_mul_is_distributive_add_other_way(
                num_per_opinion as int, (k - 1) as int, 1);
        }
    }
    proof {
        vstd::arithmetic::div_mod::lemma_fundamental_div_mod(ammount as int, opinions as int);
        assert(opinions * (ammount / opinions) <= ammount) by (nonlinear_arith)
            requires opinions > 0, ammount % opinions >= 0,
                ammount == opinions * (ammount / opinions) + ammount % opinions;
    }
    v
}

} // verus!
