use vstd::prelude::*;

use rand::XorShiftRng;

use crate::interaction::Interaction;
use crate::sampling::shuffle;

verus! {

/// `order` names each of the numbers below `len` once.
pub open spec fn is_rearrangement(order: Seq<usize>, len: nat) -> bool {
    &&& order.len() == len
    &&& order.no_duplicates()
    &&& forall|k: int| 0 <= k < order.len() ==> #[trigger] order[k] < len
}

/// The numbers below `len`, in ascending order.
pub open spec fn in_order(len: nat) -> Seq<usize> {
    Seq::new(len, |k: int| k as usize)
}

/// `test`, followed by `train`, is `data` in the order that `order` gives, each
/// interaction a clone of the one it stands for.
pub open spec fn split_by<T: Interaction>(
    data: Seq<T>,
    order: Seq<usize>,
    train: Seq<T>,
    test: Seq<T>,
) -> bool {
    &&& is_rearrangement(order, data.len())
    &&& test.len() + train.len() == data.len()
    &&& forall|k: int|
        0 <= k < test.len() ==> cloned(data[order[k] as int], #[trigger] test[k])
    &&& forall|k: int|
        0 <= k < train.len() ==> cloned(data[order[test.len() + k] as int], #[trigger] train[k])
}

// Whatever has the numbers below `len`, each as often as `in_order` has it, is
// a rearrangement of them.
proof fn lemma_rearranged(order: Seq<usize>, len: nat)
    requires
        len <= usize::MAX,
        order.to_multiset() == in_order(len).to_multiset(),
    ensures
        is_rearrangement(order, len),
{
    let sorted = in_order(len);
    order.to_multiset_ensures();
    sorted.to_multiset_ensures();
    assert(sorted.no_duplicates());
    sorted.lemma_multiset_has_no_duplicates();
    order.lemma_multiset_has_no_duplicates_conv();
    assert forall|k: int| 0 <= k < order.len() implies #[trigger] order[k] < len by {
        assert(order.contains(order[k]));
        assert(order.to_multiset().count(order[k]) > 0);
        assert(sorted.to_multiset().count(order[k]) > 0);
        assert(sorted.contains(order[k]));
        let m = choose|m: int| 0 <= m < sorted.len() && sorted[m] == order[k];
        assert(sorted[m] == m);
    }
}

/// Splits the interactions at random into a train set and a test set of
/// `test_len` interactions, and returns them in this order.
///
/// The interactions are shuffled; the first `test_len` of them are the test
/// set, the others the train set. So each interaction goes to one of the two
/// sets, once.
pub fn train_test_split<T: Interaction>(
    interactions: &[T],
    rng: &mut XorShiftRng,
    test_len: usize,
) -> (split: (Vec<T>, Vec<T>))
    requires
        test_len <= interactions@.len(),
    ensures
        split.1@.len() == test_len,
        split.0@.len() == interactions@.len() - test_len,
        exists|order: Seq<usize>| #[trigger] split_by(interactions@, order, split.0@, split.1@),
{
    let len: usize = interactions.len();
    let mut order: Vec<usize> = Vec::new();
    let mut k: usize = 0;
    while k < len
        invariant
            k <= len,
            order@ == in_order(k as nat),
        decreases len - k,
    {
        order.push(k);
        assert(order@ =~= in_order((k + 1) as nat));
        k = k + 1;
    }
    shuffle(rng, &mut order);
    proof {
        lemma_rearranged(order@, len as nat);
    }
    let mut test: Vec<T> = Vec::new();
    let mut train: Vec<T> = Vec::new();
    let mut k: usize = 0;
    while k < test_len
        invariant
            k <= test_len <= len,
            len == interactions@.len(),
            is_rearrangement(order@, len as nat),
            test@.len() == k,
            forall|j: int| 0 <= j < k ==> cloned(interactions@[order@[j] as int], #[trigger] test@[j]),
        decreases test_len - k,
    {
        test.push(interactions[order[k]].clone());
        k = k + 1;
    }
    while k < len
        invariant
            test_len <= k <= len,
            len == interactions@.len(),
            is_rearrangement(order@, len as nat),
            train@.len() == k - test_len,
            forall|j: int|
                0 <= j < k - test_len ==> cloned(
                    interactions@[order@[test_len + j] as int],
                    #[trigger] train@[j],
                ),
        decreases len - k,
    {
        train.push(interactions[order[k]].clone());
        k = k + 1;
    }
    let split = (train, test);
    assert(split_by(interactions@, order@, split.0@, split.1@));
    split
}

} // verus!
