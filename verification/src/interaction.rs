use vstd::prelude::*;

use crate::error::ModelError;

verus! {

/// Handle of a user: dense, zero-based.
pub type UserId = usize;

/// Handle of an item: dense, zero-based.
pub type ItemId = usize;

/// The bit pattern of the IEEE-754 single `1.0`, the weight of an unweighted interaction.
pub const UNIT_WEIGHT_BITS: u32 = 0x3F80_0000;

/// One observed interaction of a user with an item.
///
/// The weight is carried as the bit pattern of an IEEE-754 single, so that an
/// interaction stays a plain value.
///
/// Each method returns what the `spec_` function of its name says. An
/// implementation in unverified code defines the `spec_` functions as ordinary
/// methods, with the bodies of the methods they describe.
pub trait Interaction: Sync + Clone {
    /// The user of this interaction.
    spec fn spec_user_id(&self) -> UserId;

    /// The item of this interaction.
    spec fn spec_item_id(&self) -> ItemId;

    /// The weight of this interaction, as the bit pattern of a single.
    spec fn spec_weight_bits(&self) -> u32;

    fn user_id(&self) -> (id: UserId)
        ensures
            id == self.spec_user_id(),
    ;

    fn item_id(&self) -> (id: ItemId)
        ensures
            id == self.spec_item_id(),
    ;

    fn weight_bits(&self) -> (bits: u32)
        ensures
            bits == self.spec_weight_bits(),
    ;
}

/// An interaction without a weight of its own: its weight is always one.
#[derive(Clone, Copy, Debug)]
pub struct UnweightedInteraction {
    user_id: UserId,
    item_id: ItemId,
}

impl UnweightedInteraction {
    pub fn new(user_id: UserId, item_id: ItemId) -> (interaction: Self)
        ensures
            interaction.spec_user_id() == user_id,
            interaction.spec_item_id() == item_id,
    {
        UnweightedInteraction { user_id, item_id }
    }
}

impl Interaction for UnweightedInteraction {
    closed spec fn spec_user_id(&self) -> UserId {
        self.user_id
    }

    closed spec fn spec_item_id(&self) -> ItemId {
        self.item_id
    }

    open spec fn spec_weight_bits(&self) -> u32 {
        UNIT_WEIGHT_BITS
    }

    fn user_id(&self) -> (id: UserId) {
        self.user_id
    }

    fn item_id(&self) -> (id: ItemId) {
        self.item_id
    }

    fn weight_bits(&self) -> (bits: u32) {
        UNIT_WEIGHT_BITS
    }
}

/// The (user, item) pairs of a sequence of interactions, in order.
pub open spec fn id_pairs<T: Interaction>(data: Seq<T>) -> Seq<(UserId, ItemId)> {
    Seq::new(data.len(), |k: int| (data[k].spec_user_id(), data[k].spec_item_id()))
}

/// The least number that is above every user id of `pairs`; zero when there is none.
pub open spec fn user_bound(pairs: Seq<(UserId, ItemId)>) -> nat
    decreases pairs.len(),
{
    if pairs.len() == 0 {
        0
    } else {
        let rest = user_bound(pairs.drop_last());
        if pairs.last().0 < rest {
            rest
        } else {
            (pairs.last().0 + 1) as nat
        }
    }
}

/// The least number that is above every item id of `pairs`; zero when there is none.
pub open spec fn item_bound(pairs: Seq<(UserId, ItemId)>) -> nat
    decreases pairs.len(),
{
    if pairs.len() == 0 {
        0
    } else {
        let rest = item_bound(pairs.drop_last());
        if pairs.last().1 < rest {
            rest
        } else {
            (pairs.last().1 + 1) as nat
        }
    }
}

/// Every id lies below its bound, and a non-empty sequence reaches both bounds.
pub proof fn lemma_bounds_are_least(pairs: Seq<(UserId, ItemId)>)
    ensures
        forall|k: int| 0 <= k < pairs.len() ==> (#[trigger] pairs[k]).0 < user_bound(pairs),
        forall|k: int| 0 <= k < pairs.len() ==> (#[trigger] pairs[k]).1 < item_bound(pairs),
        pairs.len() > 0 ==> exists|k: int| 0 <= k < pairs.len() && (#[trigger] pairs[k]).0 + 1 == user_bound(pairs),
        pairs.len() > 0 ==> exists|k: int| 0 <= k < pairs.len() && (#[trigger] pairs[k]).1 + 1 == item_bound(pairs),
        pairs.len() > 0 ==> user_bound(pairs) > 0 && item_bound(pairs) > 0,
    decreases pairs.len(),
{
    if pairs.len() > 0 {
        let rest = pairs.drop_last();
        let last = pairs.len() - 1;
        lemma_bounds_are_least(rest);
        assert forall|k: int| 0 <= k < pairs.len() implies (#[trigger] pairs[k]).0 < user_bound(pairs)
            && pairs[k].1 < item_bound(pairs) by {
            if k < last {
                assert(rest[k] == pairs[k]);
            }
        }
        if pairs.last().0 < user_bound(rest) {
            let k = choose|k: int| 0 <= k < rest.len() && (#[trigger] rest[k]).0 + 1 == user_bound(rest);
            assert(pairs[k] == rest[k]);
        } else {
            assert(pairs[last].0 + 1 == user_bound(pairs));
        }
        if pairs.last().1 < item_bound(rest) {
            let k = choose|k: int| 0 <= k < rest.len() && (#[trigger] rest[k]).1 + 1 == item_bound(rest);
            assert(pairs[k] == rest[k]);
        } else {
            assert(pairs[last].1 + 1 == item_bound(pairs));
        }
    }
}

/// The dimensions that hold every id of `data`: one more than the largest user
/// id, and one more than the largest item id.
///
/// An empty sequence has no dimensions. Dimensions that do not fit the
/// machine's word cannot be handed out, so an id equal to `usize::MAX` is
/// refused as out of bounds.
pub fn get_dimensions<T: Interaction>(data: &[T]) -> (dims: Result<(usize, usize), ModelError>)
    ensures
        data@.len() == 0 <==> dims == Err::<(usize, usize), ModelError>(ModelError::EmptyInput),
        data@.len() > 0 && (user_bound(id_pairs(data@)) > usize::MAX || item_bound(id_pairs(data@))
            > usize::MAX) <==> dims == Err::<(usize, usize), ModelError>(ModelError::InvalidIndex),
        dims matches Ok((num_users, num_items)) ==> num_users == user_bound(id_pairs(data@))
            && num_items == item_bound(id_pairs(data@)),
        dims matches Err(e) ==> e == ModelError::EmptyInput || e == ModelError::InvalidIndex,
{
    let n: usize = data.len();
    if n == 0 {
        return Err(ModelError::EmptyInput);
    }
    let ghost pairs = id_pairs(data@);
    // Largest ids seen so far; the bounds are one above them.
    let mut max_user: usize = data[0].user_id();
    let mut max_item: usize = data[0].item_id();
    proof {
        let first = pairs.take(1);
        assert(first.drop_last() =~= Seq::<(UserId, ItemId)>::empty());
        assert(first.last() == pairs[0]);
        assert(user_bound(first.drop_last()) == 0);
        assert(item_bound(first.drop_last()) == 0);
    }
    let mut k: usize = 1;
    while k < n
        invariant
            1 <= k <= n,
            n == data@.len(),
            pairs == id_pairs(data@),
            max_user + 1 == user_bound(pairs.take(k as int)),
            max_item + 1 == item_bound(pairs.take(k as int)),
        decreases n - k,
    {
        let user: usize = data[k].user_id();
        let item: usize = data[k].item_id();
        proof {
            assert(pairs.take(k + 1).drop_last() =~= pairs.take(k as int));
            assert(pairs.take(k + 1).last() == pairs[k as int]);
        }
        if user > max_user {
            max_user = user;
        }
        if item > max_item {
            max_item = item;
        }
        k = k + 1;
    }
    proof {
        assert(pairs.take(n as int) =~= pairs);
    }
    if max_user == usize::MAX || max_item == usize::MAX {
        return Err(ModelError::InvalidIndex);
    }
    Ok((max_user + 1, max_item + 1))
}

} // verus!
