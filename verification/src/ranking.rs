//! The ranks behind the mean reciprocal rank: where each held-out item of a
//! user stands among all items, by score, once the items that the user was
//! trained on are out of contention.
//!
//! Scores are IEEE-754 singles, held as their bit patterns.

use vstd::prelude::*;

use crate::error::ModelError;
use crate::interaction::{ItemId, UserId};
use crate::matrix::{is_ascending, InteractionMatrix};
use crate::single::{at_least, spec_at_least, spec_is_nan, LOWEST_FINITE};

verus! {

/// Whether the row holds the item with the given number.
pub open spec fn row_has(row: Seq<ItemId>, item: int) -> bool {
    exists|k: int| 0 <= k < row.len() && #[trigger] row[k] == item
}

/// The scores with those of the items of `train_row` replaced by the lowest
/// finite single.
pub open spec fn suppressed(scores: Seq<u32>, train_row: Seq<ItemId>) -> Seq<u32> {
    Seq::new(
        scores.len(),
        |item: int|
            if row_has(train_row, item) {
                LOWEST_FINITE
            } else {
                scores[item]
            },
    )
}

/// The number of scores that are at least `threshold`.
pub open spec fn count_at_least(scores: Seq<u32>, threshold: u32) -> nat
    decreases scores.len(),
{
    if scores.len() == 0 {
        0
    } else {
        count_at_least(scores.drop_last(), threshold) + if spec_at_least(scores.last(), threshold) {
            1nat
        } else {
            0nat
        }
    }
}

/// The rank of an item: the number of items whose score is at least its own,
/// itself among them. Items that tie share the rank of the last of them.
pub open spec fn rank_of(scores: Seq<u32>, item: int) -> nat {
    count_at_least(scores, scores[item])
}

/// The ranks of the items of `test_row`, in the order of the row.
pub open spec fn ranks_of(scores: Seq<u32>, test_row: Seq<ItemId>) -> Seq<nat> {
    Seq::new(test_row.len(), |k: int| rank_of(scores, test_row[k] as int))
}

/// The ranks of a user's held-out items among the predictions for that user,
/// with the user's train items out of contention.
pub open spec fn spec_user_ranks(
    predictions: Seq<u32>,
    test_row: Seq<ItemId>,
    train_row: Seq<ItemId>,
) -> Seq<nat> {
    ranks_of(suppressed(predictions, train_row), test_row)
}

/// Every id of the row is the number of a score.
pub open spec fn row_within(row: Seq<ItemId>, num_scores: nat) -> bool {
    forall|k: int| 0 <= k < row.len() ==> #[trigger] row[k] < num_scores
}

// No more scores are counted than there are.
proof fn lemma_count_is_bounded(scores: Seq<u32>, threshold: u32)
    ensures
        count_at_least(scores, threshold) <= scores.len(),
    decreases scores.len(),
{
    if scores.len() > 0 {
        lemma_count_is_bounded(scores.drop_last(), threshold);
    }
}

// Nothing is counted where no score reaches the threshold.
proof fn lemma_count_none(scores: Seq<u32>, threshold: u32)
    requires
        forall|i: int| 0 <= i < scores.len() ==> !spec_at_least(#[trigger] scores[i], threshold),
    ensures
        count_at_least(scores, threshold) == 0,
    decreases scores.len(),
{
    if scores.len() > 0 {
        let rest = scores.drop_last();
        assert forall|i: int| 0 <= i < rest.len() implies !spec_at_least(
            #[trigger] rest[i],
            threshold,
        ) by {
            assert(rest[i] == scores[i]);
        }
        lemma_count_none(rest, threshold);
    }
}

// A score that reaches the threshold is counted.
proof fn lemma_count_some(scores: Seq<u32>, threshold: u32, item: int)
    requires
        0 <= item < scores.len(),
        spec_at_least(scores[item], threshold),
    ensures
        count_at_least(scores, threshold) >= 1,
    decreases scores.len(),
{
    if item < scores.len() - 1 {
        let rest = scores.drop_last();
        assert(rest[item] == scores[item]);
        lemma_count_some(rest, threshold, item);
    }
}

// One is counted where one score alone reaches the threshold.
proof fn lemma_count_single(scores: Seq<u32>, threshold: u32, item: int)
    requires
        0 <= item < scores.len(),
        spec_at_least(scores[item], threshold),
        forall|i: int|
            0 <= i < scores.len() && i != item ==> !spec_at_least(#[trigger] scores[i], threshold),
    ensures
        count_at_least(scores, threshold) == 1,
    decreases scores.len(),
{
    let rest = scores.drop_last();
    if item == scores.len() - 1 {
        assert forall|i: int| 0 <= i < rest.len() implies !spec_at_least(
            #[trigger] rest[i],
            threshold,
        ) by {
            assert(rest[i] == scores[i]);
        }
        lemma_count_none(rest, threshold);
    } else {
        assert(rest[item] == scores[item]);
        assert forall|i: int| 0 <= i < rest.len() && i != item implies !spec_at_least(
            #[trigger] rest[i],
            threshold,
        ) by {
            assert(rest[i] == scores[i]);
        }
        lemma_count_single(rest, threshold, item);
        assert(!spec_at_least(scores[scores.len() - 1], threshold));
    }
}

/// A rank is at most the number of items, and at least one unless the item's
/// score is a NaN.
pub proof fn lemma_rank_bounds(scores: Seq<u32>, item: int)
    requires
        0 <= item < scores.len(),
    ensures
        rank_of(scores, item) <= scores.len(),
        !spec_is_nan(scores[item]) ==> rank_of(scores, item) >= 1,
{
    lemma_count_is_bounded(scores, scores[item]);
    if !spec_is_nan(scores[item]) {
        lemma_count_some(scores, scores[item], item);
    }
}

/// An item ranks first where the user was not trained on it, its predicted
/// score is above the lowest finite single, and no other item that the user
/// was not trained on has a predicted score that is at least its own.
pub proof fn lemma_best_item_ranks_first(
    predictions: Seq<u32>,
    train_row: Seq<ItemId>,
    item: int,
)
    requires
        0 <= item < predictions.len(),
        !row_has(train_row, item),
        !spec_is_nan(predictions[item]),
        !spec_at_least(LOWEST_FINITE, predictions[item]),
        forall|other: int|
            0 <= other < predictions.len() && other != item && !row_has(train_row, other)
                ==> !spec_at_least(#[trigger] predictions[other], predictions[item]),
    ensures
        rank_of(suppressed(predictions, train_row), item) == 1,
{
    let scores = suppressed(predictions, train_row);
    assert(scores[item] == predictions[item]);
    assert forall|other: int| 0 <= other < scores.len() && other != item implies !spec_at_least(
        #[trigger] scores[other],
        scores[item],
    ) by {
        if !row_has(train_row, other) {
            assert(!spec_at_least(predictions[other], predictions[item]));
        }
    }
    lemma_count_single(scores, scores[item], item);
}

/// The predicted scores of the items that a user was trained on have no part
/// in the ranks: predictions that differ on those items alone give the same
/// ranks.
pub proof fn lemma_train_scores_do_not_count(
    predictions: Seq<u32>,
    others: Seq<u32>,
    test_row: Seq<ItemId>,
    train_row: Seq<ItemId>,
)
    requires
        predictions.len() == others.len(),
        forall|item: int|
            0 <= item < predictions.len() && !row_has(train_row, item) ==> predictions[item]
                == others[item],
    ensures
        suppressed(predictions, train_row) == suppressed(others, train_row),
        spec_user_ranks(predictions, test_row, train_row) == spec_user_ranks(
            others,
            test_row,
            train_row,
        ),
{
    assert(suppressed(predictions, train_row) =~= suppressed(others, train_row));
}

/// Takes the items of `train_row` out of contention: the score of each is set
/// to the lowest finite single.
pub fn suppress_train_items(scores: &mut Vec<u32>, train_row: &[ItemId])
    requires
        row_within(train_row@, old(scores)@.len()),
    ensures
        final(scores)@ == suppressed(old(scores)@, train_row@),
{
    let count: usize = train_row.len();
    let mut k: usize = 0;
    assert(scores@ =~= suppressed(old(scores)@, train_row@.take(0)));
    while k < count
        invariant
            k <= count,
            count == train_row@.len(),
            scores@.len() == old(scores)@.len(),
            row_within(train_row@, old(scores)@.len()),
            scores@ == suppressed(old(scores)@, train_row@.take(k as int)),
        decreases count - k,
    {
        let item: ItemId = train_row[k];
        scores[item] = LOWEST_FINITE;
        proof {
            let before = train_row@.take(k as int);
            let after = train_row@.take(k + 1);
            assert forall|other: int| 0 <= other < scores@.len() implies scores@[other]
                == suppressed(old(scores)@, after)[other] by {
                if row_has(before, other) {
                    let m = choose|m: int| 0 <= m < before.len() && #[trigger] before[m] == other;
                    assert(after[m] == other);
                }
                if other == item {
                    assert(after[k as int] == other);
                }
                if row_has(after, other) && other != item {
                    let m = choose|m: int| 0 <= m < after.len() && #[trigger] after[m] == other;
                    assert(before[m] == other);
                }
            }
            assert(scores@ =~= suppressed(old(scores)@, after));
        }
        k = k + 1;
    }
    assert(train_row@.take(count as int) =~= train_row@);
}

/// The number of scores that are at least `threshold`.
pub fn count_scores_at_least(scores: &[u32], threshold: u32) -> (count: usize)
    ensures
        count == count_at_least(scores@, threshold),
{
    let len: usize = scores.len();
    let mut count: usize = 0;
    let mut i: usize = 0;
    assert(scores@.take(0) =~= Seq::<u32>::empty());
    while i < len
        invariant
            i <= len,
            len == scores@.len(),
            count <= i,
            count == count_at_least(scores@.take(i as int), threshold),
        decreases len - i,
    {
        proof {
            assert(scores@.take(i + 1).drop_last() =~= scores@.take(i as int));
            assert(scores@.take(i + 1).last() == scores@[i as int]);
        }
        if at_least(scores[i], threshold) {
            count = count + 1;
        }
        i = i + 1;
    }
    assert(scores@.take(len as int) =~= scores@);
    count
}

/// The rank of each item of `test_row` among the given scores.
pub fn item_ranks(scores: &[u32], test_row: &[ItemId]) -> (ranks: Vec<usize>)
    requires
        row_within(test_row@, scores@.len()),
    ensures
        ranks@.len() == test_row@.len(),
        ranks@.map_values(|rank: usize| rank as nat) == ranks_of(scores@, test_row@),
{
    let count: usize = test_row.len();
    let mut ranks: Vec<usize> = Vec::new();
    let mut k: usize = 0;
    while k < count
        invariant
            k <= count,
            count == test_row@.len(),
            row_within(test_row@, scores@.len()),
            ranks@.len() == k,
            forall|j: int| 0 <= j < k ==> #[trigger] ranks@[j] == rank_of(scores@, test_row@[j] as int),
        decreases count - k,
    {
        let item: ItemId = test_row[k];
        let rank: usize = count_scores_at_least(scores, scores[item]);
        ranks.push(rank);
        k = k + 1;
    }
    assert(ranks@.map_values(|rank: usize| rank as nat) =~= ranks_of(scores@, test_row@));
    ranks
}

/// The users whose ranks count: those with a held-out item, in ascending
/// order. A user without one is left out of the mean, not counted as zero.
pub fn evaluated_users(test: &InteractionMatrix) -> (users: Vec<UserId>)
    requires
        test.wf(),
    ensures
        is_ascending(users@),
        forall|user: UserId|
            users@.contains(user) <==> user < test@.len() && (#[trigger] test@[user as int]).len() > 0,
{
    let rows = test.rows();
    let count: usize = rows.len();
    let mut users: Vec<UserId> = Vec::new();
    let mut user: usize = 0;
    while user < count
        invariant
            user <= count,
            count == test@.len(),
            rows@.len() == test@.len(),
            forall|u: int| 0 <= u < rows@.len() ==> (#[trigger] rows@[u])@ == test@[u],
            is_ascending(users@),
            forall|k: int| 0 <= k < users@.len() ==> #[trigger] users@[k] < user,
            forall|other: UserId|
                users@.contains(other) <==> other < user && (#[trigger] test@[other as int]).len() > 0,
        decreases count - user,
    {
        if rows[user].len() > 0 {
            let ghost before = users@;
            users.push(user);
            proof {
                assert forall|other: UserId| users@.contains(other) <==> other < user + 1 && (
                #[trigger] test@[other as int]).len() > 0 by {
                    if users@.contains(other) {
                        let k = choose|k: int| 0 <= k < users@.len() && users@[k] == other;
                        if k < before.len() {
                            assert(before[k] == other);
                            assert(before.contains(other));
                        }
                    }
                    if other < user && test@[other as int].len() > 0 {
                        assert(before.contains(other));
                        let k = choose|k: int| 0 <= k < before.len() && before[k] == other;
                        assert(users@[k] == other);
                    }
                    if other == user {
                        assert(users@[before.len() as int] == other);
                    }
                }
            }
        }
        user = user + 1;
    }
    users
}

/// The ranks of the held-out items of one user, in the order of the user's
/// test row: the predictions for the user, with the items of the user's train
/// row out of contention, ranked as `rank_of` says.
///
/// There must be a prediction for each item of both matrices, and the user
/// must be one of both; the request is refused otherwise.
pub fn user_ranks(
    predictions: Vec<u32>,
    test: &InteractionMatrix,
    train: &InteractionMatrix,
    user_id: UserId,
) -> (ranks: Result<Vec<usize>, ModelError>)
    requires
        test.wf(),
        train.wf(),
    ensures
        ranks is Ok <==> {
            &&& user_id < test.spec_num_users()
            &&& user_id < train.spec_num_users()
            &&& predictions@.len() == test.spec_num_items()
            &&& predictions@.len() == train.spec_num_items()
        },
        ranks matches Ok(found) ==> found@.map_values(|rank: usize| rank as nat) == spec_user_ranks(
            predictions@,
            test@[user_id as int],
            train@[user_id as int],
        ),
        ranks matches Err(e) ==> e == ModelError::InvalidIndex,
{
    if user_id >= test.num_users() || user_id >= train.num_users() || predictions.len()
        != test.num_items() || predictions.len() != train.num_items() {
        return Err(ModelError::InvalidIndex);
    }
    let mut scores = predictions;
    let train_row = train.get(user_id);
    let test_row = test.get(user_id);
    suppress_train_items(&mut scores, train_row);
    Ok(item_ranks(scores.as_slice(), test_row))
}

} // verus!
