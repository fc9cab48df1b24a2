use vstd::prelude::*;

use crate::error::ModelError;
use crate::interaction::{id_pairs, Interaction, ItemId, UserId};

verus! {

/// The observed interactions, user by user: row `u` holds the items of user
/// `u`, in ascending order, each once.
#[derive(Debug)]
pub struct InteractionMatrix {
    num_users: usize,
    num_items: usize,
    rows: Vec<Vec<ItemId>>,
}

/// Each item of the row is above the one before it.
pub open spec fn is_ascending(row: Seq<ItemId>) -> bool {
    forall|i: int, j: int| 0 <= i < j < row.len() ==> row[i] < row[j]
}

/// The test "is below `item`".
pub open spec fn below(item: ItemId) -> spec_fn(ItemId) -> bool {
    |other: ItemId| other < item
}

/// The test "is above `item`".
pub open spec fn above(item: ItemId) -> spec_fn(ItemId) -> bool {
    |other: ItemId| other > item
}

/// The row with `item` in its place: the items below it, the item itself, the
/// items above it.
#[verifier::opaque]
pub open spec fn inserted(row: Seq<ItemId>, item: ItemId) -> Seq<ItemId> {
    row.filter(below(item)).push(item) + row.filter(above(item))
}

/// The rows after the pair (`user`, `item`) was added.
pub open spec fn with_pair(rows: Seq<Seq<ItemId>>, user: int, item: ItemId) -> Seq<Seq<ItemId>> {
    rows.update(user, inserted(rows[user], item))
}

/// The rows hold the given pairs and no others.
pub open spec fn holds_exactly(rows: Seq<Seq<ItemId>>, pairs: Seq<(UserId, ItemId)>) -> bool {
    forall|user: UserId, item: ItemId|
        user < rows.len() ==> (#[trigger] rows[user as int].contains(item) <==> pairs.contains(
            (user, item),
        ))
}

/// Every id of the pairs lies inside the given dimensions.
pub open spec fn within(pairs: Seq<(UserId, ItemId)>, num_users: usize, num_items: usize) -> bool {
    forall|k: int|
        0 <= k < pairs.len() ==> (#[trigger] pairs[k]).0 < num_users && pairs[k].1 < num_items
}

/// The items before `index` are below `item`, the others are not.
pub open spec fn splits_at(row: Seq<ItemId>, item: ItemId, index: int) -> bool {
    &&& 0 <= index <= row.len()
    &&& forall|k: int| 0 <= k < index ==> row[k] < item
    &&& forall|k: int| index <= k < row.len() ==> row[k] >= item
}

// A filter keeps a prefix whole where the test holds on it and nowhere else.
proof fn lemma_filter_keeps_prefix(row: Seq<ItemId>, test: spec_fn(ItemId) -> bool, index: int)
    requires
        0 <= index <= row.len(),
        forall|k: int| 0 <= k < index ==> test(#[trigger] row[k]),
        forall|k: int| index <= k < row.len() ==> !test(#[trigger] row[k]),
    ensures
        row.filter(test) == row.take(index),
    decreases row.len(),
{
    reveal(Seq::filter);
    if row.len() > 0 {
        let rest = row.drop_last();
        if index == row.len() {
            lemma_filter_keeps_prefix(rest, test, index - 1);
            assert(rest.take(index - 1).push(row.last()) =~= row.take(index));
        } else {
            lemma_filter_keeps_prefix(rest, test, index);
            assert(rest.take(index) =~= row.take(index));
        }
    } else {
        assert(row.take(index) =~= row);
    }
}

// A filter keeps a suffix whole where the test holds on it and nowhere else.
proof fn lemma_filter_keeps_suffix(row: Seq<ItemId>, test: spec_fn(ItemId) -> bool, index: int)
    requires
        0 <= index <= row.len(),
        forall|k: int| 0 <= k < index ==> !test(#[trigger] row[k]),
        forall|k: int| index <= k < row.len() ==> test(#[trigger] row[k]),
    ensures
        row.filter(test) == row.skip(index),
    decreases row.len(),
{
    reveal(Seq::filter);
    if row.len() > 0 {
        let rest = row.drop_last();
        if index == row.len() {
            lemma_filter_keeps_suffix(rest, test, index - 1);
            assert(rest.skip(index - 1) =~= row.skip(index));
        } else {
            lemma_filter_keeps_suffix(rest, test, index);
            assert(rest.skip(index).push(row.last()) =~= row.skip(index));
        }
    } else {
        assert(row.skip(index) =~= row);
    }
}

// An ascending row splits somewhere.
proof fn lemma_splits_somewhere(row: Seq<ItemId>, item: ItemId) -> (index: int)
    requires
        is_ascending(row),
    ensures
        splits_at(row, item, index),
    decreases row.len(),
{
    if row.len() == 0 {
        0
    } else if row.last() < item {
        row.len() as int
    } else {
        let rest = row.drop_last();
        let index = lemma_splits_somewhere(rest, item);
        assert forall|k: int| 0 <= k < index implies row[k] < item by {
            assert(rest[k] == row[k]);
        }
        assert forall|k: int| index <= k < row.len() implies row[k] >= item by {
            if k < rest.len() {
                assert(rest[k] == row[k]);
            }
        }
        index
    }
}

// What `inserted` is where the items before `index` are below `item`, those
// from `upper` on are above it, and those between are `item` itself.
proof fn lemma_inserted_between(row: Seq<ItemId>, item: ItemId, index: int, upper: int)
    requires
        0 <= index <= upper <= row.len(),
        forall|k: int| 0 <= k < index ==> #[trigger] row[k] < item,
        forall|k: int| index <= k < upper ==> #[trigger] row[k] == item,
        forall|k: int| upper <= k < row.len() ==> #[trigger] row[k] > item,
    ensures
        inserted(row, item) == row.take(index).push(item) + row.skip(upper),
{
    reveal(inserted);
    lemma_filter_keeps_prefix(row, below(item), index);
    lemma_filter_keeps_suffix(row, above(item), upper);
}

/// What `inserted` is where the row splits at `index`: the row itself where
/// `item` stands at `index`, and else the row with `item` put in at `index`.
pub proof fn lemma_inserted_at(row: Seq<ItemId>, item: ItemId, index: int)
    requires
        is_ascending(row),
        splits_at(row, item, index),
    ensures
        index < row.len() && row[index] == item ==> inserted(row, item) == row,
        !(index < row.len() && row[index] == item) ==> inserted(row, item) == row.insert(index, item),
        row.contains(item) <==> index < row.len() && row[index] == item,
{
    if index < row.len() && row[index] == item {
        assert forall|k: int| index + 1 <= k < row.len() implies #[trigger] row[k] > item by {
            assert(row[index] < row[k]);
        }
        lemma_inserted_between(row, item, index, index + 1);
        assert(row.take(index).push(item) + row.skip(index + 1) =~= row);
    } else {
        assert forall|k: int| index <= k < row.len() implies #[trigger] row[k] > item by {
            if k > index {
                assert(row[index] < row[k]);
            }
        }
        lemma_inserted_between(row, item, index, index);
        assert(row.take(index).push(item) + row.skip(index) =~= row.insert(index, item));
        assert forall|k: int| 0 <= k < row.len() implies row[k] != item by {
            if k < index {
                assert(row[k] < item);
            } else {
                assert(row[k] > item);
            }
        }
    }
}

// A row stays ascending where `item` is put between the items below it and
// the items above it.
proof fn lemma_insert_keeps_ascending(row: Seq<ItemId>, item: ItemId, index: int)
    requires
        is_ascending(row),
        0 <= index <= row.len(),
        forall|k: int| 0 <= k < index ==> #[trigger] row[k] < item,
        forall|k: int| index <= k < row.len() ==> #[trigger] row[k] > item,
    ensures
        is_ascending(row.insert(index, item)),
{
    let after = row.insert(index, item);
    assert forall|i: int, j: int| 0 <= i < j < after.len() implies after[i] < after[j] by {
        if j < index {
            assert(after[i] == row[i] && after[j] == row[j]);
        } else if j == index {
            assert(after[i] == row[i]);
        } else if i < index {
            assert(after[i] == row[i] && after[j] == row[j - 1]);
        } else if i == index {
            assert(after[j] == row[j - 1]);
        } else {
            assert(after[i] == row[i - 1] && after[j] == row[j - 1]);
        }
    }
}

// A row with one more item holds that item and what it held before.
proof fn lemma_insert_holds(row: Seq<ItemId>, item: ItemId, index: int)
    requires
        0 <= index <= row.len(),
    ensures
        forall|other: ItemId|
            #[trigger] row.insert(index, item).contains(other) <==> other == item || row.contains(
                other,
            ),
{
    let after = row.insert(index, item);
    assert forall|other: ItemId| #[trigger] after.contains(other) implies other == item
        || row.contains(other) by {
        let k = choose|k: int| 0 <= k < after.len() && after[k] == other;
        if k < index {
            assert(row[k] == other);
        } else if k > index {
            assert(row[k - 1] == other);
        }
    }
    assert forall|other: ItemId| other == item || row.contains(other) implies #[trigger] after.contains(
        other,
    ) by {
        if other == item {
            assert(after[index] == item);
        } else {
            let k = choose|k: int| 0 <= k < row.len() && row[k] == other;
            if k < index {
                assert(after[k] == other);
            } else {
                assert(after[k + 1] == other);
            }
        }
    }
}

/// `inserted` keeps an ascending row ascending, adds `item` to what the row
/// holds and nothing else, and leaves a row that holds `item` as it is.
pub proof fn lemma_inserted(row: Seq<ItemId>, item: ItemId)
    requires
        is_ascending(row),
    ensures
        is_ascending(inserted(row, item)),
        forall|other: ItemId|
            #[trigger] inserted(row, item).contains(other) <==> other == item || row.contains(other),
        row.contains(item) ==> inserted(row, item) == row,
        !row.contains(item) ==> inserted(row, item).len() == row.len() + 1,
{
    let index = lemma_splits_somewhere(row, item);
    lemma_inserted_at(row, item, index);
    if !row.contains(item) {
        assert forall|k: int| index <= k < row.len() implies #[trigger] row[k] > item by {
            assert(row.contains(row[k]));
        }
        lemma_insert_keeps_ascending(row, item, index);
        lemma_insert_holds(row, item, index);
    }
}

/// Adding a pair twice gives what adding it once gives.
pub proof fn lemma_add_is_idempotent(rows: Seq<Seq<ItemId>>, user: int, item: ItemId)
    requires
        0 <= user < rows.len(),
        is_ascending(rows[user]),
    ensures
        with_pair(with_pair(rows, user, item), user, item) == with_pair(rows, user, item),
{
    lemma_inserted(rows[user], item);
    let once = inserted(rows[user], item);
    assert(once.contains(item));
    lemma_inserted(once, item);
    assert(with_pair(with_pair(rows, user, item), user, item) =~= with_pair(rows, user, item));
}

/// Two ascending rows that hold the same items are the same row.
pub proof fn lemma_ascending_rows_are_equal(a: Seq<ItemId>, b: Seq<ItemId>)
    requires
        is_ascending(a),
        is_ascending(b),
        forall|item: ItemId| a.contains(item) <==> b.contains(item),
    ensures
        a == b,
    decreases a.len(),
{
    if a.len() == 0 {
        if b.len() > 0 {
            assert(b.contains(b[0]));
            assert(a.contains(b[0]));
        }
        assert(a =~= b);
    } else {
        assert(a.contains(a.last()));
        assert(b.contains(a.last()));
        let in_b = choose|k: int| 0 <= k < b.len() && b[k] == a.last();
        assert(b.contains(b.last()));
        assert(a.contains(b.last()));
        let in_a = choose|k: int| 0 <= k < a.len() && a[k] == b.last();
        assert(a.last() == b.last());
        let a_rest = a.drop_last();
        let b_rest = b.drop_last();
        assert forall|item: ItemId| a_rest.contains(item) <==> b_rest.contains(item) by {
            if a_rest.contains(item) {
                let k = choose|k: int| 0 <= k < a_rest.len() && a_rest[k] == item;
                assert(a[k] == item);
                assert(a.contains(item));
                let m = choose|m: int| 0 <= m < b.len() && b[m] == item;
                assert(b_rest[m] == item);
            }
            if b_rest.contains(item) {
                let k = choose|k: int| 0 <= k < b_rest.len() && b_rest[k] == item;
                assert(b[k] == item);
                assert(b.contains(item));
                let m = choose|m: int| 0 <= m < a.len() && a[m] == item;
                assert(a_rest[m] == item);
            }
        }
        lemma_ascending_rows_are_equal(a_rest, b_rest);
        assert(a =~= a_rest.push(a.last()));
        assert(b =~= b_rest.push(b.last()));
    }
}

impl View for InteractionMatrix {
    type V = Seq<Seq<ItemId>>;

    /// The rows, user by user.
    closed spec fn view(&self) -> Seq<Seq<ItemId>> {
        Seq::new(self.rows@.len(), |user: int| self.rows@[user]@)
    }
}

impl InteractionMatrix {
    /// The number of users that the matrix was declared for.
    pub closed spec fn spec_num_users(&self) -> usize {
        self.num_users
    }

    /// The number of items that the matrix was declared for.
    pub closed spec fn spec_num_items(&self) -> usize {
        self.num_items
    }

    /// There is a row for each user, each row is ascending, and every item lies
    /// below the declared number of items.
    pub open spec fn wf(&self) -> bool {
        &&& self@.len() == self.spec_num_users()
        &&& forall|user: int| 0 <= user < self@.len() ==> is_ascending(#[trigger] self@[user])
        &&& forall|user: int, k: int|
            0 <= user < self@.len() && 0 <= k < self@[user].len() ==> #[trigger] self@[user][k]
                < self.spec_num_items()
    }

    /// A matrix without interactions.
    pub fn new(num_users: usize, num_items: usize) -> (matrix: Self)
        ensures
            matrix.wf(),
            matrix.spec_num_users() == num_users,
            matrix.spec_num_items() == num_items,
            matrix@ == Seq::new(num_users as nat, |user: int| Seq::<ItemId>::empty()),
    {
        let mut rows: Vec<Vec<ItemId>> = Vec::new();
        let mut user: usize = 0;
        while user < num_users
            invariant
                user <= num_users,
                rows@.len() == user,
                forall|u: int| 0 <= u < user ==> (#[trigger] rows@[u])@ == Seq::<ItemId>::empty(),
            decreases num_users - user,
        {
            rows.push(Vec::new());
            user = user + 1;
        }
        let matrix = InteractionMatrix { num_users: num_users, num_items: num_items, rows: rows };
        assert(matrix@ =~= Seq::new(num_users as nat, |user: int| Seq::<ItemId>::empty()));
        matrix
    }

    #[verifier::when_used_as_spec(spec_num_users)]
    pub fn num_users(&self) -> (count: usize)
        ensures
            count == self.spec_num_users(),
    {
        self.num_users
    }

    #[verifier::when_used_as_spec(spec_num_items)]
    pub fn num_items(&self) -> (count: usize)
        ensures
            count == self.spec_num_items(),
    {
        self.num_items
    }

    /// All rows, user by user.
    pub fn rows(&self) -> (rows: &[Vec<ItemId>])
        ensures
            rows@.len() == self@.len(),
            forall|user: int| 0 <= user < rows@.len() ==> (#[trigger] rows@[user])@ == self@[user],
    {
        self.rows.as_slice()
    }

    /// The row of one user.
    pub fn get(&self, user_id: UserId) -> (row: &[ItemId])
        requires
            user_id < self@.len(),
        ensures
            row@ == self@[user_id as int],
    {
        self.rows[user_id].as_slice()
    }

    /// Adds the pair (`user_id`, `item_id`); a pair that is already there is
    /// not added again.
    pub fn add(&mut self, user_id: UserId, item_id: ItemId)
        requires
            old(self).wf(),
            user_id < old(self).spec_num_users(),
            item_id < old(self).spec_num_items(),
        ensures
            final(self).wf(),
            final(self).spec_num_users() == old(self).spec_num_users(),
            final(self).spec_num_items() == old(self).spec_num_items(),
            final(self)@ == with_pair(old(self)@, user_id as int, item_id),
    {
        let ghost before = self@;
        let ghost row = self@[user_id as int];
        let index: usize = insertion_point(&self.rows[user_id], item_id);
        proof {
            lemma_inserted_at(row, item_id, index as int);
            lemma_inserted(row, item_id);
        }
        if index == self.rows[user_id].len() || self.rows[user_id][index] != item_id {
            self.rows[user_id].insert(index, item_id);
        }
        proof {
            assert(self@ =~= with_pair(before, user_id as int, item_id));
            let after = inserted(row, item_id);
            assert forall|user: int, k: int|
                0 <= user < self@.len() && 0 <= k < self@[user].len() implies #[trigger] self@[user][k]
                < self.spec_num_items() by {
                if user == user_id {
                    assert(after.contains(after[k]));
                    if after[k] != item_id {
                        let m = choose|m: int| 0 <= m < row.len() && row[m] == after[k];
                        assert(before[user][m] < self.spec_num_items());
                    }
                } else {
                    assert(self@[user][k] == before[user][k]);
                }
            }
        }
    }

    /// Adds the pair (`user_id`, `item_id`) where both ids lie inside the
    /// matrix's dimensions, and refuses it, leaving the matrix as it is, where
    /// one does not.
    pub fn try_add(&mut self, user_id: UserId, item_id: ItemId) -> (added: Result<(), ModelError>)
        requires
            old(self).wf(),
        ensures
            final(self).wf(),
            final(self).spec_num_users() == old(self).spec_num_users(),
            final(self).spec_num_items() == old(self).spec_num_items(),
            user_id < old(self).spec_num_users() && item_id < old(self).spec_num_items() <==> added
                is Ok,
            added is Ok ==> final(self)@ == with_pair(old(self)@, user_id as int, item_id),
            added matches Err(e) ==> e == ModelError::InvalidIndex && final(self)@ == old(self)@,
    {
        if user_id >= self.num_users || item_id >= self.num_items {
            return Err(ModelError::InvalidIndex);
        }
        self.add(user_id, item_id);
        Ok(())
    }

    /// The matrix of the given interactions, whose ids lie inside the given
    /// dimensions. In which order they come, and how often each, makes no
    /// difference.
    pub fn from_interactions<T: Interaction>(
        num_users: usize,
        num_items: usize,
        interactions: &[T],
    ) -> (matrix: Self)
        requires
            within(id_pairs(interactions@), num_users, num_items),
        ensures
            matrix.wf(),
            matrix.spec_num_users() == num_users,
            matrix.spec_num_items() == num_items,
            holds_exactly(matrix@, id_pairs(interactions@)),
    {
        let mut matrix = InteractionMatrix::new(num_users, num_items);
        let ghost pairs = id_pairs(interactions@);
        let count: usize = interactions.len();
        let mut k: usize = 0;
        assert(holds_exactly(matrix@, pairs.take(0)));
        while k < count
            invariant
                k <= count,
                count == interactions@.len(),
                pairs == id_pairs(interactions@),
                within(pairs, num_users, num_items),
                matrix.wf(),
                matrix.spec_num_users() == num_users,
                matrix.spec_num_items() == num_items,
                holds_exactly(matrix@, pairs.take(k as int)),
            decreases count - k,
        {
            let ghost before = matrix@;
            let elem = &interactions[k];
            assert(pairs[k as int] == (elem.spec_user_id(), elem.spec_item_id()));
            matrix.add(elem.user_id(), elem.item_id());
            proof {
                lemma_with_pair_holds(before, pairs.take(k as int), pairs[k as int]);
                assert(pairs.take(k as int).push(pairs[k as int]) =~= pairs.take(k + 1));
            }
            k = k + 1;
        }
        assert(pairs.take(count as int) =~= pairs);
        matrix
    }

    /// The matrix of the given interactions, as `from_interactions` builds it,
    /// or a refusal where an id lies outside the given dimensions.
    pub fn try_from_interactions<T: Interaction>(
        num_users: usize,
        num_items: usize,
        interactions: &[T],
    ) -> (built: Result<Self, ModelError>)
        ensures
            within(id_pairs(interactions@), num_users, num_items) <==> built is Ok,
            built matches Ok(matrix) ==> {
                &&& matrix.wf()
                &&& matrix.spec_num_users() == num_users
                &&& matrix.spec_num_items() == num_items
                &&& holds_exactly(matrix@, id_pairs(interactions@))
            },
            built matches Err(e) ==> e == ModelError::InvalidIndex,
    {
        let ghost pairs = id_pairs(interactions@);
        let count: usize = interactions.len();
        let mut k: usize = 0;
        while k < count
            invariant
                k <= count,
                count == interactions@.len(),
                pairs == id_pairs(interactions@),
                within(pairs.take(k as int), num_users, num_items),
            decreases count - k,
        {
            let elem = &interactions[k];
            if elem.user_id() >= num_users || elem.item_id() >= num_items {
                assert(!(pairs[k as int].0 < num_users && pairs[k as int].1 < num_items));
                return Err(ModelError::InvalidIndex);
            }
            assert forall|j: int| 0 <= j < k + 1 implies (#[trigger] pairs.take(k + 1)[j]).0 < num_users
                && pairs.take(k + 1)[j].1 < num_items by {
                if j < k {
                    assert(pairs.take(k as int)[j] == pairs[j]);
                }
            }
            k = k + 1;
        }
        assert(pairs.take(count as int) =~= pairs);
        Ok(InteractionMatrix::from_interactions(num_users, num_items, interactions))
    }
}

/// Where `item` stands, or would stand, in an ascending row: the number of
/// items below it.
fn insertion_point(row: &Vec<ItemId>, item: ItemId) -> (index: usize)
    requires
        is_ascending(row@),
    ensures
        splits_at(row@, item, index as int),
{
    let mut low: usize = 0;
    let mut high: usize = row.len();
    while low < high
        invariant
            low <= high <= row@.len(),
            is_ascending(row@),
            forall|k: int| 0 <= k < low ==> row@[k] < item,
            forall|k: int| high <= k < row@.len() ==> row@[k] >= item,
        decreases high - low,
    {
        let middle: usize = low + (high - low) / 2;
        if row[middle] < item {
            low = middle + 1;
        } else {
            high = middle;
        }
    }
    low
}

// Rows that hold exactly some pairs hold, after one more pair was added,
// exactly those and that one.
proof fn lemma_with_pair_holds(
    rows: Seq<Seq<ItemId>>,
    pairs: Seq<(UserId, ItemId)>,
    pair: (UserId, ItemId),
)
    requires
        pair.0 < rows.len(),
        is_ascending(rows[pair.0 as int]),
        holds_exactly(rows, pairs),
    ensures
        holds_exactly(with_pair(rows, pair.0 as int, pair.1), pairs.push(pair)),
{
    let after = with_pair(rows, pair.0 as int, pair.1);
    let more = pairs.push(pair);
    lemma_inserted(rows[pair.0 as int], pair.1);
    assert forall|user: UserId, item: ItemId| user < after.len() implies (
    #[trigger] after[user as int].contains(item) <==> more.contains((user, item))) by {
        let wanted = (user, item);
        if more.contains(wanted) {
            let k = choose|k: int| 0 <= k < more.len() && more[k] == wanted;
            if k < pairs.len() {
                assert(pairs[k] == wanted);
                assert(pairs.contains(wanted));
                assert(rows[user as int].contains(item));
            }
        }
        if after[user as int].contains(item) {
            if user == pair.0 && item == pair.1 {
                assert(more[pairs.len() as int] == wanted);
            } else {
                assert(rows[user as int].contains(item));
                let k = choose|k: int| 0 <= k < pairs.len() && pairs[k] == wanted;
                assert(more[k] == wanted);
            }
        }
    }
}

/// The matrix of a sequence of interactions is the matrix of any
/// rearrangement of it.
pub proof fn lemma_from_interactions_ignores_order(
    first: InteractionMatrix,
    second: InteractionMatrix,
    pairs: Seq<(UserId, ItemId)>,
    rearranged: Seq<(UserId, ItemId)>,
)
    requires
        first.wf(),
        second.wf(),
        first.spec_num_users() == second.spec_num_users(),
        holds_exactly(first@, pairs),
        holds_exactly(second@, rearranged),
        pairs.to_multiset() == rearranged.to_multiset(),
    ensures
        first@ == second@,
{
    pairs.to_multiset_ensures();
    rearranged.to_multiset_ensures();
    assert forall|user: int| 0 <= user < first@.len() implies first@[user] == second@[user] by {
        assert forall|item: ItemId| first@[user].contains(item) <==> second@[user].contains(item) by {
            let wanted = (user as UserId, item);
            assert(first@[wanted.0 as int].contains(item) <==> pairs.contains(wanted));
            assert(second@[wanted.0 as int].contains(item) <==> rearranged.contains(wanted));
            assert(pairs.contains(wanted) <==> pairs.to_multiset().count(wanted) > 0);
            assert(rearranged.contains(wanted) <==> rearranged.to_multiset().count(wanted) > 0);
        }
        lemma_ascending_rows_are_equal(first@[user], second@[user]);
    }
    assert(first@ =~= second@);
}

} // verus!
