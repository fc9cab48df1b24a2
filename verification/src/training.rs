//! The schedule of a training run: how the interactions are cut into shards,
//! which minibatch windows each shard visits, and what a minibatch holds.

use vstd::prelude::*;

use rand::XorShiftRng;

use crate::interaction::{Interaction, ItemId, UserId};
use crate::sampling::sample_below;

verus! {

/// `rayon::current_num_threads`: the number of threads of the pool that the
/// caller runs in. It depends on the machine and on how the pool was built, so
/// nothing is promised of it.
#[verifier::external_body]
pub(crate) fn worker_count() -> (count: usize) {
    rayon::current_num_threads()
}

/// What one admitted call of `fit` is to do.
#[derive(Clone, Copy, Debug, PartialEq, Eq, Structural)]
pub struct TrainingPlan {
    /// One more than the largest user id of the interactions.
    pub num_users: usize,
    /// One more than the largest item id of the interactions; negative items
    /// are drawn from below it.
    pub num_items: usize,
    /// Whether this call is the model's first: the parameter tables are then
    /// to be created, with `num_users` and `num_items` rows.
    pub first_fit: bool,
    /// The number of interactions.
    pub num_interactions: usize,
    /// The number of shards.
    pub num_partitions: usize,
    /// The number of interactions in each shard.
    pub shard_size: usize,
    /// The number of interactions in each minibatch.
    pub minibatch_size: usize,
    /// How often each shard is gone through.
    pub num_epochs: usize,
}

/// The size of each of `num_partitions` equal shards of `num_interactions`
/// interactions; what does not fill a shard is left out.
pub open spec fn spec_shard_size(num_interactions: usize, num_partitions: usize) -> usize {
    if num_partitions == 0 {
        0
    } else {
        num_interactions / num_partitions
    }
}

#[verifier::when_used_as_spec(spec_shard_size)]
pub fn shard_size(num_interactions: usize, num_partitions: usize) -> (size: usize)
    ensures
        size == spec_shard_size(num_interactions, num_partitions),
{
    if num_partitions == 0 {
        0
    } else {
        num_interactions / num_partitions
    }
}

impl TrainingPlan {
    /// The shards are cut as `shard_size` says, a minibatch is not empty, and
    /// there is an item to draw.
    pub open spec fn wf(&self) -> bool {
        &&& self.num_items > 0
        &&& self.minibatch_size > 0
        &&& self.shard_size == spec_shard_size(self.num_interactions, self.num_partitions)
    }

    /// The number of minibatches of one shard in one epoch; what does not fill
    /// a minibatch is left out.
    pub open spec fn spec_batches_per_epoch(&self) -> usize {
        self.shard_size / self.minibatch_size
    }

    /// The shards lie side by side inside the interactions.
    pub proof fn lemma_shards_fit(&self, partition: usize)
        requires
            self.wf(),
            partition < self.num_partitions,
        ensures
            partition * self.shard_size + self.shard_size <= self.num_interactions,
    {
        let p = self.num_partitions as int;
        let s = self.shard_size as int;
        let n = self.num_interactions as int;
        assert(p * s <= n) by {
            vstd::arithmetic::div_mod::lemma_fundamental_div_mod(n, p);
            vstd::arithmetic::div_mod::lemma_mod_bound(n, p);
        }
        assert((partition + 1) * s <= p * s) by (nonlinear_arith)
            requires
                partition + 1 <= p,
                0 <= s,
        ;
        assert((partition + 1) * s == partition * s + s) by (nonlinear_arith);
    }

    #[verifier::when_used_as_spec(spec_batches_per_epoch)]
    pub fn batches_per_epoch(&self) -> (batches: usize)
        requires
            self.wf(),
        ensures
            batches == self.spec_batches_per_epoch(),
    {
        self.shard_size / self.minibatch_size
    }

    /// The number by which a shard's summed loss is divided: the examples of a
    /// shard times the epochs. `None` where that is zero: such a shard adds
    /// nothing to the loss.
    pub fn loss_divisor(&self) -> (divisor: Option<u128>)
        ensures
            self.num_epochs * self.shard_size == 0 <==> divisor is None,
            divisor matches Some(d) ==> d == self.num_epochs * self.shard_size,
    {
        if self.num_epochs == 0 || self.shard_size == 0 {
            assert(self.num_epochs * self.shard_size == 0) by (nonlinear_arith)
                requires
                    self.num_epochs == 0 || self.shard_size == 0,
            ;
            return None;
        }
        let epochs: u128 = self.num_epochs as u128;
        let size: u128 = self.shard_size as u128;
        assert(epochs * size <= 0xFFFF_FFFF_FFFF_FFFF * 0xFFFF_FFFF_FFFF_FFFF) by (nonlinear_arith)
            requires
                0 <= epochs <= 0xFFFF_FFFF_FFFF_FFFF,
                0 <= size <= 0xFFFF_FFFF_FFFF_FFFF,
        ;
        assert(epochs * size > 0) by (nonlinear_arith)
            requires
                epochs > 0,
                size > 0,
        ;
        Some(epochs * size)
    }

    /// The run of the shard with the given number, at its start; `None` where
    /// the plan has no such shard.
    pub fn shard(&self, partition: usize) -> (run: Option<ShardRun>)
        requires
            self.wf(),
        ensures
            partition < self.num_partitions <==> run is Some,
            run matches Some(r) ==> r.wf() && r@ == (ShardProgress {
                start: (partition * self.shard_size) as nat,
                shard_size: self.shard_size as nat,
                minibatch_size: self.minibatch_size as nat,
                num_epochs: self.num_epochs as nat,
                num_items: self.num_items as nat,
                num_interactions: self.num_interactions as nat,
                issued: 0,
            }),
    {
        if partition >= self.num_partitions {
            return None;
        }
        proof {
            self.lemma_shards_fit(partition);
            assert(0 * (self.shard_size / self.minibatch_size) == 0) by (nonlinear_arith);
            assert(self.num_epochs * (self.shard_size as int / self.minibatch_size as int) >= 0)
                by (nonlinear_arith)
                requires
                    self.shard_size as int / self.minibatch_size as int >= 0,
            ;
        }
        Some(
            ShardRun {
                start: partition * self.shard_size,
                shard_size: self.shard_size,
                minibatch_size: self.minibatch_size,
                num_epochs: self.num_epochs,
                num_items: self.num_items,
                num_interactions: self.num_interactions,
                epoch: 0,
                batch: 0,
            },
        )
    }
}

/// How far the run of one shard has come.
pub struct ShardProgress {
    /// The index of the shard's first interaction.
    pub start: nat,
    /// The number of interactions in the shard.
    pub shard_size: nat,
    /// The number of interactions in a minibatch.
    pub minibatch_size: nat,
    /// How often the shard is gone through.
    pub num_epochs: nat,
    /// Negative items are drawn from below this number.
    pub num_items: nat,
    /// The number of interactions that the shard was cut from.
    pub num_interactions: nat,
    /// The number of minibatch windows handed out so far.
    pub issued: nat,
}

impl ShardProgress {
    /// The number of minibatches in one epoch.
    pub open spec fn batches_per_epoch(self) -> nat {
        self.shard_size / self.minibatch_size
    }

    /// The number of minibatch windows of the whole run.
    pub open spec fn total(self) -> nat {
        self.num_epochs * self.batches_per_epoch()
    }

    /// The index of the first interaction of the window with number `k`,
    /// counted from zero over all epochs: each epoch goes through the shard
    /// from its start, window after window.
    pub open spec fn window_start(self, k: nat) -> nat {
        self.start + (k % self.batches_per_epoch()) * self.minibatch_size
    }

    /// The progress after one more window.
    pub open spec fn advanced(self) -> ShardProgress {
        ShardProgress { issued: self.issued + 1, ..self }
    }

    /// Every window of the run lies inside the shard.
    pub proof fn lemma_window_in_shard(self, k: nat)
        requires
            self.minibatch_size > 0,
            k < self.total(),
        ensures
            self.start <= self.window_start(k),
            self.window_start(k) + self.minibatch_size <= self.start + self.shard_size,
    {
        let b = self.batches_per_epoch() as int;
        let m = self.minibatch_size as int;
        let s = self.shard_size as int;
        assert(b > 0) by (nonlinear_arith)
            requires
                k < self.num_epochs * b,
                b >= 0,
        ;
        let w = k as int % b;
        assert(0 <= w < b);
        assert(b * m <= s) by {
            vstd::arithmetic::div_mod::lemma_fundamental_div_mod(s, m);
            vstd::arithmetic::div_mod::lemma_mod_bound(s, m);
            assert(b * m == m * b) by (nonlinear_arith);
        }
        assert(0 <= w * m && (w + 1) * m <= b * m && (w + 1) * m == w * m + m) by (nonlinear_arith)
            requires
                0 <= w,
                w + 1 <= b,
                0 < m,
        ;
    }
}

/// The run of one shard: a cursor over its minibatch windows, epoch by epoch.
pub struct ShardRun {
    start: usize,
    shard_size: usize,
    minibatch_size: usize,
    num_epochs: usize,
    num_items: usize,
    num_interactions: usize,
    // Epochs gone through, and windows handed out in the current one.
    epoch: usize,
    batch: usize,
}

impl View for ShardRun {
    type V = ShardProgress;

    closed spec fn view(&self) -> ShardProgress {
        ShardProgress {
            start: self.start as nat,
            shard_size: self.shard_size as nat,
            minibatch_size: self.minibatch_size as nat,
            num_epochs: self.num_epochs as nat,
            num_items: self.num_items as nat,
            num_interactions: self.num_interactions as nat,
            issued: (self.epoch * (self.shard_size / self.minibatch_size) + self.batch) as nat,
        }
    }
}

/// The user ids of `len` interactions from index `start` on.
pub open spec fn window_users<T: Interaction>(data: Seq<T>, start: int, len: nat) -> Seq<UserId> {
    Seq::new(len, |k: int| data[start + k].spec_user_id())
}

/// The item ids of `len` interactions from index `start` on.
pub open spec fn window_items<T: Interaction>(data: Seq<T>, start: int, len: nat) -> Seq<ItemId> {
    Seq::new(len, |k: int| data[start + k].spec_item_id())
}

/// Fills the three buffers of a minibatch from the interactions that begin at
/// `start`: the users, the items they interacted with, and for each a negative
/// item drawn from below `num_items`, whatever the positive item is.
pub fn fill_batch<T: Interaction>(
    interactions: &[T],
    start: usize,
    num_items: usize,
    rng: &mut XorShiftRng,
    users: &mut Vec<UserId>,
    positives: &mut Vec<ItemId>,
    negatives: &mut Vec<ItemId>,
)
    requires
        old(users).len() == old(positives).len(),
        old(users).len() == old(negatives).len(),
        start + old(users).len() <= interactions@.len(),
        num_items > 0,
    ensures
        final(users)@ == window_users(interactions@, start as int, old(users)@.len()),
        final(positives)@ == window_items(interactions@, start as int, old(users)@.len()),
        final(negatives)@.len() == old(users)@.len(),
        forall|k: int| 0 <= k < final(negatives)@.len() ==> #[trigger] final(negatives)@[k] < num_items,
{
    let len: usize = users.len();
    let available: usize = interactions.len();
    let mut k: usize = 0;
    while k < len
        invariant
            k <= len,
            available == interactions@.len(),
            users.len() == len,
            positives.len() == len,
            negatives.len() == len,
            start + len <= interactions@.len(),
            num_items > 0,
            forall|j: int| 0 <= j < k ==> users@[j] == interactions@[start + j].spec_user_id(),
            forall|j: int| 0 <= j < k ==> positives@[j] == interactions@[start + j].spec_item_id(),
            forall|j: int| 0 <= j < k ==> negatives@[j] < num_items,
        decreases len - k,
    {
        let datum = &interactions[start + k];
        users[k] = datum.user_id();
        positives[k] = datum.item_id();
        negatives[k] = sample_below(rng, num_items);
        k = k + 1;
    }
    assert(users@ =~= window_users(interactions@, start as int, len as nat));
    assert(positives@ =~= window_items(interactions@, start as int, len as nat));
}

impl ShardRun {
    /// The cursor stands inside an epoch that has a window left, or at the
    /// start of the epoch after the last.
    pub closed spec fn cursor_in_range(&self) -> bool {
        &&& self.epoch <= self.num_epochs
        &&& if self.epoch < self.num_epochs && self.shard_size / self.minibatch_size > 0 {
            self.batch < self.shard_size / self.minibatch_size
        } else {
            self.batch == 0
        }
        &&& (self.shard_size / self.minibatch_size == 0 ==> self.epoch == 0)
    }

    /// The shard lies inside the interactions, a minibatch is not empty, there
    /// is an item to draw, and no more windows were handed out than the run has.
    pub open spec fn wf(&self) -> bool {
        &&& self.cursor_in_range()
        &&& self@.minibatch_size > 0
        &&& self@.num_items > 0
        &&& self@.start + self@.shard_size <= self@.num_interactions
        &&& self@.issued <= self@.total()
    }

    /// The number of interactions in a minibatch.
    pub fn minibatch_size(&self) -> (size: usize)
        ensures
            size == self@.minibatch_size,
    {
        self.minibatch_size
    }

    /// Hands out the next minibatch window of the run, as the index of its
    /// first interaction, or `None` once every window of every epoch was
    /// handed out.
    pub fn next_window(&mut self) -> (window: Option<usize>)
        requires
            old(self).wf(),
        ensures
            final(self).wf(),
            old(self)@.issued < old(self)@.total() ==> {
                &&& final(self)@ == old(self)@.advanced()
                &&& window matches Some(first)
                &&& first == old(self)@.window_start(old(self)@.issued)
                &&& first + old(self)@.minibatch_size <= old(self)@.start + old(self)@.shard_size
            },
            old(self)@.issued >= old(self)@.total() ==> final(self)@ == old(self)@ && window is None,
    {
        let per_epoch: usize = self.shard_size / self.minibatch_size;
        proof {
            lemma_cursor(
                self.epoch as int,
                self.batch as int,
                per_epoch as int,
                self.num_epochs as int,
            );
        }
        if self.epoch >= self.num_epochs || per_epoch == 0 {
            return None;
        }
        proof {
            self@.lemma_window_in_shard(self@.issued);
            assert(self.batch * self.minibatch_size >= 0) by (nonlinear_arith)
                requires
                    self.batch >= 0,
                    self.minibatch_size >= 0,
            ;
        }
        let first: usize = self.start + self.batch * self.minibatch_size;
        if self.batch + 1 < per_epoch {
            self.batch = self.batch + 1;
        } else {
            self.batch = 0;
            self.epoch = self.epoch + 1;
        }
        proof {
            lemma_cursor(
                self.epoch as int,
                self.batch as int,
                per_epoch as int,
                self.num_epochs as int,
            );
            let before = old(self).epoch as int;
            assert((before + 1) * per_epoch == before * per_epoch + per_epoch) by (nonlinear_arith);
        }
        Some(first)
    }

    /// Hands out the next minibatch of the run in the three buffers, as
    /// `fill_batch` fills them, and says whether there was one. After the last
    /// minibatch the buffers are left as they are.
    pub fn next_batch<T: Interaction>(
        &mut self,
        interactions: &[T],
        rng: &mut XorShiftRng,
        users: &mut Vec<UserId>,
        positives: &mut Vec<ItemId>,
        negatives: &mut Vec<ItemId>,
    ) -> (filled: bool)
        requires
            old(self).wf(),
            interactions@.len() == old(self)@.num_interactions,
            old(users).len() == old(self)@.minibatch_size,
            old(positives).len() == old(self)@.minibatch_size,
            old(negatives).len() == old(self)@.minibatch_size,
        ensures
            final(self).wf(),
            filled <==> old(self)@.issued < old(self)@.total(),
            filled ==> {
                let first = old(self)@.window_start(old(self)@.issued) as int;
                &&& final(self)@ == old(self)@.advanced()
                &&& final(users)@ == window_users(interactions@, first, old(self)@.minibatch_size)
                &&& final(positives)@ == window_items(interactions@, first, old(self)@.minibatch_size)
                &&& final(negatives)@.len() == old(self)@.minibatch_size
                &&& forall|k: int|
                    0 <= k < final(negatives)@.len() ==> #[trigger] final(negatives)@[k] < old(
                        self,
                    )@.num_items
            },
            !filled ==> {
                &&& final(self)@ == old(self)@
                &&& final(users)@ == old(users)@
                &&& final(positives)@ == old(positives)@
                &&& final(negatives)@ == old(negatives)@
            },
    {
        match self.next_window() {
            Some(first) => {
                fill_batch(interactions, first, self.num_items, rng, users, positives, negatives);
                true
            },
            None => false,
        }
    }
}

// Where a cursor of `epoch` whole epochs and `batch` further windows stands
// among the windows of `num_epochs` epochs of `per_epoch` windows each.
proof fn lemma_cursor(epoch: int, batch: int, per_epoch: int, num_epochs: int)
    requires
        0 <= epoch <= num_epochs,
        0 <= batch,
        0 <= per_epoch,
        per_epoch > 0 ==> batch < per_epoch,
        per_epoch == 0 ==> batch == 0 && epoch == 0,
        epoch == num_epochs ==> batch == 0,
    ensures
        epoch * per_epoch + batch >= 0,
        num_epochs * per_epoch >= 0,
        epoch * per_epoch + batch <= num_epochs * per_epoch,
        epoch < num_epochs && per_epoch > 0 <==> epoch * per_epoch + batch < num_epochs * per_epoch,
        per_epoch > 0 ==> (epoch * per_epoch + batch) % per_epoch == batch,
{
    assert(epoch * per_epoch >= 0 && num_epochs * per_epoch >= 0) by (nonlinear_arith)
        requires
            0 <= epoch,
            0 <= num_epochs,
            0 <= per_epoch,
    ;
    if per_epoch > 0 {
        if epoch < num_epochs {
            assert((epoch + 1) * per_epoch <= num_epochs * per_epoch) by (nonlinear_arith)
                requires
                    epoch + 1 <= num_epochs,
                    0 < per_epoch,
            ;
            assert((epoch + 1) * per_epoch == epoch * per_epoch + per_epoch) by (nonlinear_arith);
        }
        vstd::arithmetic::div_mod::lemma_fundamental_div_mod_converse(
            epoch * per_epoch + batch,
            per_epoch,
            epoch,
            batch,
        );
    } else {
        assert(epoch * per_epoch == 0 && num_epochs * per_epoch == 0) by (nonlinear_arith)
            requires
                per_epoch == 0,
        ;
    }
}

} // verus!
