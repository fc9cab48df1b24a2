use vstd::prelude::*;

use crate::error::ModelError;
use crate::hyper::{
    Hyperparameters, HyperparametersBuilder, DEFAULT_LATENT_DIM, DEFAULT_LEARNING_RATE_BITS,
    DEFAULT_MINIBATCH_SIZE,
};
use crate::interaction::{
    get_dimensions, id_pairs, item_bound, lemma_bounds_are_least, user_bound, Interaction, ItemId,
    UserId,
};
use crate::training::{shard_size, spec_shard_size, worker_count, TrainingPlan};

verus! {

// The sizes of the parameter tables: the user embeddings have `num_users` rows,
// the item embeddings and the item biases `num_items`.
#[derive(Clone, Copy, Debug)]
struct ModelData {
    num_users: usize,
    num_items: usize,
}

/// A factorization model: its configuration, and the sizes of its parameter
/// tables once it has been fitted.
///
/// The sizes are fixed by the first call of `fit` that is admitted, and stay
/// as they are from then on.
#[derive(Debug)]
pub struct ImplicitFactorizationModel {
    hyper: Hyperparameters,
    model: Option<ModelData>,
}

/// What `fit` answers to a model with the given sizes and configuration, for
/// interactions with the given (user, item) pairs, cut into `num_partitions`
/// shards.
pub open spec fn fit_outcome(
    dimensions: Option<(usize, usize)>,
    hyper: Hyperparameters,
    pairs: Seq<(UserId, ItemId)>,
    num_epochs: usize,
    num_partitions: usize,
) -> Result<TrainingPlan, ModelError> {
    if pairs.len() == 0 {
        Err(ModelError::EmptyInput)
    } else if user_bound(pairs) > usize::MAX || item_bound(pairs) > usize::MAX {
        Err(ModelError::InvalidIndex)
    } else if dimensions matches Some((num_users, num_items)) && (user_bound(pairs) > num_users
        || item_bound(pairs) > num_items) {
        Err(ModelError::InvalidIndex)
    } else {
        Ok(
            TrainingPlan {
                num_users: user_bound(pairs) as usize,
                num_items: item_bound(pairs) as usize,
                first_fit: dimensions is None,
                num_interactions: pairs.len() as usize,
                num_partitions,
                shard_size: spec_shard_size(pairs.len() as usize, num_partitions),
                minibatch_size: hyper.spec_minibatch_size(),
                num_epochs,
            },
        )
    }
}

/// The sizes of a model after `fit` has given `outcome`: a plan fixes the
/// sizes of a model that had none, and nothing else changes them.
pub open spec fn dimensions_after(
    dimensions: Option<(usize, usize)>,
    outcome: Result<TrainingPlan, ModelError>,
) -> Option<(usize, usize)> {
    match (dimensions, outcome) {
        (None, Ok(plan)) => Some((plan.num_users, plan.num_items)),
        _ => dimensions,
    }
}

impl Default for ImplicitFactorizationModel {
    /// An unfitted model with the default configuration.
    fn default() -> (model: Self)
        ensures
            model.wf(),
            model.spec_dimensions() is None,
            model.spec_hyper().spec_latent_dim() == DEFAULT_LATENT_DIM,
            model.spec_hyper().spec_minibatch_size() == DEFAULT_MINIBATCH_SIZE,
            model.spec_hyper().spec_learning_rate_bits() == DEFAULT_LEARNING_RATE_BITS,
    {
        let builder: HyperparametersBuilder = Default::default();
        ImplicitFactorizationModel { hyper: builder.build().unwrap(), model: None }
    }
}

impl ImplicitFactorizationModel {
    /// The configuration.
    pub closed spec fn spec_hyper(&self) -> Hyperparameters {
        self.hyper
    }

    /// The numbers of users and of items that the parameter tables hold, once
    /// the model has been fitted.
    pub closed spec fn spec_dimensions(&self) -> Option<(usize, usize)> {
        match self.model {
            Some(data) => Some((data.num_users, data.num_items)),
            None => None,
        }
    }

    /// The configuration is valid.
    pub open spec fn wf(&self) -> bool {
        self.spec_hyper().wf()
    }

    /// An unfitted model with the given configuration.
    pub fn new(hyper: Hyperparameters) -> (model: Self)
        requires
            hyper.wf(),
        ensures
            model.wf(),
            model.spec_hyper() == hyper,
            model.spec_dimensions() is None,
    {
        ImplicitFactorizationModel { hyper: hyper, model: None }
    }

    /// The configuration.
    pub fn hyper(&self) -> (hyper: &Hyperparameters)
        ensures
            *hyper == self.spec_hyper(),
    {
        &self.hyper
    }

    /// The number of users that the model was fitted for, if it was fitted.
    pub fn num_users(&self) -> (count: Option<usize>)
        ensures
            count == match self.spec_dimensions() {
                Some((num_users, _)) => Some(num_users),
                None => None,
            },
    {
        match &self.model {
            Some(model) => Some(model.num_users),
            None => None,
        }
    }

    /// The number of items that the model was fitted for, if it was fitted.
    pub fn num_items(&self) -> (count: Option<usize>)
        ensures
            count == match self.spec_dimensions() {
                Some((_, num_items)) => Some(num_items),
                None => None,
            },
    {
        match &self.model {
            Some(model) => Some(model.num_items),
            None => None,
        }
    }

    /// Admits a request for the scores of one user: the answer is the number
    /// of scores that are owed, one for each item, the score of item `i` at
    /// index `i`. A model that was never fitted has none to give, and a user
    /// that the model was not fitted for is refused.
    pub fn predict(&self, user_id: UserId) -> (scores: Result<usize, ModelError>)
        ensures
            scores == match self.spec_dimensions() {
                None => Err::<usize, ModelError>(ModelError::NotFitted),
                Some((num_users, num_items)) => if user_id < num_users {
                    Ok::<usize, ModelError>(num_items)
                } else {
                    Err::<usize, ModelError>(ModelError::InvalidIndex)
                },
            },
    {
        match &self.model {
            None => Err(ModelError::NotFitted),
            Some(model) => if user_id < model.num_users {
                Ok(model.num_items)
            } else {
                Err(ModelError::InvalidIndex)
            },
        }
    }

    /// Admits a request to train on `interactions` for `num_epochs` epochs, on
    /// `num_partitions` shards, and answers with the plan of the run.
    ///
    /// The first admitted request fixes the model's sizes at the dimensions of
    /// its interactions. A later one is refused where an id lies outside those
    /// sizes. An empty sequence is refused. A refused request leaves the model
    /// as it was.
    pub fn fit_partitioned<T: Interaction>(
        &mut self,
        interactions: &[T],
        num_epochs: usize,
        num_partitions: usize,
    ) -> (plan: Result<TrainingPlan, ModelError>)
        requires
            old(self).wf(),
        ensures
            plan == fit_outcome(
                old(self).spec_dimensions(),
                old(self).spec_hyper(),
                id_pairs(interactions@),
                num_epochs,
                num_partitions,
            ),
            final(self).spec_hyper() == old(self).spec_hyper(),
            final(self).spec_dimensions() == dimensions_after(old(self).spec_dimensions(), plan),
            final(self).wf(),
            plan matches Ok(p) ==> p.wf(),
    {
        let (num_users, num_items) = match get_dimensions(interactions) {
            Ok(dimensions) => dimensions,
            Err(e) => {
                return Err(e);
            },
        };
        proof {
            lemma_bounds_are_least(id_pairs(interactions@));
        }
        let first_fit: bool = match &self.model {
            Some(model) => {
                if num_users > model.num_users || num_items > model.num_items {
                    return Err(ModelError::InvalidIndex);
                }
                false
            },
            None => {
                self.model = Some(ModelData { num_users, num_items });
                true
            },
        };
        let num_interactions: usize = interactions.len();
        Ok(
            TrainingPlan {
                num_users,
                num_items,
                first_fit,
                num_interactions,
                num_partitions,
                shard_size: shard_size(num_interactions, num_partitions),
                minibatch_size: self.hyper.minibatch_size(),
                num_epochs,
            },
        )
    }

    /// Admits a request to train on `interactions` for `num_epochs` epochs, as
    /// `fit_partitioned` does, on as many shards as the thread pool has
    /// threads.
    pub fn fit<T: Interaction>(&mut self, interactions: &[T], num_epochs: usize) -> (plan: Result<
        TrainingPlan,
        ModelError,
    >)
        requires
            old(self).wf(),
        ensures
            exists|num_partitions: usize|
                plan == #[trigger] fit_outcome(
                    old(self).spec_dimensions(),
                    old(self).spec_hyper(),
                    id_pairs(interactions@),
                    num_epochs,
                    num_partitions,
                ),
            final(self).spec_hyper() == old(self).spec_hyper(),
            final(self).spec_dimensions() == dimensions_after(old(self).spec_dimensions(), plan),
            final(self).wf(),
            plan matches Ok(p) ==> p.wf(),
    {
        let num_partitions: usize = worker_count();
        self.fit_partitioned(interactions, num_epochs, num_partitions)
    }
}

} // verus!
