//! Implicit-feedback matrix factorization: the data model, the configuration,
//! the training schedule and the ranking metric, with their contracts.

pub mod error;
pub mod hyper;
pub mod interaction;
pub mod matrix;
pub mod model;
pub mod ranking;
pub mod sampling;
pub mod single;
pub mod split;
pub mod training;

pub use crate::error::ModelError;
pub use crate::hyper::{Hyperparameters, HyperparametersBuilder};
pub use crate::interaction::{get_dimensions, Interaction, ItemId, UnweightedInteraction, UserId};
pub use crate::matrix::InteractionMatrix;
pub use crate::model::ImplicitFactorizationModel;
pub use crate::ranking::{evaluated_users, item_ranks, suppress_train_items, user_ranks};
pub use crate::split::train_test_split;
pub use crate::training::{fill_batch, ShardRun, TrainingPlan};
