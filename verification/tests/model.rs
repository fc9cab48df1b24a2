use implicit_factorization::{
    HyperparametersBuilder, ImplicitFactorizationModel, ModelError, TrainingPlan,
    UnweightedInteraction,
};

fn model_sample(len: usize) -> Vec<UnweightedInteraction> {
    // Users 0..4 and items 0..6, in a fixed pattern.
    (0..len).map(|k| UnweightedInteraction::new(k % 4, (k * 5) % 6)).collect()
}

#[test]
fn predict_before_fit_is_not_fitted_for_any_user() {
    let model = ImplicitFactorizationModel::default();
    for user in [0usize, 1, 17, usize::MAX] {
        assert_eq!(model.predict(user), Err(ModelError::NotFitted));
    }
    assert_eq!(ModelError::NotFitted.message(), "Model must be fitted first.");
}

#[test]
fn predict_after_fit_owes_one_score_per_item() {
    let mut model = ImplicitFactorizationModel::default();
    let data = model_sample(24);
    model.fit_partitioned(&data, 1, 2).unwrap();
    assert_eq!(model.num_users(), Some(4));
    assert_eq!(model.num_items(), Some(6));
    for user in 0..4 {
        assert_eq!(model.predict(user), Ok(6));
    }
    assert_eq!(model.predict(4), Err(ModelError::InvalidIndex));
    assert_eq!(model.predict(usize::MAX), Err(ModelError::InvalidIndex));
}

#[test]
fn first_fit_fixes_the_dimensions_and_plans_the_run() {
    let hyper = HyperparametersBuilder::default().minibatch_size(5).build().unwrap();
    let mut model = ImplicitFactorizationModel::new(hyper);
    let data = model_sample(23);
    let plan = model.fit_partitioned(&data, 3, 2);
    assert_eq!(
        plan,
        Ok(TrainingPlan {
            num_users: 4,
            num_items: 6,
            first_fit: true,
            num_interactions: 23,
            num_partitions: 2,
            shard_size: 11,
            minibatch_size: 5,
            num_epochs: 3,
        })
    );
    assert_eq!(model.num_users(), Some(4));
    assert_eq!(model.num_items(), Some(6));
    assert_eq!(*model.hyper(), hyper);
}

#[test]
fn later_fit_keeps_the_dimensions() {
    let mut model = ImplicitFactorizationModel::default();
    model.fit_partitioned(&model_sample(24), 1, 1).unwrap();
    let smaller = vec![UnweightedInteraction::new(1, 2), UnweightedInteraction::new(0, 0)];
    let plan = model.fit_partitioned(&smaller, 2, 4).unwrap();
    assert_eq!(
        plan,
        TrainingPlan {
            num_users: 2,
            num_items: 3,
            first_fit: false,
            num_interactions: 2,
            num_partitions: 4,
            shard_size: 0,
            minibatch_size: 10,
            num_epochs: 2,
        }
    );
    assert_eq!(model.num_users(), Some(4));
    assert_eq!(model.num_items(), Some(6));
}

#[test]
fn later_fit_with_ids_outside_the_dimensions_is_refused() {
    let mut model = ImplicitFactorizationModel::default();
    model.fit_partitioned(&model_sample(24), 1, 1).unwrap();
    let new_user = vec![UnweightedInteraction::new(4, 0)];
    assert_eq!(model.fit_partitioned(&new_user, 1, 1), Err(ModelError::InvalidIndex));
    let new_item = vec![UnweightedInteraction::new(0, 6)];
    assert_eq!(model.fit_partitioned(&new_item, 1, 1), Err(ModelError::InvalidIndex));
    assert_eq!(model.num_users(), Some(4));
    assert_eq!(model.num_items(), Some(6));
    let at_the_edge = vec![UnweightedInteraction::new(3, 5)];
    assert!(model.fit_partitioned(&at_the_edge, 1, 1).is_ok());
}

#[test]
fn fit_on_nothing_is_refused_and_leaves_the_model_unfitted() {
    let mut model = ImplicitFactorizationModel::default();
    let data: Vec<UnweightedInteraction> = Vec::new();
    assert_eq!(model.fit_partitioned(&data, 1, 2), Err(ModelError::EmptyInput));
    assert_eq!(model.fit(&data, 1), Err(ModelError::EmptyInput));
    assert_eq!(model.num_users(), None);
    assert_eq!(model.predict(0), Err(ModelError::NotFitted));
}

#[test]
fn fit_with_an_id_that_has_no_bound_is_refused() {
    let mut model = ImplicitFactorizationModel::default();
    let data = vec![UnweightedInteraction::new(usize::MAX, 0)];
    assert_eq!(model.fit_partitioned(&data, 1, 1), Err(ModelError::InvalidIndex));
    assert_eq!(model.num_users(), None);
}

#[test]
fn fit_without_partitions_plans_no_shard() {
    let mut model = ImplicitFactorizationModel::default();
    let plan = model.fit_partitioned(&model_sample(24), 1, 0).unwrap();
    assert_eq!(plan.num_partitions, 0);
    assert_eq!(plan.shard_size, 0);
    assert!(plan.shard(0).is_none());
    assert_eq!(plan.loss_divisor(), None);
}

#[test]
fn fit_cuts_one_shard_per_thread_of_the_pool() {
    let mut model = ImplicitFactorizationModel::default();
    let data = model_sample(1000);
    let plan = model.fit(&data, 2).unwrap();
    let threads = rayon::current_num_threads();
    assert_eq!(
        plan,
        TrainingPlan {
            num_users: 4,
            num_items: 6,
            first_fit: true,
            num_interactions: 1000,
            num_partitions: threads,
            shard_size: 1000 / threads,
            minibatch_size: 10,
            num_epochs: 2,
        }
    );
    assert_eq!(model.num_users(), Some(4));
}
