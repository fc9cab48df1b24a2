use implicit_factorization::{HyperparametersBuilder, ImplicitFactorizationModel, ModelError};

#[test]
fn defaults_are_sixteen_ten_and_a_hundredth() {
    let hyper = HyperparametersBuilder::default().build().unwrap();
    assert_eq!(hyper.latent_dim(), 16);
    assert_eq!(hyper.minibatch_size(), 10);
    assert_eq!(hyper.learning_rate_bits(), 0.01f32.to_bits());
    assert_eq!(f32::from_bits(hyper.learning_rate_bits()), 0.01);
}

#[test]
fn options_that_are_set_replace_the_defaults() {
    let hyper = HyperparametersBuilder::default()
        .learning_rate_bits(0.1f32.to_bits())
        .latent_dim(32)
        .build()
        .unwrap();
    assert_eq!(hyper.latent_dim(), 32);
    assert_eq!(hyper.minibatch_size(), 10);
    assert_eq!(f32::from_bits(hyper.learning_rate_bits()), 0.1);

    let hyper = HyperparametersBuilder::default().minibatch_size(1).build().unwrap();
    assert_eq!(hyper.latent_dim(), 16);
    assert_eq!(hyper.minibatch_size(), 1);
}

#[test]
fn zero_sizes_are_refused() {
    assert_eq!(
        HyperparametersBuilder::default().latent_dim(0).build(),
        Err(ModelError::InvalidConfiguration)
    );
    assert_eq!(
        HyperparametersBuilder::default().minibatch_size(0).build(),
        Err(ModelError::InvalidConfiguration)
    );
}

#[test]
fn learning_rates_that_are_not_finite_are_refused() {
    for rate in [f32::INFINITY, f32::NEG_INFINITY, f32::NAN, -f32::NAN] {
        assert_eq!(
            HyperparametersBuilder::default().learning_rate_bits(rate.to_bits()).build(),
            Err(ModelError::InvalidConfiguration)
        );
    }
}

#[test]
fn finite_learning_rates_are_accepted() {
    for rate in [0.0f32, -0.0, 1.0, -3.5, f32::MAX, f32::MIN, f32::MIN_POSITIVE, 1e-42] {
        let hyper =
            HyperparametersBuilder::default().learning_rate_bits(rate.to_bits()).build().unwrap();
        assert_eq!(hyper.learning_rate_bits(), rate.to_bits());
    }
}

#[test]
fn default_model_has_the_default_configuration() {
    let model = ImplicitFactorizationModel::default();
    assert_eq!(*model.hyper(), HyperparametersBuilder::default().build().unwrap());
    assert_eq!(model.num_users(), None);
    assert_eq!(model.num_items(), None);
}
