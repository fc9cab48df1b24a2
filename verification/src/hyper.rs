use vstd::prelude::*;

use crate::error::ModelError;
use crate::single::{is_finite, spec_is_finite};

verus! {

/// The width of an embedding where none is chosen.
pub const DEFAULT_LATENT_DIM: usize = 16;

/// The number of examples in one gradient step where none is chosen.
pub const DEFAULT_MINIBATCH_SIZE: usize = 10;

/// The step scale where none is chosen: the pattern of the single `0.01`.
pub const DEFAULT_LEARNING_RATE_BITS: u32 = 0x3C23_D70A;

/// The configuration of a model. It does not change once the model exists.
///
/// The learning rate is held as the bit pattern of an IEEE-754 single.
#[derive(Clone, Copy, Debug, PartialEq, Eq, Structural)]
pub struct Hyperparameters {
    latent_dim: usize,
    minibatch_size: usize,
    learning_rate_bits: u32,
}

impl Hyperparameters {
    pub closed spec fn spec_latent_dim(&self) -> usize {
        self.latent_dim
    }

    pub closed spec fn spec_minibatch_size(&self) -> usize {
        self.minibatch_size
    }

    pub closed spec fn spec_learning_rate_bits(&self) -> u32 {
        self.learning_rate_bits
    }

    /// Both sizes are positive and the learning rate is finite.
    pub open spec fn wf(&self) -> bool {
        &&& self.spec_latent_dim() > 0
        &&& self.spec_minibatch_size() > 0
        &&& spec_is_finite(self.spec_learning_rate_bits())
    }

    /// The width of an embedding.
    #[verifier::when_used_as_spec(spec_latent_dim)]
    pub fn latent_dim(&self) -> (dim: usize)
        ensures
            dim == self.spec_latent_dim(),
    {
        self.latent_dim
    }

    /// The number of examples in one gradient step.
    #[verifier::when_used_as_spec(spec_minibatch_size)]
    pub fn minibatch_size(&self) -> (size: usize)
        ensures
            size == self.spec_minibatch_size(),
    {
        self.minibatch_size
    }

    /// The scale of a gradient step, as the bit pattern of a single.
    #[verifier::when_used_as_spec(spec_learning_rate_bits)]
    pub fn learning_rate_bits(&self) -> (bits: u32)
        ensures
            bits == self.spec_learning_rate_bits(),
    {
        self.learning_rate_bits
    }
}

/// Collects the options of a configuration by name; an option that is not set
/// keeps its default.
#[derive(Clone, Copy, Debug)]
pub struct HyperparametersBuilder {
    latent_dim: usize,
    minibatch_size: usize,
    learning_rate_bits: u32,
}

impl Default for HyperparametersBuilder {
    fn default() -> (builder: Self)
        ensures
            builder.spec_latent_dim() == DEFAULT_LATENT_DIM,
            builder.spec_minibatch_size() == DEFAULT_MINIBATCH_SIZE,
            builder.spec_learning_rate_bits() == DEFAULT_LEARNING_RATE_BITS,
    {
        HyperparametersBuilder {
            latent_dim: DEFAULT_LATENT_DIM,
            minibatch_size: DEFAULT_MINIBATCH_SIZE,
            learning_rate_bits: DEFAULT_LEARNING_RATE_BITS,
        }
    }
}

impl HyperparametersBuilder {
    pub closed spec fn spec_latent_dim(&self) -> usize {
        self.latent_dim
    }

    pub closed spec fn spec_minibatch_size(&self) -> usize {
        self.minibatch_size
    }

    pub closed spec fn spec_learning_rate_bits(&self) -> u32 {
        self.learning_rate_bits
    }

    /// Whether `build` accepts the options as they stand.
    pub open spec fn acceptable(&self) -> bool {
        &&& self.spec_latent_dim() > 0
        &&& self.spec_minibatch_size() > 0
        &&& spec_is_finite(self.spec_learning_rate_bits())
    }

    /// Sets the width of an embedding.
    pub fn latent_dim(self, value: usize) -> (builder: Self)
        ensures
            builder.spec_latent_dim() == value,
            builder.spec_minibatch_size() == self.spec_minibatch_size(),
            builder.spec_learning_rate_bits() == self.spec_learning_rate_bits(),
    {
        HyperparametersBuilder { latent_dim: value, ..self }
    }

    /// Sets the number of examples in one gradient step.
    pub fn minibatch_size(self, value: usize) -> (builder: Self)
        ensures
            builder.spec_latent_dim() == self.spec_latent_dim(),
            builder.spec_minibatch_size() == value,
            builder.spec_learning_rate_bits() == self.spec_learning_rate_bits(),
    {
        HyperparametersBuilder { minibatch_size: value, ..self }
    }

    /// Sets the scale of a gradient step, given as the bit pattern of a single.
    pub fn learning_rate_bits(self, value: u32) -> (builder: Self)
        ensures
            builder.spec_latent_dim() == self.spec_latent_dim(),
            builder.spec_minibatch_size() == self.spec_minibatch_size(),
            builder.spec_learning_rate_bits() == value,
    {
        HyperparametersBuilder { learning_rate_bits: value, ..self }
    }

    /// The configuration with the options as they stand. A size of zero and a
    /// learning rate that is infinite or a NaN are refused.
    pub fn build(&self) -> (built: Result<Hyperparameters, ModelError>)
        ensures
            self.acceptable() <==> built is Ok,
            built matches Ok(hyper) ==> {
                &&& hyper.wf()
                &&& hyper.spec_latent_dim() == self.spec_latent_dim()
                &&& hyper.spec_minibatch_size() == self.spec_minibatch_size()
                &&& hyper.spec_learning_rate_bits() == self.spec_learning_rate_bits()
            },
            built matches Err(e) ==> e == ModelError::InvalidConfiguration,
    {
        if self.latent_dim == 0 || self.minibatch_size == 0 || !is_finite(self.learning_rate_bits) {
            return Err(ModelError::InvalidConfiguration);
        }
        Ok(
            Hyperparameters {
                latent_dim: self.latent_dim,
                minibatch_size: self.minibatch_size,
                learning_rate_bits: self.learning_rate_bits,
            },
        )
    }
}

} // verus!
