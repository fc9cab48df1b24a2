use vstd::prelude::*;

verus! {

/// Why the library turned a request down.
#[derive(Clone, Copy, Debug, PartialEq, Eq, Structural)]
pub enum ModelError {
    /// Scores were asked of a model that has never been fitted.
    NotFitted,
    /// A user or item id lies outside the bounds in force.
    InvalidIndex,
    /// Dimensions were asked of an empty interaction sequence.
    EmptyInput,
    /// A size is zero where it must be positive, or the learning rate is not finite.
    InvalidConfiguration,
}

impl ModelError {
    /// The text of `message` for each error.
    pub open spec fn message_text(self) -> Seq<char> {
        match self {
            ModelError::NotFitted => "Model must be fitted first."@,
            ModelError::InvalidIndex => "Index outside the model's bounds."@,
            ModelError::EmptyInput => "No interactions were given."@,
            ModelError::InvalidConfiguration => "Invalid hyperparameters."@,
        }
    }

    /// A short description of the error, for display.
    pub fn message(&self) -> (text: &'static str)
        ensures
            text@ == self.message_text(),
    {
        match self {
            ModelError::NotFitted => "Model must be fitted first.",
            ModelError::InvalidIndex => "Index outside the model's bounds.",
            ModelError::EmptyInput => "No interactions were given.",
            ModelError::InvalidConfiguration => "Invalid hyperparameters.",
        }
    }
}

} // verus!
