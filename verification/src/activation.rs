//! The activation functions a reservoir can be configured with.
//!
//! The numeric evaluation acts on floating-point samples and lives with
//! the runtime that owns them; the library carries the choice itself as
//! plain data, with a stable tag used by the model codec.

use vstd::prelude::*;

verus! {

/// The available activation functions.
#[derive(Clone, Copy, PartialEq, Eq, Structural, Debug)]
pub enum Activation {
    Tanh,
    ReLu,
    Sigmoid,
    Linear,
}

impl Activation {
    /// The codec tag of each activation.
    pub open spec fn spec_tag(self) -> u64 {
        match self {
            Activation::Tanh => 0,
            Activation::ReLu => 1,
            Activation::Sigmoid => 2,
            Activation::Linear => 3,
        }
    }

    /// Encode the activation as its tag.
    pub fn tag(&self) -> (t: u64)
        ensures
            t == self.spec_tag(),
            t < 4,
    {
        match self {
            Activation::Tanh => 0,
            Activation::ReLu => 1,
            Activation::Sigmoid => 2,
            Activation::Linear => 3,
        }
    }

    /// The activation a tag denotes, if any.
    pub fn from_tag(t: u64) -> (r: Option<Activation>)
        ensures
            r is Some <==> t < 4,
            r is Some ==> r->0.spec_tag() == t,
    {
        if t == 0 {
            Some(Activation::Tanh)
        } else if t == 1 {
            Some(Activation::ReLu)
        } else if t == 2 {
            Some(Activation::Sigmoid)
        } else if t == 3 {
            Some(Activation::Linear)
        } else {
            None
        }
    }
}

} // verus!
