//! Errors used throughout this crate.

use vstd::prelude::*;
use vstd::string::StringExecFns;

use crate::guier::{decimal_string, spec_digits};

verus! {

/// What went wrong in the neural pipeline or around its files.
pub enum NeuronError {
    /// Index was not in allowed range (index, length).
    IndexOutOfRange(usize, usize),
    CantCreateMidiOut,
    CantConnectMidi,
    FileNotFound(String),
    DataNotFound(String),
    ModelNotFound(String),
}

impl NeuronError {
    /// The rendered error text of each variant.
    pub open spec fn spec_message(self) -> Seq<char> {
        match self {
            NeuronError::IndexOutOfRange(idx, ln) => "Index was out of range: idx: "@
                + spec_digits(idx as int) + " and ln: "@ + spec_digits(ln as int),
            NeuronError::CantCreateMidiOut => "Can't create a midi output port..."@,
            NeuronError::CantConnectMidi => "Can't connect to that midi port..."@,
            NeuronError::FileNotFound(s) => "File `"@ + s@ + "` not found."@,
            NeuronError::DataNotFound(s) => "Data `"@ + s@ + "` does not exist."@,
            NeuronError::ModelNotFound(s) => "Model `"@ + s@ + "` does not exist."@,
        }
    }

    /// Render the error as text.
    pub fn message(&self) -> (r: String)
        ensures
            r@ == self.spec_message(),
    {
        match self {
            NeuronError::IndexOutOfRange(idx, ln) => {
                let a = "Index was out of range: idx: ".to_owned();
                let b = a.concat(decimal_string(*idx as u64).as_str());
                let c = b.concat(" and ln: ");
                let d = c.concat(decimal_string(*ln as u64).as_str());
                proof {
                    assert(d@ =~= self.spec_message());
                }
                d
            },
            NeuronError::CantCreateMidiOut => "Can't create a midi output port...".to_owned(),
            NeuronError::CantConnectMidi => "Can't connect to that midi port...".to_owned(),
            NeuronError::FileNotFound(s) => {
                let a = "File `".to_owned();
                let b = a.concat(s.as_str());
                let c = b.concat("` not found.");
                proof {
                    assert(c@ =~= self.spec_message());
                }
                c
            },
            NeuronError::DataNotFound(s) => {
                let a = "Data `".to_owned();
                let b = a.concat(s.as_str());
                let c = b.concat("` does not exist.");
                proof {
                    assert(c@ =~= self.spec_message());
                }
                c
            },
            NeuronError::ModelNotFound(s) => {
                let a = "Model `".to_owned();
                let b = a.concat(s.as_str());
                let c = b.concat("` does not exist.");
                proof {
                    assert(c@ =~= self.spec_message());
                }
                c
            },
        }
    }
}

} // verus!
