//! Rendering of model and training-data metadata.
//!
//! The metadata records live beside the model and data files; discovery
//! and parsing are the front-end's concern. What the library defines is
//! the text shown for a record — or for its absence — built here
//! character for character.

use vstd::prelude::*;
use vstd::string::StringExecFns;

use crate::commands::TrainMode;
use crate::guier::{decimal_string, spec_digits};

verus! {

/// What the status display reads from a model's metadata record.
pub struct ModelMeta {
    /// The reservoir size.
    pub size: usize,
    /// The training mode the model was fitted with.
    pub mode: TrainMode,
    /// Whether the model came from a pre-trained Euler layout.
    pub euler: bool,
    /// The name of the dataset it was trained on.
    pub data: String,
}

/// What the status display reads from a training set's metadata record.
/// Quantities that arrive in fractional units are rendered by the
/// front-end before they reach the library.
pub struct DataMeta {
    /// The generating algorithm's name.
    pub algorithm: String,
    /// Whether the algorithm was the Euclidean one, which also shows its
    /// two parameter lists.
    pub euclidean: bool,
    /// The rendered onset counts.
    pub k: String,
    /// The rendered pulse counts.
    pub n: String,
    /// The rendered tempo the data was generated at.
    pub bpm: String,
    /// The rendered timing variance.
    pub variance: String,
    /// The rhythm scaling factor.
    pub scale: u8,
}

/// The rendered description of a model's metadata record.
pub open spec fn spec_model_meta_string(meta: ModelMeta) -> Seq<char> {
    "     - size: \x1b[38;5;216m"@ + spec_digits(meta.size as int) + "\x1b[0m\n     - mode: \x1b[38;5;216m"@
        + meta.mode.spec_label() + "\x1b[0m\n     - structure: \x1b[38;5;216m"@ + (if meta.euler {
        "Euler ESN"@
    } else {
        "Random ESN"@
    }) + "\x1b[0m\n     - dataset: \x1b[38;5;216m"@ + meta.data@ + "\x1b[0m"@
}

/// Render a model's metadata record; a missing record reads `NO
/// METADATA`.
pub fn model_metadata_string(meta: Option<&ModelMeta>) -> (r: String)
    ensures
        meta matches Some(m) ==> r@ == spec_model_meta_string(*m),
        meta is None ==> r@ == "NO METADATA"@,
{
    match meta {
        None => "NO METADATA".to_owned(),
        Some(m) => {
            let a = "     - size: \x1b[38;5;216m".to_owned();
            let b = a.concat(decimal_string(m.size as u64).as_str());
            let c = b.concat("\x1b[0m\n     - mode: \x1b[38;5;216m");
            let d = c.concat(m.mode.label().as_str());
            let e = d.concat("\x1b[0m\n     - structure: \x1b[38;5;216m");
            let f = if m.euler {
                e.concat("Euler ESN")
            } else {
                e.concat("Random ESN")
            };
            let g = f.concat("\x1b[0m\n     - dataset: \x1b[38;5;216m");
            let h = g.concat(m.data.as_str());
            let i = h.concat("\x1b[0m");
            proof {
                assert(i@ =~= spec_model_meta_string(*m));
            }
            i
        },
    }
}

/// The rendered description of a training set's metadata record.
pub open spec fn spec_data_meta_string(meta: DataMeta) -> Seq<char> {
    "     - algorithm: \x1b[38;5;216m"@ + meta.algorithm@ + "\x1b[0m\n"@ + (if meta.euclidean {
        "       - k: \x1b[38;5;70m"@ + meta.k@ + "\x1b[0m\n       - n: \x1b[38;5;70m"@ + meta.n@
            + "\x1b[0m\n"@
    } else {
        Seq::<char>::empty()
    }) + "     - bpm: \x1b[38;5;216m"@ + meta.bpm@ + "\x1b[0m\n     - variance: \x1b[38;5;216m"@
        + meta.variance@ + "\x1b[0m\n     - scale: \x1b[38;5;216m"@ + spec_digits(
        meta.scale as int,
    ) + "\x1b[0m"@
}

/// Render a training set's metadata record; a missing record reads `NO
/// METADATA`.
pub fn data_metadata_string(meta: Option<&DataMeta>) -> (r: String)
    ensures
        meta matches Some(m) ==> r@ == spec_data_meta_string(*m),
        meta is None ==> r@ == "NO METADATA"@,
{
    match meta {
        None => "NO METADATA".to_owned(),
        Some(m) => {
            let a = "     - algorithm: \x1b[38;5;216m".to_owned();
            let b = a.concat(m.algorithm.as_str());
            let c = b.concat("\x1b[0m\n");
            let d = if m.euclidean {
                let d1 = c.concat("       - k: \x1b[38;5;70m");
                let d2 = d1.concat(m.k.as_str());
                let d3 = d2.concat("\x1b[0m\n       - n: \x1b[38;5;70m");
                let d4 = d3.concat(m.n.as_str());
                d4.concat("\x1b[0m\n")
            } else {
                c
            };
            let e = d.concat("     - bpm: \x1b[38;5;216m");
            let f = e.concat(m.bpm.as_str());
            let g = f.concat("\x1b[0m\n     - variance: \x1b[38;5;216m");
            let h = g.concat(m.variance.as_str());
            let i = h.concat("\x1b[0m\n     - scale: \x1b[38;5;216m");
            let j = i.concat(decimal_string(m.scale as u64).as_str());
            let k = j.concat("\x1b[0m");
            proof {
                assert(k@ =~= spec_data_meta_string(*m));
            }
            k
        },
    }
}

} // verus!
