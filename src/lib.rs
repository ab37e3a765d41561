//! Training engine for a cascaded face / non-face classifier: integral images,
//! rectangle (Haar) features, decision-stump search, boosted strong classifiers
//! and the cascade that chains them.
use vstd::prelude::*;
pub use crate::matrix::Matrix;

pub mod matrix;
pub mod util;
pub mod preprocess;
pub mod features;
pub mod weights;
pub mod weak_classifier;
pub mod order;
pub mod strong_classifier;
pub mod boosting;
pub mod cascade;
pub mod contrast;

verus! {

/// The class of a training sample, or the verdict of a classifier.
#[derive(Copy, Clone, Debug, PartialEq, Eq, Structural)]
pub enum Classification {
    Face,
    NonFace,
}

/// `+1` for `Face`, `-1` for `NonFace`.
pub open spec fn class_sign(c: Classification) -> int {
    match c {
        Classification::Face => 1,
        Classification::NonFace => -1,
    }
}

impl Classification {
    /// The class as a signed unit, for the arithmetic of boosting.
    pub fn multiplier(self) -> (r: i64)
        ensures
            r == class_sign(self),
    {
        match self {
            Classification::Face => 1,
            Classification::NonFace => -1,
        }
    }
}

} // verus!
