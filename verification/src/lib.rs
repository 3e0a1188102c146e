//! Association statistics over tuples of discrete symbols.
//!
//! The crate collects per-position marginal counts and joint tuple counts
//! from a corpus pass, and turns those counts into the exact rational
//! building blocks of pointwise-mutual-information style scores.

pub mod bimap;
pub use bimap::WordMap;

pub mod collector;
pub use collector::TupleCollector;

pub mod mi;
pub use mi::{
    LaplaceSmoothing, MutualInformation, PositiveMutualInformation, Ratio, RawProb, ScoreParts,
    Smoothing, SpecificCorrelation,
};
