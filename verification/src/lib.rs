//! Similarity scoring and classification for bibliographic name records.
//!
//! A query record is compared against a training set of records; raw
//! pairwise similarity scores are bucketed by collection, normalized into
//! a probability distribution, and a top choice is selected when its
//! probability clears a cutoff.  An evaluator scores the classifier
//! against labeled test data.  All arithmetic is exact rational
//! arithmetic over `i64` numerator/denominator pairs; operations that
//! would leave that range report an overflow error instead.

pub mod choice;
pub mod data;
pub mod evaluate;
pub mod probs;
pub mod rat;
pub mod score;

pub use choice::get_top_choice;
pub use data::NameData;
pub use data::Overflow;
pub use data::Params;
pub use data::ScoreInfo;
pub use evaluate::evaluate_model;
pub use probs::get_probs;
pub use rat::Rat;
pub use score::get_score;
