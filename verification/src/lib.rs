//! An offline feature-flag targeting engine.
//!
//! A feature artifact holds an ordered list of named buckets, each guarded by
//! a boolean classifier over host attributes, together with a default value.
//! Evaluation walks the buckets in order and returns the first bucket whose
//! classifier is satisfied, or the default. Artifacts travel as JSON; the
//! codec here reads and writes that format and round-trips every valid
//! feature.

pub mod type_enum;
pub mod values;
pub mod attribute;
pub mod classifier;
pub mod offline_feature;
pub mod json;
pub mod codec;
pub mod result;
