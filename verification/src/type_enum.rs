//! Closed metadata enums carried by a feature artifact.

use vstd::prelude::*;

verus! {

/// The artifact's type tag. Only one artifact kind exists today.
#[derive(Clone, Copy, Debug, PartialEq, Eq, Structural)]
pub enum FeatureType {
    Offline,
}

/// Runtime-compatibility metadata; opaque to evaluation.
#[derive(Clone, Copy, Debug, PartialEq, Eq, Structural)]
pub enum PythonVersion {
    All,
    Py310,
    Py312,
    Py314,
}

} // verus!
