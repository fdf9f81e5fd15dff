//! The user's own settings for package registries.
use vstd::prelude::*;

verus! {

/// The account on the Python package index.
#[derive(Debug)]
pub struct PypiConfig {
    pub username: String,
}

/// The account on crates.io.
#[derive(Debug)]
pub struct CratesIoConfig {
    pub username: String,
}

} // verus!
