//! Startup configuration: the three filesystem roots the program works
//! against. It is loaded once from a configuration file by the surrounding
//! program and immutable afterward; here it is plain data.

use vstd::prelude::*;

verus! {

/// Where the canonical library lives.
pub struct Trove {
    pub root: String,
}

/// Where downloads land and where the cache keeps its store.
pub struct System {
    pub downloads: String,
    pub cache: String,
}

/// The whole configuration: the library root and the system directories.
pub struct Config {
    pub trove: Trove,
    pub system: System,
}

} // verus!
