//! Tracks a digital-game library against a remote catalog feed: a
//! content-addressed cache of fetched pages, the feed's data shapes, and
//! reconciliation of local download state against the feed.

pub mod cache;
pub mod config;
pub mod library;
pub mod trove_feed;
pub mod trove;
pub mod util;

use vstd::prelude::*;

verus! {

/// The single error kind every cache and reconciliation failure surfaces as.
#[derive(Clone, Copy, Debug, PartialEq, Eq, Structural)]
pub enum TroveError {
    /// A file could not be created, read or written.
    Io,
    /// The network transport failed before a response arrived.
    Network,
    /// A response arrived with a non-success status code.
    HttpStatus,
    /// A media URL carries no resolvable file extension.
    MissingExtension,
}

} // verus!
