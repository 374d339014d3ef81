//! Ledger-resident registry of revenue-share offerings.
//!
//! The registry tracks, per issuer, an append-only sequence of offerings with
//! a separately persisted count and cursor-based pagination; per asset, a
//! blacklist of investor accounts with idempotent membership updates; per
//! issuer, a map from offering identifiers to off-chain metadata references;
//! and an append-only log of notifications for an external distribution
//! engine. The host's durable storage, caller authorization and notification
//! transport are external collaborators: an adapter loads the registry state,
//! calls the verified operations here, and persists the result.

use vstd::prelude::*;

pub mod blacklist;
pub mod errors;
pub mod events;
pub mod laws;
pub mod metadata;
pub mod registry;
pub mod revenue;
pub mod state;

pub use errors::RevoraError;
pub use events::{Event, EventView};
pub use state::{IssuerMetadata, IssuerOfferings, MetadataEntry, Offering, RevoraRevenueShare,
    TokenBlacklist};

verus! {

/// Hard cap on the number of offerings returned by one page request.
pub const MAX_PAGE_LIMIT: u32 = 20;

/// Longest accepted metadata reference, in bytes.
pub const MAX_METADATA_LENGTH: usize = 1024;

} // verus!
