//! Notifications appended by successful operations.
//!
//! Every mutating operation records what an off-chain distribution engine
//! must learn about it. The log is append-only within the registry; the
//! adapter drains newly appended entries into the host's notification
//! transport after it persists the state.

use vstd::prelude::*;

verus! {

/// One notification, as appended to the registry's log.
///
/// Idempotent blacklist updates still append an entry: consumers receive one
/// notification per call, whether or not the membership actually changed.
#[derive(Debug, PartialEq, Eq)]
pub enum Event {
    /// A new offering was appended to the issuer's sequence.
    OfferingRegistered { issuer: u64, token: u64, revenue_share_bps: u32 },
    /// A revenue figure was reported for `(issuer, token)`, together with a
    /// point-in-time copy of the asset's blacklist.
    RevenueReported { issuer: u64, token: u64, amount: i128, period_id: u64, blacklist: Vec<u64> },
    /// A metadata reference was stored under a previously unused identifier.
    MetadataCreated { issuer: u64, offering_id: Vec<u8>, uri: Vec<u8> },
    /// A metadata reference replaced an existing one.
    MetadataUpdated { issuer: u64, offering_id: Vec<u8>, uri: Vec<u8> },
    /// A metadata entry was removed; only the identifier survives.
    MetadataDeleted { issuer: u64, offering_id: Vec<u8> },
    /// An investor was named in a blacklist addition for `token`.
    BlacklistAdded { token: u64, investor: u64 },
    /// An investor was named in a blacklist removal for `token`.
    BlacklistRemoved { token: u64, investor: u64 },
}

/// Mathematical image of an [`Event`], with sequences in place of vectors.
/// Contracts speak of the log as a `Seq<EventView>`.
pub enum EventView {
    OfferingRegistered { issuer: u64, token: u64, revenue_share_bps: u32 },
    RevenueReported { issuer: u64, token: u64, amount: i128, period_id: u64, blacklist: Seq<u64> },
    MetadataCreated { issuer: u64, offering_id: Seq<u8>, uri: Seq<u8> },
    MetadataUpdated { issuer: u64, offering_id: Seq<u8>, uri: Seq<u8> },
    MetadataDeleted { issuer: u64, offering_id: Seq<u8> },
    BlacklistAdded { token: u64, investor: u64 },
    BlacklistRemoved { token: u64, investor: u64 },
}

impl View for Event {
    type V = EventView;

    open spec fn view(&self) -> EventView {
        match *self {
            Event::OfferingRegistered { issuer, token, revenue_share_bps } => {
                EventView::OfferingRegistered { issuer, token, revenue_share_bps }
            },
            Event::RevenueReported { issuer, token, amount, period_id, ref blacklist } => {
                EventView::RevenueReported { issuer, token, amount, period_id, blacklist: blacklist@ }
            },
            Event::MetadataCreated { issuer, ref offering_id, ref uri } => {
                EventView::MetadataCreated { issuer, offering_id: offering_id@, uri: uri@ }
            },
            Event::MetadataUpdated { issuer, ref offering_id, ref uri } => {
                EventView::MetadataUpdated { issuer, offering_id: offering_id@, uri: uri@ }
            },
            Event::MetadataDeleted { issuer, ref offering_id } => {
                EventView::MetadataDeleted { issuer, offering_id: offering_id@ }
            },
            Event::BlacklistAdded { token, investor } => {
                EventView::BlacklistAdded { token, investor }
            },
            Event::BlacklistRemoved { token, investor } => {
                EventView::BlacklistRemoved { token, investor }
            },
        }
    }
}

} // verus!
