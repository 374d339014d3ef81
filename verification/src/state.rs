//! Registry state and its mathematical model.
//!
//! Account and asset identifiers are plain `u64` values: the registry's
//! algorithms only ever compare identifiers for equality, so the adapter maps
//! the host's opaque account handles to small integers and back. Metadata
//! identifiers and references are byte strings, as the host stores them.
//!
//! The persisted state is modelled as association lists: one entry per
//! issuer with an offering sequence and its separately kept count, one entry
//! per asset with its blacklist membership, one entry per issuer with its
//! metadata map. [`RevoraRevenueShare::wf`] states the invariants that every
//! operation preserves: keys are unique, each stored count equals the length
//! of its sequence, offerings carry a share within the 10000 bps cap, and
//! stored metadata references are non-empty and within the length bound.

use vstd::prelude::*;
use crate::events::{Event, EventView};

verus! {

/// A registered revenue-share arrangement. Immutable once created;
/// identified by its position in the issuer's sequence.
#[derive(Clone, Copy, Debug, PartialEq, Eq, Structural)]
pub struct Offering {
    pub issuer: u64,
    pub token: u64,
    pub revenue_share_bps: u32,
}

/// Per-issuer slot: the append-only offering sequence and its count,
/// persisted separately so that reads need not load the whole sequence.
#[derive(Debug)]
pub struct IssuerOfferings {
    pub issuer: u64,
    pub count: u32,
    pub items: Vec<Offering>,
}

/// Per-asset slot: the investors currently blacklisted for this token.
#[derive(Debug)]
pub struct TokenBlacklist {
    pub token: u64,
    pub members: Vec<u64>,
}

/// One metadata binding: an issuer-chosen offering identifier and the
/// off-chain reference stored under it.
#[derive(Debug)]
pub struct MetadataEntry {
    pub offering_id: Vec<u8>,
    pub uri: Vec<u8>,
}

/// Per-issuer slot: the issuer's metadata map.
#[derive(Debug)]
pub struct IssuerMetadata {
    pub issuer: u64,
    pub entries: Vec<MetadataEntry>,
}

/// The whole registry: offering sequences, blacklists, metadata maps and the
/// append-only notification log.
#[derive(Debug)]
pub struct RevoraRevenueShare {
    pub offerings: Vec<IssuerOfferings>,
    pub blacklists: Vec<TokenBlacklist>,
    pub metadata: Vec<IssuerMetadata>,
    pub events: Vec<Event>,
}

// ─── key lookup over the association lists ───────────────────────────────

pub open spec fn off_has(s: Seq<IssuerOfferings>, issuer: u64) -> bool {
    exists|i: int| 0 <= i < s.len() && s[i].issuer == issuer
}

pub open spec fn off_at(s: Seq<IssuerOfferings>, issuer: u64) -> int {
    choose|i: int| 0 <= i < s.len() && s[i].issuer == issuer
}

pub open spec fn bl_has(s: Seq<TokenBlacklist>, token: u64) -> bool {
    exists|i: int| 0 <= i < s.len() && s[i].token == token
}

pub open spec fn bl_at(s: Seq<TokenBlacklist>, token: u64) -> int {
    choose|i: int| 0 <= i < s.len() && s[i].token == token
}

pub open spec fn meta_has(s: Seq<IssuerMetadata>, issuer: u64) -> bool {
    exists|i: int| 0 <= i < s.len() && s[i].issuer == issuer
}

pub open spec fn meta_at(s: Seq<IssuerMetadata>, issuer: u64) -> int {
    choose|i: int| 0 <= i < s.len() && s[i].issuer == issuer
}

pub open spec fn entry_has(s: Seq<MetadataEntry>, id: Seq<u8>) -> bool {
    exists|i: int| 0 <= i < s.len() && s[i].offering_id@ == id
}

pub open spec fn entry_at(s: Seq<MetadataEntry>, id: Seq<u8>) -> int {
    choose|i: int| 0 <= i < s.len() && s[i].offering_id@ == id
}

// ─── well-formedness ─────────────────────────────────────────────────────

/// No two slots describe the same issuer.
pub open spec fn off_keys_unique(s: Seq<IssuerOfferings>) -> bool {
    forall|i: int, j: int| 0 <= i < j < s.len() ==> s[i].issuer != s[j].issuer
}

/// The slot's own invariants: the persisted count equals the sequence
/// length, and every offering belongs to this issuer and respects the cap.
pub open spec fn off_slot_wf(e: IssuerOfferings) -> bool {
    &&& e.count == e.items@.len()
    &&& forall|k: int|
        0 <= k < e.items@.len() ==> {
            &&& (#[trigger] e.items@[k]).issuer == e.issuer
            &&& e.items@[k].revenue_share_bps <= 10000
        }
}

/// No two slots describe the same token, and no member appears twice.
pub open spec fn bl_keys_unique(s: Seq<TokenBlacklist>) -> bool {
    forall|i: int, j: int| 0 <= i < j < s.len() ==> s[i].token != s[j].token
}

pub open spec fn bl_slot_wf(e: TokenBlacklist) -> bool {
    forall|i: int, j: int| 0 <= i < j < e.members@.len() ==> e.members@[i] != e.members@[j]
}

pub open spec fn meta_keys_unique(s: Seq<IssuerMetadata>) -> bool {
    forall|i: int, j: int| 0 <= i < j < s.len() ==> s[i].issuer != s[j].issuer
}

/// Identifiers are unique within one issuer's map, and every stored
/// reference is non-empty and within the length bound.
pub open spec fn meta_slot_wf(e: IssuerMetadata) -> bool {
    &&& forall|i: int, j: int|
        0 <= i < j < e.entries@.len() ==> e.entries@[i].offering_id@ != e.entries@[j].offering_id@
    &&& forall|i: int|
        0 <= i < e.entries@.len() ==> 1 <= (#[trigger] e.entries@[i]).uri@.len()
            <= crate::MAX_METADATA_LENGTH
}

impl RevoraRevenueShare {
    /// Well-formedness: established by [`RevoraRevenueShare::new`] and
    /// preserved by every operation.
    pub open spec fn wf(self) -> bool {
        &&& off_keys_unique(self.offerings@)
        &&& forall|i: int| 0 <= i < self.offerings@.len() ==> off_slot_wf(#[trigger] self.offerings@[i])
        &&& bl_keys_unique(self.blacklists@)
        &&& forall|i: int| 0 <= i < self.blacklists@.len() ==> bl_slot_wf(#[trigger] self.blacklists@[i])
        &&& meta_keys_unique(self.metadata@)
        &&& forall|i: int| 0 <= i < self.metadata@.len() ==> meta_slot_wf(#[trigger] self.metadata@[i])
    }

    // ─── the mathematical model that contracts speak of ──────────────────

    /// The issuer's offerings, in registration order; empty if the issuer
    /// has never registered anything.
    pub open spec fn offering_list(self, issuer: u64) -> Seq<Offering> {
        if off_has(self.offerings@, issuer) {
            self.offerings@[off_at(self.offerings@, issuer)].items@
        } else {
            Seq::empty()
        }
    }

    /// The issuer's persisted count; zero if the issuer has no slot.
    pub open spec fn offering_count_spec(self, issuer: u64) -> u32 {
        if off_has(self.offerings@, issuer) {
            self.offerings@[off_at(self.offerings@, issuer)].count
        } else {
            0
        }
    }

    /// The asset's blacklist membership, in insertion order; empty if no
    /// slot exists (an empty set is equivalent to an absent one).
    pub open spec fn blacklist_of(self, token: u64) -> Seq<u64> {
        if bl_has(self.blacklists@, token) {
            self.blacklists@[bl_at(self.blacklists@, token)].members@
        } else {
            Seq::empty()
        }
    }

    /// The reference stored for `(issuer, id)`, if any.
    pub open spec fn metadata_of(self, issuer: u64, id: Seq<u8>) -> Option<Seq<u8>> {
        if meta_has(self.metadata@, issuer) {
            let entries = self.metadata@[meta_at(self.metadata@, issuer)].entries@;
            if entry_has(entries, id) {
                Some(entries[entry_at(entries, id)].uri@)
            } else {
                None
            }
        } else {
            None
        }
    }

    /// The notification log as a sequence of mathematical events.
    pub open spec fn events_view(self) -> Seq<EventView> {
        self.events@.map_values(|e: Event| e@)
    }

    /// A registry with no offerings, no blacklists, no metadata and an empty
    /// notification log.
    pub fn new() -> (r: Self)
        ensures
            r.wf(),
            r.offerings@.len() == 0,
            r.blacklists@.len() == 0,
            r.metadata@.len() == 0,
            r.events_view() == Seq::<EventView>::empty(),
            forall|issuer: u64| r.offering_list(issuer) == Seq::<Offering>::empty(),
            forall|issuer: u64| r.offering_count_spec(issuer) == 0,
            forall|token: u64| r.blacklist_of(token) == Seq::<u64>::empty(),
            forall|issuer: u64, id: Seq<u8>| r.metadata_of(issuer, id) is None,
    {
        let r = RevoraRevenueShare {
            offerings: Vec::new(),
            blacklists: Vec::new(),
            metadata: Vec::new(),
            events: Vec::new(),
        };
        proof {
            assert(r.events_view() =~= Seq::<EventView>::empty());
        }
        r
    }
}

impl Default for RevoraRevenueShare {
    /// Same as [`RevoraRevenueShare::new`].
    fn default() -> (r: Self)
        ensures
            r.wf(),
            r.offerings@.len() == 0,
            r.blacklists@.len() == 0,
            r.metadata@.len() == 0,
            r.events_view() == Seq::<EventView>::empty(),
    {
        RevoraRevenueShare::new()
    }
}

} // verus!
