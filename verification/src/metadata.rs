//! Per-issuer metadata store: offering identifiers mapped to off-chain
//! reference strings, with length validation.
//!
//! Bad references (empty, or longer than [`crate::MAX_METADATA_LENGTH`]
//! bytes) and missing entries are fatal for the whole invocation, not
//! recoverable errors: the operations here exclude those inputs by
//! precondition, and the adapter refuses the invocation instead of calling.

use vstd::prelude::*;
use vstd::pervasive::unreached;
use crate::events::{Event, EventView};
use crate::state::{entry_at, entry_has, meta_at, meta_has, meta_keys_unique, IssuerMetadata,
    MetadataEntry, RevoraRevenueShare};
use crate::MAX_METADATA_LENGTH;

verus! {

// ─── facts about lookup in the issuer list ───────────────────────────────

/// In a list with unique issuers, the slot found at `i` is the one that
/// lookup returns for its issuer.
pub proof fn lemma_meta_at_is(s: Seq<IssuerMetadata>, i: int)
    requires
        meta_keys_unique(s),
        0 <= i < s.len(),
    ensures
        meta_has(s, s[i].issuer),
        meta_at(s, s[i].issuer) == i,
{
    assert(meta_has(s, s[i].issuer));
    let j = meta_at(s, s[i].issuer);
    if j != i {
        assert(s[j].issuer != s[i].issuer);
    }
}

/// Replacing the slot at `i` with one for the same issuer changes lookup
/// only for that issuer.
pub proof fn lemma_meta_update(s: Seq<IssuerMetadata>, i: int, e: IssuerMetadata)
    requires
        meta_keys_unique(s),
        0 <= i < s.len(),
        e.issuer == s[i].issuer,
    ensures
        meta_keys_unique(s.update(i, e)),
        meta_has(s.update(i, e), e.issuer),
        meta_at(s.update(i, e), e.issuer) == i,
        forall|k: u64| k != e.issuer ==> #[trigger] meta_has(s.update(i, e), k) == meta_has(s, k),
        forall|k: u64|
            k != e.issuer && meta_has(s, k) ==> #[trigger] s.update(i, e)[meta_at(s.update(i, e), k)]
                == s[meta_at(s, k)],
{
    let s2 = s.update(i, e);
    assert(forall|m: int| 0 <= m < s.len() ==> (#[trigger] s2[m]).issuer == s[m].issuer);
    lemma_meta_at_is(s2, i);
    assert forall|k: u64| k != e.issuer implies #[trigger] meta_has(s2, k) == meta_has(s, k) by {
        if meta_has(s, k) {
            let j = meta_at(s, k);
            assert(s2[j].issuer == k);
        }
        if meta_has(s2, k) {
            let j = meta_at(s2, k);
            assert(s[j].issuer == k);
        }
    }
    assert forall|k: u64| k != e.issuer && meta_has(s, k) implies #[trigger] s2[meta_at(s2, k)]
        == s[meta_at(s, k)] by {
        let j = meta_at(s, k);
        assert(s2[j].issuer == k);
        lemma_meta_at_is(s2, j);
        lemma_meta_at_is(s, j);
    }
}

/// Appending a slot for a previously unknown issuer changes lookup only for
/// that issuer.
pub proof fn lemma_meta_push(s: Seq<IssuerMetadata>, e: IssuerMetadata)
    requires
        meta_keys_unique(s),
        !meta_has(s, e.issuer),
    ensures
        meta_keys_unique(s.push(e)),
        meta_has(s.push(e), e.issuer),
        meta_at(s.push(e), e.issuer) == s.len(),
        s.push(e)[s.len() as int] == e,
        forall|k: u64| k != e.issuer ==> #[trigger] meta_has(s.push(e), k) == meta_has(s, k),
        forall|k: u64|
            k != e.issuer && meta_has(s, k) ==> #[trigger] s.push(e)[meta_at(s.push(e), k)]
                == s[meta_at(s, k)],
{
    let s2 = s.push(e);
    assert(forall|m: int| 0 <= m < s.len() ==> (#[trigger] s2[m]).issuer == s[m].issuer);
    assert forall|m: int, j: int| 0 <= m < j < s2.len() implies s2[m].issuer != s2[j].issuer by {
        if j == s.len() {
            assert(s2[m].issuer == s[m].issuer);
            if s2[m].issuer == e.issuer {
                assert(meta_has(s, e.issuer));
            }
        }
    }
    lemma_meta_at_is(s2, s.len() as int);
    assert forall|k: u64| k != e.issuer implies #[trigger] meta_has(s2, k) == meta_has(s, k) by {
        if meta_has(s, k) {
            let j = meta_at(s, k);
            assert(s2[j].issuer == k);
        }
        if meta_has(s2, k) {
            let j = meta_at(s2, k);
            assert(s[j].issuer == k);
        }
    }
    assert forall|k: u64| k != e.issuer && meta_has(s, k) implies #[trigger] s2[meta_at(s2, k)]
        == s[meta_at(s, k)] by {
        let j = meta_at(s, k);
        assert(s2[j].issuer == k);
        lemma_meta_at_is(s2, j);
        lemma_meta_at_is(s, j);
    }
}

// ─── facts about lookup in one issuer's entry list ───────────────────────

pub open spec fn entry_keys_unique(s: Seq<MetadataEntry>) -> bool {
    forall|i: int, j: int| 0 <= i < j < s.len() ==> s[i].offering_id@ != s[j].offering_id@
}

/// In an entry list with unique identifiers, the entry found at `i` is the
/// one that lookup returns for its identifier.
pub proof fn lemma_entry_at_is(s: Seq<MetadataEntry>, i: int)
    requires
        entry_keys_unique(s),
        0 <= i < s.len(),
    ensures
        entry_has(s, s[i].offering_id@),
        entry_at(s, s[i].offering_id@) == i,
{
    assert(entry_has(s, s[i].offering_id@));
    let j = entry_at(s, s[i].offering_id@);
    if j != i {
        assert(s[j].offering_id@ != s[i].offering_id@);
    }
}

/// Replacing the entry at `i` with one under the same identifier changes
/// lookup only for that identifier.
pub proof fn lemma_entry_update(s: Seq<MetadataEntry>, i: int, e: MetadataEntry)
    requires
        entry_keys_unique(s),
        0 <= i < s.len(),
        e.offering_id@ == s[i].offering_id@,
    ensures
        entry_keys_unique(s.update(i, e)),
        entry_has(s.update(i, e), e.offering_id@),
        entry_at(s.update(i, e), e.offering_id@) == i,
        forall|k: Seq<u8>|
            k != e.offering_id@ ==> #[trigger] entry_has(s.update(i, e), k) == entry_has(s, k),
        forall|k: Seq<u8>|
            k != e.offering_id@ && entry_has(s, k) ==> #[trigger] s.update(i, e)[entry_at(
                s.update(i, e),
                k,
            )] == s[entry_at(s, k)],
{
    let s2 = s.update(i, e);
    assert(forall|m: int| 0 <= m < s.len() ==> (#[trigger] s2[m]).offering_id@ == s[m].offering_id@);
    lemma_entry_at_is(s2, i);
    assert forall|k: Seq<u8>| k != e.offering_id@ implies #[trigger] entry_has(s2, k) == entry_has(
        s,
        k,
    ) by {
        if entry_has(s, k) {
            let j = entry_at(s, k);
            assert(s2[j].offering_id@ == k);
        }
        if entry_has(s2, k) {
            let j = entry_at(s2, k);
            assert(s[j].offering_id@ == k);
        }
    }
    assert forall|k: Seq<u8>| k != e.offering_id@ && entry_has(s, k) implies #[trigger] s2[entry_at(
        s2,
        k,
    )] == s[entry_at(s, k)] by {
        let j = entry_at(s, k);
        assert(s2[j].offering_id@ == k);
        lemma_entry_at_is(s2, j);
        lemma_entry_at_is(s, j);
    }
}

/// Appending an entry under a previously unused identifier changes lookup
/// only for that identifier.
pub proof fn lemma_entry_push(s: Seq<MetadataEntry>, e: MetadataEntry)
    requires
        entry_keys_unique(s),
        !entry_has(s, e.offering_id@),
    ensures
        entry_keys_unique(s.push(e)),
        entry_has(s.push(e), e.offering_id@),
        entry_at(s.push(e), e.offering_id@) == s.len(),
        s.push(e)[s.len() as int] == e,
        forall|k: Seq<u8>| k != e.offering_id@ ==> #[trigger] entry_has(s.push(e), k) == entry_has(
            s,
            k,
        ),
        forall|k: Seq<u8>|
            k != e.offering_id@ && entry_has(s, k) ==> #[trigger] s.push(e)[entry_at(s.push(e), k)]
                == s[entry_at(s, k)],
{
    let s2 = s.push(e);
    assert(forall|m: int| 0 <= m < s.len() ==> (#[trigger] s2[m]).offering_id@ == s[m].offering_id@);
    assert forall|m: int, j: int| 0 <= m < j < s2.len() implies s2[m].offering_id@
        != s2[j].offering_id@ by {
        if j == s.len() {
            assert(s2[m].offering_id@ == s[m].offering_id@);
            if s2[m].offering_id@ == e.offering_id@ {
                assert(entry_has(s, e.offering_id@));
            }
        }
    }
    lemma_entry_at_is(s2, s.len() as int);
    assert forall|k: Seq<u8>| k != e.offering_id@ implies #[trigger] entry_has(s2, k) == entry_has(
        s,
        k,
    ) by {
        if entry_has(s, k) {
            let j = entry_at(s, k);
            assert(s2[j].offering_id@ == k);
        }
        if entry_has(s2, k) {
            let j = entry_at(s2, k);
            assert(s[j].offering_id@ == k);
        }
    }
    assert forall|k: Seq<u8>| k != e.offering_id@ && entry_has(s, k) implies #[trigger] s2[entry_at(
        s2,
        k,
    )] == s[entry_at(s, k)] by {
        let j = entry_at(s, k);
        assert(s2[j].offering_id@ == k);
        lemma_entry_at_is(s2, j);
        lemma_entry_at_is(s, j);
    }
}

/// Removing the entry at `i` forgets exactly that identifier and leaves
/// every other identifier bound as before.
pub proof fn lemma_entry_remove(s: Seq<MetadataEntry>, i: int)
    requires
        entry_keys_unique(s),
        0 <= i < s.len(),
    ensures
        entry_keys_unique(s.remove(i)),
        !entry_has(s.remove(i), s[i].offering_id@),
        forall|k: Seq<u8>|
            k != s[i].offering_id@ ==> #[trigger] entry_has(s.remove(i), k) == entry_has(s, k),
        forall|k: Seq<u8>|
            k != s[i].offering_id@ && entry_has(s, k) ==> #[trigger] s.remove(i)[entry_at(
                s.remove(i),
                k,
            )] == s[entry_at(s, k)],
{
    let s2 = s.remove(i);
    s.remove_ensures(i);
    assert forall|m: int, j: int| 0 <= m < j < s2.len() implies s2[m].offering_id@
        != s2[j].offering_id@ by {
        let m0: int = if m < i { m } else { m + 1 };
        let j0: int = if j < i { j } else { j + 1 };
        assert(s2[m] == s[m0]);
        assert(s2[j] == s[j0]);
    }
    assert forall|m: int| 0 <= m < s2.len() implies s2[m].offering_id@ != s[i].offering_id@ by {
        let m0: int = if m < i { m } else { m + 1 };
        assert(s2[m] == s[m0]);
        if m0 < i {
            assert(s[m0].offering_id@ != s[i].offering_id@);
        } else {
            assert(s[i].offering_id@ != s[m0].offering_id@);
        }
    }
    assert forall|k: Seq<u8>| k != s[i].offering_id@ implies #[trigger] entry_has(s2, k)
        == entry_has(s, k) by {
        if entry_has(s, k) {
            let j = entry_at(s, k);
            if j < i {
                assert(s2[j].offering_id@ == k);
            } else {
                assert(s2[j - 1] == s[j]);
                assert(s2[j - 1].offering_id@ == k);
            }
        }
        if entry_has(s2, k) {
            let j = entry_at(s2, k);
            let j0: int = if j < i { j } else { j + 1 };
            assert(s2[j] == s[j0]);
            assert(s[j0].offering_id@ == k);
        }
    }
    assert forall|k: Seq<u8>| k != s[i].offering_id@ && entry_has(s, k) implies #[trigger] s2[entry_at(
        s2,
        k,
    )] == s[entry_at(s, k)] by {
        let j = entry_at(s, k);
        lemma_entry_at_is(s, j);
        if j < i {
            assert(s2[j].offering_id@ == k);
            lemma_entry_at_is(s2, j);
        } else {
            assert(s2[j - 1] == s[j]);
            assert(s2[j - 1].offering_id@ == k);
            lemma_entry_at_is(s2, j - 1);
        }
    }
}

// ─── executable helpers ──────────────────────────────────────────────────

/// Byte-for-byte equality of two byte strings.
fn bytes_eq(a: &Vec<u8>, b: &Vec<u8>) -> (r: bool)
    ensures
        r == (a@ == b@),
{
    if a.len() != b.len() {
        return false;
    }
    let mut i: usize = 0;
    while i < a.len()
        invariant
            a@.len() == b@.len(),
            i <= a@.len(),
            forall|j: int| 0 <= j < i ==> a@[j] == b@[j],
        decreases a@.len() - i,
    {
        if a[i] != b[i] {
            return false;
        }
        i = i + 1;
    }
    proof {
        assert(a@ =~= b@);
    }
    true
}

/// A fresh copy of a byte string.
fn copy_bytes(v: &Vec<u8>) -> (r: Vec<u8>)
    ensures
        r@ == v@,
{
    let mut out: Vec<u8> = Vec::new();
    let mut i: usize = 0;
    while i < v.len()
        invariant
            i <= v@.len(),
            out@ == v@.subrange(0, i as int),
        decreases v@.len() - i,
    {
        out.push(v[i]);
        proof {
            assert(out@ =~= v@.subrange(0, i + 1));
        }
        i = i + 1;
    }
    proof {
        assert(out@ =~= v@);
    }
    out
}

/// Linear scan for the issuer's slot.
fn find_meta_slot(v: &Vec<IssuerMetadata>, issuer: u64) -> (r: Option<usize>)
    ensures
        match r {
            Some(i) => i < v@.len() && v@[i as int].issuer == issuer,
            None => !meta_has(v@, issuer),
        },
{
    let mut i: usize = 0;
    while i < v.len()
        invariant
            i <= v@.len(),
            forall|j: int| 0 <= j < i ==> (#[trigger] v@[j]).issuer != issuer,
        decreases v@.len() - i,
    {
        if v[i].issuer == issuer {
            return Some(i);
        }
        i = i + 1;
    }
    None
}

/// Linear scan for one identifier in an issuer's entry list.
fn find_entry(v: &Vec<MetadataEntry>, id: &Vec<u8>) -> (r: Option<usize>)
    ensures
        match r {
            Some(i) => i < v@.len() && v@[i as int].offering_id@ == id@,
            None => !entry_has(v@, id@),
        },
{
    let mut i: usize = 0;
    while i < v.len()
        invariant
            i <= v@.len(),
            forall|j: int| 0 <= j < i ==> (#[trigger] v@[j]).offering_id@ != id@,
        decreases v@.len() - i,
    {
        if bytes_eq(&v[i].offering_id, id) {
            return Some(i);
        }
        i = i + 1;
    }
    None
}

impl RevoraRevenueShare {
    /// Store `uri` under `(issuer, offering_id)`, creating or overwriting.
    ///
    /// The reference must be non-empty and at most
    /// [`crate::MAX_METADATA_LENGTH`] bytes; an invocation with a bad
    /// reference is fatally rejected before this operation runs, as is one
    /// whose authorization of `issuer` fails. Whether the binding is new is
    /// decided by prior presence, before the write: a first write appends a
    /// creation notification, an overwrite appends an update notification.
    pub fn set_metadata(&mut self, issuer: u64, offering_id: Vec<u8>, uri: Vec<u8>)
        requires
            old(self).wf(),
            1 <= uri@.len() <= MAX_METADATA_LENGTH,
        ensures
            final(self).wf(),
            final(self).metadata_of(issuer, offering_id@) == Some(uri@),
            forall|i2: u64, k2: Seq<u8>|
                !(i2 == issuer && k2 == offering_id@) ==> #[trigger] final(self).metadata_of(i2, k2)
                    == old(self).metadata_of(i2, k2),
            final(self).offerings == old(self).offerings,
            final(self).blacklists == old(self).blacklists,
            final(self).events_view() == old(self).events_view().push(
                if old(self).metadata_of(issuer, offering_id@) is None {
                    EventView::MetadataCreated { issuer, offering_id: offering_id@, uri: uri@ }
                } else {
                    EventView::MetadataUpdated { issuer, offering_id: offering_id@, uri: uri@ }
                },
            ),
    {
        let id_for_event = copy_bytes(&offering_id);
        let uri_for_event = copy_bytes(&uri);
        let ghost s0 = self.metadata@;
        let is_new: bool;
        match find_meta_slot(&self.metadata, issuer) {
            Some(i) => {
                proof {
                    lemma_meta_at_is(s0, i as int);
                }
                let ghost e0 = self.metadata@[i as int].entries@;
                match find_entry(&self.metadata[i].entries, &offering_id) {
                    Some(ei) => {
                        is_new = false;
                        proof {
                            lemma_entry_at_is(e0, ei as int);
                        }
                        let slot = &mut self.metadata[i];
                        let entry = &mut slot.entries[ei];
                        entry.uri = uri;
                        proof {
                            lemma_entry_update(e0, ei as int, self.metadata@[i as int].entries@[ei as int]);
                            lemma_meta_update(s0, i as int, self.metadata@[i as int]);
                        }
                    },
                    None => {
                        is_new = true;
                        let slot = &mut self.metadata[i];
                        slot.entries.push(MetadataEntry { offering_id, uri });
                        proof {
                            lemma_entry_push(e0, self.metadata@[i as int].entries@.last());
                            lemma_meta_update(s0, i as int, self.metadata@[i as int]);
                        }
                    },
                }
            },
            None => {
                is_new = true;
                let mut entries: Vec<MetadataEntry> = Vec::new();
                entries.push(MetadataEntry { offering_id, uri });
                let slot = IssuerMetadata { issuer, entries };
                self.metadata.push(slot);
                proof {
                    lemma_meta_push(s0, slot);
                    lemma_entry_at_is(slot.entries@, 0);
                }
            },
        }
        let ev = if is_new {
            Event::MetadataCreated { issuer, offering_id: id_for_event, uri: uri_for_event }
        } else {
            Event::MetadataUpdated { issuer, offering_id: id_for_event, uri: uri_for_event }
        };
        self.events.push(ev);
        proof {
            assert(self.events_view() =~= old(self).events_view().push(ev@));
        }
    }

    /// Replace the reference stored under `(issuer, offering_id)`.
    ///
    /// Unlike [`RevoraRevenueShare::set_metadata`] this never creates: an
    /// invocation naming an unbound identifier is fatally rejected before
    /// this operation runs, as is one with a bad reference or failed
    /// authorization of `issuer`.
    pub fn update_metadata(&mut self, issuer: u64, offering_id: Vec<u8>, uri: Vec<u8>)
        requires
            old(self).wf(),
            1 <= uri@.len() <= MAX_METADATA_LENGTH,
            old(self).metadata_of(issuer, offering_id@) is Some,
        ensures
            final(self).wf(),
            final(self).metadata_of(issuer, offering_id@) == Some(uri@),
            forall|i2: u64, k2: Seq<u8>|
                !(i2 == issuer && k2 == offering_id@) ==> #[trigger] final(self).metadata_of(i2, k2)
                    == old(self).metadata_of(i2, k2),
            final(self).offerings == old(self).offerings,
            final(self).blacklists == old(self).blacklists,
            final(self).events_view() == old(self).events_view().push(
                EventView::MetadataUpdated { issuer, offering_id: offering_id@, uri: uri@ },
            ),
    {
        let id_for_event = copy_bytes(&offering_id);
        let uri_for_event = copy_bytes(&uri);
        let ghost s0 = self.metadata@;
        match find_meta_slot(&self.metadata, issuer) {
            Some(i) => {
                proof {
                    lemma_meta_at_is(s0, i as int);
                }
                let ghost e0 = self.metadata@[i as int].entries@;
                match find_entry(&self.metadata[i].entries, &offering_id) {
                    Some(ei) => {
                        proof {
                            lemma_entry_at_is(e0, ei as int);
                        }
                        let slot = &mut self.metadata[i];
                        let entry = &mut slot.entries[ei];
                        entry.uri = uri;
                        proof {
                            lemma_entry_update(e0, ei as int, self.metadata@[i as int].entries@[ei as int]);
                            lemma_meta_update(s0, i as int, self.metadata@[i as int]);
                        }
                    },
                    None => {
                        unreached::<()>();
                    },
                }
            },
            None => {
                unreached::<()>();
            },
        }
        self.events.push(Event::MetadataUpdated {
            issuer,
            offering_id: id_for_event,
            uri: uri_for_event,
        });
        proof {
            assert(self.events_view() =~= old(self).events_view().push(
                EventView::MetadataUpdated { issuer, offering_id: offering_id@, uri: uri@ },
            ));
        }
    }

    /// The reference stored under `(issuer, offering_id)`, if any. Pure
    /// read, open to anyone.
    pub fn get_metadata(&self, issuer: u64, offering_id: &Vec<u8>) -> (r: Option<Vec<u8>>)
        requires
            self.wf(),
        ensures
            match r {
                Some(uri) => self.metadata_of(issuer, offering_id@) == Some(uri@),
                None => self.metadata_of(issuer, offering_id@) is None,
            },
    {
        match find_meta_slot(&self.metadata, issuer) {
            Some(i) => {
                proof {
                    lemma_meta_at_is(self.metadata@, i as int);
                }
                match find_entry(&self.metadata[i].entries, offering_id) {
                    Some(ei) => {
                        proof {
                            lemma_entry_at_is(self.metadata@[i as int].entries@, ei as int);
                        }
                        Some(copy_bytes(&self.metadata[i].entries[ei].uri))
                    },
                    None => None,
                }
            },
            None => None,
        }
    }

    /// Remove the entry under `(issuer, offering_id)`.
    ///
    /// An invocation naming an unbound identifier is fatally rejected before
    /// this operation runs, as is one whose authorization of `issuer` fails.
    /// The notification carries only the identifier: the reference no longer
    /// exists.
    pub fn delete_metadata(&mut self, issuer: u64, offering_id: Vec<u8>)
        requires
            old(self).wf(),
            old(self).metadata_of(issuer, offering_id@) is Some,
        ensures
            final(self).wf(),
            final(self).metadata_of(issuer, offering_id@) is None,
            forall|i2: u64, k2: Seq<u8>|
                !(i2 == issuer && k2 == offering_id@) ==> #[trigger] final(self).metadata_of(i2, k2)
                    == old(self).metadata_of(i2, k2),
            final(self).offerings == old(self).offerings,
            final(self).blacklists == old(self).blacklists,
            final(self).events_view() == old(self).events_view().push(
                EventView::MetadataDeleted { issuer, offering_id: offering_id@ },
            ),
    {
        let ghost s0 = self.metadata@;
        match find_meta_slot(&self.metadata, issuer) {
            Some(i) => {
                proof {
                    lemma_meta_at_is(s0, i as int);
                }
                let ghost e0 = self.metadata@[i as int].entries@;
                match find_entry(&self.metadata[i].entries, &offering_id) {
                    Some(ei) => {
                        proof {
                            lemma_entry_at_is(e0, ei as int);
                        }
                        let slot = &mut self.metadata[i];
                        slot.entries.remove(ei);
                        proof {
                            lemma_entry_remove(e0, ei as int);
                            lemma_meta_update(s0, i as int, self.metadata@[i as int]);
                        }
                    },
                    None => {
                        unreached::<()>();
                    },
                }
            },
            None => {
                unreached::<()>();
            },
        }
        self.events.push(Event::MetadataDeleted { issuer, offering_id });
        proof {
            assert(self.events_view() =~= old(self).events_view().push(
                EventView::MetadataDeleted { issuer, offering_id: offering_id@ },
            ));
        }
    }
}

} // verus!
