//! Offering registry: append-only per-issuer sequences with a separately
//! persisted count and bounded cursor-based pagination.

use vstd::prelude::*;
use crate::events::{Event, EventView};
use crate::errors::RevoraError;
use crate::state::{off_at, off_has, off_keys_unique, IssuerOfferings, Offering,
    RevoraRevenueShare};
use crate::MAX_PAGE_LIMIT;

verus! {

// ─── facts about lookup in the issuer list ───────────────────────────────

/// In a list with unique issuers, the slot found at `i` is the one that
/// lookup returns for its issuer.
pub proof fn lemma_off_at_is(s: Seq<IssuerOfferings>, i: int)
    requires
        off_keys_unique(s),
        0 <= i < s.len(),
    ensures
        off_has(s, s[i].issuer),
        off_at(s, s[i].issuer) == i,
{
    assert(off_has(s, s[i].issuer));
    let j = off_at(s, s[i].issuer);
    if j != i {
        assert(s[j].issuer != s[i].issuer);
    }
}

/// Replacing the slot at `i` with one for the same issuer changes lookup
/// only for that issuer.
pub proof fn lemma_off_update(s: Seq<IssuerOfferings>, i: int, e: IssuerOfferings)
    requires
        off_keys_unique(s),
        0 <= i < s.len(),
        e.issuer == s[i].issuer,
    ensures
        off_keys_unique(s.update(i, e)),
        off_has(s.update(i, e), e.issuer),
        off_at(s.update(i, e), e.issuer) == i,
        forall|k: u64|
            k != e.issuer ==> #[trigger] off_has(s.update(i, e), k) == off_has(s, k),
        forall|k: u64|
            k != e.issuer && off_has(s, k) ==> #[trigger] s.update(i, e)[off_at(
                s.update(i, e),
                k,
            )] == s[off_at(s, k)],
{
    let s2 = s.update(i, e);
    assert(forall|m: int| 0 <= m < s.len() ==> (#[trigger] s2[m]).issuer == s[m].issuer);
    lemma_off_at_is(s2, i);
    assert forall|k: u64| k != e.issuer implies #[trigger] off_has(s2, k) == off_has(s, k) by {
        if off_has(s, k) {
            let j = off_at(s, k);
            assert(s2[j].issuer == k);
        }
        if off_has(s2, k) {
            let j = off_at(s2, k);
            assert(s[j].issuer == k);
        }
    }
    assert forall|k: u64| k != e.issuer && off_has(s, k) implies #[trigger] s2[off_at(s2, k)]
        == s[off_at(s, k)] by {
        let j = off_at(s, k);
        assert(s2[j].issuer == k);
        lemma_off_at_is(s2, j);
        lemma_off_at_is(s, j);
    }
}

/// Appending a slot for a previously unknown issuer changes lookup only for
/// that issuer.
pub proof fn lemma_off_push(s: Seq<IssuerOfferings>, e: IssuerOfferings)
    requires
        off_keys_unique(s),
        !off_has(s, e.issuer),
    ensures
        off_keys_unique(s.push(e)),
        off_has(s.push(e), e.issuer),
        off_at(s.push(e), e.issuer) == s.len(),
        s.push(e)[s.len() as int] == e,
        forall|k: u64| k != e.issuer ==> #[trigger] off_has(s.push(e), k) == off_has(s, k),
        forall|k: u64|
            k != e.issuer && off_has(s, k) ==> #[trigger] s.push(e)[off_at(s.push(e), k)] == s[off_at(
                s,
                k,
            )],
{
    let s2 = s.push(e);
    assert(forall|m: int| 0 <= m < s.len() ==> (#[trigger] s2[m]).issuer == s[m].issuer);
    assert forall|m: int, j: int| 0 <= m < j < s2.len() implies s2[m].issuer != s2[j].issuer by {
        if j == s.len() {
            assert(s2[m].issuer == s[m].issuer);
            if s2[m].issuer == e.issuer {
                assert(off_has(s, e.issuer));
            }
        }
    }
    lemma_off_at_is(s2, s.len() as int);
    assert forall|k: u64| k != e.issuer implies #[trigger] off_has(s2, k) == off_has(s, k) by {
        if off_has(s, k) {
            let j = off_at(s, k);
            assert(s2[j].issuer == k);
        }
        if off_has(s2, k) {
            let j = off_at(s2, k);
            assert(s[j].issuer == k);
        }
    }
    assert forall|k: u64| k != e.issuer && off_has(s, k) implies #[trigger] s2[off_at(s2, k)]
        == s[off_at(s, k)] by {
        let j = off_at(s, k);
        assert(s2[j].issuer == k);
        lemma_off_at_is(s2, j);
        lemma_off_at_is(s, j);
    }
}

// ─── pagination, as a mathematical function ──────────────────────────────

/// A limit of zero asks for the maximum page size; anything above the
/// maximum is capped to it. Clamping is silent: it is a usability
/// affordance, not a validation failure.
pub open spec fn effective_limit(limit: u32) -> u32 {
    if limit == 0 || limit > MAX_PAGE_LIMIT {
        MAX_PAGE_LIMIT
    } else {
        limit
    }
}

/// Exclusive end of the page starting at `cursor` in a sequence of length
/// `n`: `cursor + limit`, cut off at `n`.
pub open spec fn page_end(n: int, cursor: u32, limit: u32) -> int {
    if cursor + effective_limit(limit) < n {
        cursor + effective_limit(limit)
    } else {
        n
    }
}

/// The page itself: the sub-sequence `[cursor, min(cursor + limit, n))` in
/// insertion order, empty when the cursor is at or past the end.
pub open spec fn page_of(s: Seq<Offering>, cursor: u32, limit: u32) -> Seq<Offering> {
    if cursor >= s.len() {
        Seq::empty()
    } else {
        s.subrange(cursor as int, page_end(s.len() as int, cursor, limit))
    }
}

/// The cursor of the first unread element, or `None` iff the page reached
/// the end of the sequence.
pub open spec fn next_cursor_of(s: Seq<Offering>, cursor: u32, limit: u32) -> Option<u32> {
    if cursor < s.len() && cursor + effective_limit(limit) < s.len() {
        Some((cursor + effective_limit(limit)) as u32)
    } else {
        None
    }
}

/// Concatenation of every page obtained by starting at `cursor` and
/// repeatedly following the returned cursors with the same limit. Defined
/// for sequences whose length fits the cursor type, which holds of every
/// issuer's sequence in a well-formed registry.
pub open spec fn pages_concat(s: Seq<Offering>, cursor: u32, limit: u32) -> Seq<Offering>
    decreases s.len() - cursor,
    when s.len() <= u32::MAX
{
    if cursor >= s.len() {
        Seq::empty()
    } else {
        match next_cursor_of(s, cursor, limit) {
            Some(c) => page_of(s, cursor, limit) + pages_concat(s, c, limit),
            None => page_of(s, cursor, limit),
        }
    }
}

// ─── what a successful registration does ─────────────────────────────────

/// Relation between the registry before and after a successful
/// `register_offering(issuer, token, bps)` call: the offering is appended to
/// the issuer's sequence, the issuer's count grows by exactly one, every
/// other issuer's data is untouched, blacklists and metadata are untouched,
/// and a registration notification is appended to the log.
pub open spec fn registered(
    pre: RevoraRevenueShare,
    post: RevoraRevenueShare,
    issuer: u64,
    token: u64,
    bps: u32,
) -> bool {
    &&& post.offering_list(issuer) == pre.offering_list(issuer).push(
        Offering { issuer, token, revenue_share_bps: bps },
    )
    &&& post.offering_count_spec(issuer) == pre.offering_count_spec(issuer) + 1
    &&& forall|other: u64|
        other != issuer ==> #[trigger] post.offering_list(other) == pre.offering_list(other)
    &&& forall|other: u64|
        other != issuer ==> #[trigger] post.offering_count_spec(other) == pre.offering_count_spec(
            other,
        )
    &&& post.blacklists == pre.blacklists
    &&& post.metadata == pre.metadata
    &&& post.events_view() == pre.events_view().push(
        EventView::OfferingRegistered { issuer, token, revenue_share_bps: bps },
    )
}

// ─── executable operations ───────────────────────────────────────────────

/// Linear scan for the issuer's slot.
fn find_offerings_slot(v: &Vec<IssuerOfferings>, issuer: u64) -> (r: Option<usize>)
    ensures
        match r {
            Some(i) => i < v@.len() && v@[i as int].issuer == issuer,
            None => !off_has(v@, issuer),
        },
{
    let mut i: usize = 0;
    while i < v.len()
        invariant
            i <= v@.len(),
            forall|j: int| 0 <= j < i ==> (#[trigger] v@[j]).issuer != issuer,
        decreases v@.len() - i,
    {
        if v[i].issuer == issuer {
            return Some(i);
        }
        i = i + 1;
    }
    None
}

impl RevoraRevenueShare {
    /// Register a new revenue-share offering for `issuer`.
    ///
    /// The share must be within the 10000 bps cap: the aborting variant
    /// rejects anything above it before this operation runs (see
    /// [`RevoraRevenueShare::try_register_offering`] for the recoverable
    /// twin). Authorization of `issuer` is the adapter's duty and precedes
    /// the call.
    pub fn register_offering(&mut self, issuer: u64, token: u64, revenue_share_bps: u32)
        requires
            old(self).wf(),
            revenue_share_bps <= 10000,
            old(self).offering_count_spec(issuer) < u32::MAX,
        ensures
            final(self).wf(),
            registered(*old(self), *final(self), issuer, token, revenue_share_bps),
    {
        let off = Offering { issuer, token, revenue_share_bps };
        let ghost s0 = self.offerings@;
        match find_offerings_slot(&self.offerings, issuer) {
            Some(i) => {
                proof {
                    lemma_off_at_is(s0, i as int);
                }
                let slot = &mut self.offerings[i];
                slot.items.push(off);
                slot.count = slot.count + 1;
                proof {
                    lemma_off_update(s0, i as int, self.offerings@[i as int]);
                }
            },
            None => {
                let mut items: Vec<Offering> = Vec::new();
                items.push(off);
                let slot = IssuerOfferings { issuer, count: 1, items };
                self.offerings.push(slot);
                proof {
                    lemma_off_push(s0, slot);
                    assert(self.offering_list(issuer) =~= old(self).offering_list(issuer).push(
                        off,
                    ));
                }
            },
        }
        let ghost ev0 = self.events@;
        self.events.push(Event::OfferingRegistered { issuer, token, revenue_share_bps });
        proof {
            assert(self.events_view() =~= old(self).events_view().push(
                EventView::OfferingRegistered { issuer, token, revenue_share_bps },
            ));
        }
    }

    /// Recoverable twin of [`RevoraRevenueShare::register_offering`]: a
    /// share above 10000 bps is answered with
    /// [`RevoraError::InvalidRevenueShareBps`] and the registry is left
    /// exactly as it was; otherwise the registration happens as in the
    /// aborting variant. Both variants agree on the threshold.
    pub fn try_register_offering(&mut self, issuer: u64, token: u64, revenue_share_bps: u32) -> (r:
        Result<(), RevoraError>)
        requires
            old(self).wf(),
            revenue_share_bps <= 10000 ==> old(self).offering_count_spec(issuer) < u32::MAX,
        ensures
            final(self).wf(),
            revenue_share_bps > 10000 ==> r == Err::<(), RevoraError>(
                RevoraError::InvalidRevenueShareBps,
            ) && *final(self) == *old(self),
            revenue_share_bps <= 10000 ==> r == Ok::<(), RevoraError>(()) && registered(
                *old(self),
                *final(self),
                issuer,
                token,
                revenue_share_bps,
            ),
    {
        if revenue_share_bps > 10000 {
            return Err(RevoraError::InvalidRevenueShareBps);
        }
        self.register_offering(issuer, token, revenue_share_bps);
        Ok(())
    }

    /// The issuer's persisted offering count; zero for an issuer that has
    /// never registered anything. Pure read, open to anyone.
    pub fn get_offering_count(&self, issuer: u64) -> (n: u32)
        requires
            self.wf(),
        ensures
            n == self.offering_count_spec(issuer),
    {
        match find_offerings_slot(&self.offerings, issuer) {
            Some(i) => {
                proof {
                    lemma_off_at_is(self.offerings@, i as int);
                }
                self.offerings[i].count
            },
            None => 0,
        }
    }

    /// One page of the issuer's offerings, starting at `cursor`, together
    /// with the cursor of the first unread element (`None` iff the page
    /// reached the end). An out-of-range cursor is not an error: it yields
    /// an empty page. Pure read, open to anyone.
    pub fn get_offerings_page(&self, issuer: u64, cursor: u32, limit: u32) -> (r: (
        Vec<Offering>,
        Option<u32>,
    ))
        requires
            self.wf(),
        ensures
            r.0@ == page_of(self.offering_list(issuer), cursor, limit),
            r.1 == next_cursor_of(self.offering_list(issuer), cursor, limit),
    {
        let lim: u32 = if limit == 0 || limit > MAX_PAGE_LIMIT {
            MAX_PAGE_LIMIT
        } else {
            limit
        };
        let mut page: Vec<Offering> = Vec::new();
        match find_offerings_slot(&self.offerings, issuer) {
            None => (page, None),
            Some(si) => {
                proof {
                    lemma_off_at_is(self.offerings@, si as int);
                }
                let items = &self.offerings[si].items;
                let n: usize = items.len();
                if cursor as u64 >= n as u64 {
                    return (page, None);
                }
                let end64: u64 = cursor as u64 + lim as u64;
                let end: usize = if end64 < n as u64 {
                    end64 as usize
                } else {
                    n
                };
                let mut i: usize = cursor as usize;
                while i < end
                    invariant
                        cursor as int <= i as int <= end as int,
                        end as int == page_end(items@.len() as int, cursor, lim),
                        end <= items@.len(),
                        page@ == items@.subrange(cursor as int, i as int),
                    decreases end - i,
                {
                    page.push(items[i]);
                    proof {
                        assert(page@ =~= items@.subrange(cursor as int, i + 1));
                    }
                    i = i + 1;
                }
                let next: Option<u32> = if end < n {
                    Some(end as u32)
                } else {
                    None
                };
                proof {
                    assert(effective_limit(limit) == lim);
                    assert(self.offering_list(issuer) == items@);
                }
                (page, next)
            },
        }
    }
}

} // verus!
