//! The laws the registry obeys, stated and proved over the mathematical
//! model that the operations' contracts speak of.

use vstd::prelude::*;
use crate::blacklist::{members_after_add, members_after_remove, lemma_members_remove};
use crate::registry::{effective_limit, next_cursor_of, page_of, pages_concat};
use crate::state::{off_slot_wf, Offering, RevoraRevenueShare};
use crate::MAX_PAGE_LIMIT;

verus! {

/// In a well-formed registry the issuer's persisted count always equals the
/// length of the issuer's offering sequence: after `k` successful
/// registrations from an empty registry, both are `k`.
pub proof fn lemma_count_matches_length(r: RevoraRevenueShare, issuer: u64)
    requires
        r.wf(),
    ensures
        r.offering_count_spec(issuer) == r.offering_list(issuer).len(),
{
    if crate::state::off_has(r.offerings@, issuer) {
        let i = crate::state::off_at(r.offerings@, issuer);
        assert(off_slot_wf(r.offerings@[i]));
    }
}

/// Following cursors from `cursor` with one fixed limit and concatenating
/// the pages yields exactly the elements from `cursor` on, in order.
pub proof fn lemma_pages_concat_covers(s: Seq<Offering>, cursor: u32, limit: u32)
    requires
        s.len() <= u32::MAX,
        cursor <= s.len(),
    ensures
        pages_concat(s, cursor, limit) == s.subrange(cursor as int, s.len() as int),
    decreases s.len() - cursor,
{
    if cursor >= s.len() {
        assert(pages_concat(s, cursor, limit) =~= s.subrange(cursor as int, s.len() as int));
    } else {
        match next_cursor_of(s, cursor, limit) {
            Some(c) => {
                lemma_pages_concat_covers(s, c, limit);
                assert(page_of(s, cursor, limit) + pages_concat(s, c, limit) =~= s.subrange(
                    cursor as int,
                    s.len() as int,
                ));
            },
            None => {
                assert(page_of(s, cursor, limit) =~= s.subrange(cursor as int, s.len() as int));
            },
        }
    }
}

/// Concatenating all pages from cursor zero, with any fixed limit, yields
/// the issuer's whole offering sequence in registration order.
pub proof fn lemma_pagination_complete(r: RevoraRevenueShare, issuer: u64, limit: u32)
    requires
        r.wf(),
    ensures
        pages_concat(r.offering_list(issuer), 0, limit) == r.offering_list(issuer),
{
    lemma_count_matches_length(r, issuer);
    lemma_pages_concat_covers(r.offering_list(issuer), 0, limit);
    assert(r.offering_list(issuer).subrange(0, r.offering_list(issuer).len() as int) =~= r
        .offering_list(issuer));
}

/// A cursor at or past the end of the sequence yields the empty page and no
/// next cursor, whatever the limit: it is not an error.
pub proof fn lemma_cursor_past_end(s: Seq<Offering>, cursor: u32, limit: u32)
    requires
        cursor >= s.len(),
    ensures
        page_of(s, cursor, limit) == Seq::<Offering>::empty(),
        next_cursor_of(s, cursor, limit) is None,
{
}

/// In a well-formed registry, a cursor at or past the issuer's persisted
/// count always yields the empty page and no next cursor.
pub proof fn lemma_cursor_past_count(r: RevoraRevenueShare, issuer: u64, cursor: u32, limit: u32)
    requires
        r.wf(),
        cursor >= r.offering_count_spec(issuer),
    ensures
        page_of(r.offering_list(issuer), cursor, limit) == Seq::<Offering>::empty(),
        next_cursor_of(r.offering_list(issuer), cursor, limit) is None,
{
    lemma_count_matches_length(r, issuer);
    lemma_cursor_past_end(r.offering_list(issuer), cursor, limit);
}

/// A page request with limit zero behaves identically to one with the
/// maximum page limit.
pub proof fn lemma_limit_zero_is_max(s: Seq<Offering>, cursor: u32)
    ensures
        page_of(s, cursor, 0) == page_of(s, cursor, MAX_PAGE_LIMIT),
        next_cursor_of(s, cursor, 0) == next_cursor_of(s, cursor, MAX_PAGE_LIMIT),
{
}

/// A page request with a limit above the maximum behaves identically to one
/// with exactly the maximum.
pub proof fn lemma_limit_capped(s: Seq<Offering>, cursor: u32, limit: u32)
    requires
        limit > MAX_PAGE_LIMIT,
    ensures
        page_of(s, cursor, limit) == page_of(s, cursor, MAX_PAGE_LIMIT),
        next_cursor_of(s, cursor, limit) == next_cursor_of(s, cursor, MAX_PAGE_LIMIT),
{
    assert(effective_limit(limit) == effective_limit(MAX_PAGE_LIMIT));
}

/// Adding the same investor twice in a row leaves the membership exactly as
/// one add does.
pub proof fn lemma_add_idempotent(s: Seq<u64>, investor: u64)
    ensures
        members_after_add(members_after_add(s, investor), investor) == members_after_add(
            s,
            investor,
        ),
{
    if !s.contains(investor) {
        assert(s.push(investor)[s.len() as int] == investor);
        assert(s.push(investor).contains(investor));
    }
}

/// Removing the same investor twice in a row leaves a duplicate-free
/// membership exactly as one remove does.
pub proof fn lemma_remove_idempotent(s: Seq<u64>, investor: u64)
    requires
        forall|i: int, j: int| 0 <= i < j < s.len() ==> s[i] != s[j],
    ensures
        members_after_remove(members_after_remove(s, investor), investor) == members_after_remove(
            s,
            investor,
        ),
{
    if s.contains(investor) {
        let i = s.index_of(investor);
        lemma_members_remove(s, i);
        assert(!s.remove(i).contains(investor));
    }
}

} // verus!
