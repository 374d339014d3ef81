//! Per-asset investor blacklists with idempotent membership updates.

use vstd::prelude::*;
use crate::events::{Event, EventView};
use crate::state::{bl_at, bl_has, bl_keys_unique, bl_slot_wf, RevoraRevenueShare, TokenBlacklist};

verus! {

// ─── membership updates, as mathematical functions ───────────────────────

/// Membership after an add: unchanged when the investor is already present,
/// appended at the end otherwise.
pub open spec fn members_after_add(s: Seq<u64>, investor: u64) -> Seq<u64> {
    if s.contains(investor) {
        s
    } else {
        s.push(investor)
    }
}

/// Membership after a remove: unchanged when the investor is absent,
/// otherwise the sequence with the investor's (unique) occurrence taken out.
pub open spec fn members_after_remove(s: Seq<u64>, investor: u64) -> Seq<u64> {
    if s.contains(investor) {
        s.remove(s.index_of(investor))
    } else {
        s
    }
}

// ─── facts about lookup in the blacklist list ────────────────────────────

/// In a list with unique tokens, the slot found at `i` is the one that
/// lookup returns for its token.
pub proof fn lemma_bl_at_is(s: Seq<TokenBlacklist>, i: int)
    requires
        bl_keys_unique(s),
        0 <= i < s.len(),
    ensures
        bl_has(s, s[i].token),
        bl_at(s, s[i].token) == i,
{
    assert(bl_has(s, s[i].token));
    let j = bl_at(s, s[i].token);
    if j != i {
        assert(s[j].token != s[i].token);
    }
}

/// Replacing the slot at `i` with one for the same token changes lookup
/// only for that token.
pub proof fn lemma_bl_update(s: Seq<TokenBlacklist>, i: int, e: TokenBlacklist)
    requires
        bl_keys_unique(s),
        0 <= i < s.len(),
        e.token == s[i].token,
    ensures
        bl_keys_unique(s.update(i, e)),
        bl_has(s.update(i, e), e.token),
        bl_at(s.update(i, e), e.token) == i,
        forall|k: u64| k != e.token ==> #[trigger] bl_has(s.update(i, e), k) == bl_has(s, k),
        forall|k: u64|
            k != e.token && bl_has(s, k) ==> #[trigger] s.update(i, e)[bl_at(s.update(i, e), k)]
                == s[bl_at(s, k)],
{
    let s2 = s.update(i, e);
    assert(forall|m: int| 0 <= m < s.len() ==> (#[trigger] s2[m]).token == s[m].token);
    lemma_bl_at_is(s2, i);
    assert forall|k: u64| k != e.token implies #[trigger] bl_has(s2, k) == bl_has(s, k) by {
        if bl_has(s, k) {
            let j = bl_at(s, k);
            assert(s2[j].token == k);
        }
        if bl_has(s2, k) {
            let j = bl_at(s2, k);
            assert(s[j].token == k);
        }
    }
    assert forall|k: u64| k != e.token && bl_has(s, k) implies #[trigger] s2[bl_at(s2, k)] == s[bl_at(
        s,
        k,
    )] by {
        let j = bl_at(s, k);
        assert(s2[j].token == k);
        lemma_bl_at_is(s2, j);
        lemma_bl_at_is(s, j);
    }
}

/// Appending a slot for a previously unknown token changes lookup only for
/// that token.
pub proof fn lemma_bl_push(s: Seq<TokenBlacklist>, e: TokenBlacklist)
    requires
        bl_keys_unique(s),
        !bl_has(s, e.token),
    ensures
        bl_keys_unique(s.push(e)),
        bl_has(s.push(e), e.token),
        bl_at(s.push(e), e.token) == s.len(),
        s.push(e)[s.len() as int] == e,
        forall|k: u64| k != e.token ==> #[trigger] bl_has(s.push(e), k) == bl_has(s, k),
        forall|k: u64|
            k != e.token && bl_has(s, k) ==> #[trigger] s.push(e)[bl_at(s.push(e), k)] == s[bl_at(
                s,
                k,
            )],
{
    let s2 = s.push(e);
    assert(forall|m: int| 0 <= m < s.len() ==> (#[trigger] s2[m]).token == s[m].token);
    assert forall|m: int, j: int| 0 <= m < j < s2.len() implies s2[m].token != s2[j].token by {
        if j == s.len() {
            assert(s2[m].token == s[m].token);
            if s2[m].token == e.token {
                assert(bl_has(s, e.token));
            }
        }
    }
    lemma_bl_at_is(s2, s.len() as int);
    assert forall|k: u64| k != e.token implies #[trigger] bl_has(s2, k) == bl_has(s, k) by {
        if bl_has(s, k) {
            let j = bl_at(s, k);
            assert(s2[j].token == k);
        }
        if bl_has(s2, k) {
            let j = bl_at(s2, k);
            assert(s[j].token == k);
        }
    }
    assert forall|k: u64| k != e.token && bl_has(s, k) implies #[trigger] s2[bl_at(s2, k)] == s[bl_at(
        s,
        k,
    )] by {
        let j = bl_at(s, k);
        assert(s2[j].token == k);
        lemma_bl_at_is(s2, j);
        lemma_bl_at_is(s, j);
    }
}

/// Appending a fresh member keeps a duplicate-free membership
/// duplicate-free, and extends what it contains by exactly that member.
pub proof fn lemma_members_push(s: Seq<u64>, x: u64)
    requires
        forall|i: int, j: int| 0 <= i < j < s.len() ==> s[i] != s[j],
        !s.contains(x),
    ensures
        forall|i: int, j: int| 0 <= i < j < s.push(x).len() ==> s.push(x)[i] != s.push(x)[j],
        forall|v: u64| s.push(x).contains(v) <==> (v == x || s.contains(v)),
{
    let s2 = s.push(x);
    assert forall|i: int, j: int| 0 <= i < j < s2.len() implies s2[i] != s2[j] by {
        if j == s.len() {
            if s2[i] == x {
                assert(s.contains(x));
            }
        }
    }
    assert forall|v: u64| s2.contains(v) <==> (v == x || s.contains(v)) by {
        if v == x {
            assert(s2[s.len() as int] == x);
        }
        if s.contains(v) {
            let i = choose|i: int| 0 <= i < s.len() && s[i] == v;
            assert(s2[i] == v);
        }
        if s2.contains(v) {
            let i = choose|i: int| 0 <= i < s2.len() && s2[i] == v;
            if i < s.len() {
                assert(s[i] == v);
            }
        }
    }
}

/// Removing the occurrence at `i` from a duplicate-free membership keeps it
/// duplicate-free, and shrinks what it contains by exactly that member.
pub proof fn lemma_members_remove(s: Seq<u64>, i: int)
    requires
        forall|m: int, j: int| 0 <= m < j < s.len() ==> s[m] != s[j],
        0 <= i < s.len(),
    ensures
        forall|m: int, j: int| 0 <= m < j < s.remove(i).len() ==> s.remove(i)[m] != s.remove(i)[j],
        forall|v: u64| s.remove(i).contains(v) <==> (v != s[i] && s.contains(v)),
{
    let s2 = s.remove(i);
    s.remove_ensures(i);
    assert forall|m: int, j: int| 0 <= m < j < s2.len() implies s2[m] != s2[j] by {
        let m0: int = if m < i { m } else { m + 1 };
        let j0: int = if j < i { j } else { j + 1 };
        assert(s2[m] == s[m0]);
        assert(s2[j] == s[j0]);
    }
    assert forall|v: u64| s2.contains(v) <==> (v != s[i] && s.contains(v)) by {
        if s2.contains(v) {
            let m = choose|m: int| 0 <= m < s2.len() && s2[m] == v;
            let m0: int = if m < i { m } else { m + 1 };
            assert(s2[m] == s[m0]);
            assert(s[m0] == v);
            if m0 < i {
                assert(s[m0] != s[i]);
            } else {
                assert(s[i] != s[m0]);
            }
        }
        if v != s[i] && s.contains(v) {
            let m0 = choose|m0: int| 0 <= m0 < s.len() && s[m0] == v;
            if m0 < i {
                assert(s2[m0] == v);
            } else {
                assert(s2[m0 - 1] == v);
            }
        }
    }
}

// ─── executable operations ───────────────────────────────────────────────

/// Linear scan for the token's slot.
fn find_blacklist_slot(v: &Vec<TokenBlacklist>, token: u64) -> (r: Option<usize>)
    ensures
        match r {
            Some(i) => i < v@.len() && v@[i as int].token == token,
            None => !bl_has(v@, token),
        },
{
    let mut i: usize = 0;
    while i < v.len()
        invariant
            i <= v@.len(),
            forall|j: int| 0 <= j < i ==> (#[trigger] v@[j]).token != token,
        decreases v@.len() - i,
    {
        if v[i].token == token {
            return Some(i);
        }
        i = i + 1;
    }
    None
}

/// Linear scan for one member.
fn find_member(v: &Vec<u64>, x: u64) -> (r: Option<usize>)
    ensures
        match r {
            Some(i) => i < v@.len() && v@[i as int] == x,
            None => !v@.contains(x),
        },
{
    let mut i: usize = 0;
    while i < v.len()
        invariant
            i <= v@.len(),
            forall|j: int| 0 <= j < i ==> v@[j] != x,
        decreases v@.len() - i,
    {
        if v[i] == x {
            return Some(i);
        }
        i = i + 1;
    }
    None
}

impl RevoraRevenueShare {
    /// Add `investor` to the blacklist for `token`.
    ///
    /// Adding an investor who is already listed is a successful no-op on the
    /// membership; a notification is appended either way. Any authorized
    /// caller may mutate any asset's blacklist — the design deliberately
    /// binds no per-asset admin role, and authorization of `caller` itself
    /// is the adapter's duty.
    pub fn blacklist_add(&mut self, caller: u64, token: u64, investor: u64)
        requires
            old(self).wf(),
        ensures
            final(self).wf(),
            final(self).blacklist_of(token) == members_after_add(
                old(self).blacklist_of(token),
                investor,
            ),
            forall|v: u64|
                final(self).blacklist_of(token).contains(v) <==> (v == investor || old(
                    self,
                ).blacklist_of(token).contains(v)),
            forall|t: u64|
                t != token ==> #[trigger] final(self).blacklist_of(t) == old(self).blacklist_of(t),
            final(self).offerings == old(self).offerings,
            final(self).metadata == old(self).metadata,
            final(self).events_view() == old(self).events_view().push(
                EventView::BlacklistAdded { token, investor },
            ),
    {
        let _ = caller;
        let ghost s0 = self.blacklists@;
        match find_blacklist_slot(&self.blacklists, token) {
            Some(i) => {
                proof {
                    lemma_bl_at_is(s0, i as int);
                }
                let ghost m0 = self.blacklists@[i as int].members@;
                match find_member(&self.blacklists[i].members, investor) {
                    Some(_) => {
                        proof {
                            assert(old(self).blacklist_of(token).contains(investor));
                        }
                    },
                    None => {
                        let slot = &mut self.blacklists[i];
                        slot.members.push(investor);
                        proof {
                            lemma_members_push(m0, investor);
                            lemma_bl_update(s0, i as int, self.blacklists@[i as int]);
                        }
                    },
                }
            },
            None => {
                let mut members: Vec<u64> = Vec::new();
                members.push(investor);
                let slot = TokenBlacklist { token, members };
                self.blacklists.push(slot);
                proof {
                    lemma_bl_push(s0, slot);
                    assert(self.blacklist_of(token) =~= Seq::<u64>::empty().push(investor));
                    assert(!old(self).blacklist_of(token).contains(investor));
                    lemma_members_push(Seq::<u64>::empty(), investor);
                }
            },
        }
        self.events.push(Event::BlacklistAdded { token, investor });
        proof {
            assert(self.events_view() =~= old(self).events_view().push(
                EventView::BlacklistAdded { token, investor },
            ));
        }
    }

    /// Remove `investor` from the blacklist for `token`.
    ///
    /// Removing an absent investor is a successful no-op on the membership —
    /// never an error — and a notification is appended either way.
    /// Authorization of `caller` is the adapter's duty.
    pub fn blacklist_remove(&mut self, caller: u64, token: u64, investor: u64)
        requires
            old(self).wf(),
        ensures
            final(self).wf(),
            final(self).blacklist_of(token) == members_after_remove(
                old(self).blacklist_of(token),
                investor,
            ),
            forall|v: u64|
                final(self).blacklist_of(token).contains(v) <==> (v != investor && old(
                    self,
                ).blacklist_of(token).contains(v)),
            forall|t: u64|
                t != token ==> #[trigger] final(self).blacklist_of(t) == old(self).blacklist_of(t),
            final(self).offerings == old(self).offerings,
            final(self).metadata == old(self).metadata,
            final(self).events_view() == old(self).events_view().push(
                EventView::BlacklistRemoved { token, investor },
            ),
    {
        let _ = caller;
        let ghost s0 = self.blacklists@;
        match find_blacklist_slot(&self.blacklists, token) {
            Some(i) => {
                proof {
                    lemma_bl_at_is(s0, i as int);
                }
                let ghost m0 = self.blacklists@[i as int].members@;
                match find_member(&self.blacklists[i].members, investor) {
                    Some(mi) => {
                        let slot = &mut self.blacklists[i];
                        slot.members.remove(mi);
                        proof {
                            assert(m0.contains(investor));
                            let j = m0.index_of(investor);
                            assert(m0[mi as int] == investor);
                            if j != mi as int {
                                assert(m0[j] != m0[mi as int]);
                            }
                            lemma_members_remove(m0, mi as int);
                            lemma_bl_update(s0, i as int, self.blacklists@[i as int]);
                        }
                    },
                    None => {
                        proof {
                            assert(!old(self).blacklist_of(token).contains(investor));
                        }
                    },
                }
            },
            None => {
                proof {
                    assert(!old(self).blacklist_of(token).contains(investor));
                }
            },
        }
        self.events.push(Event::BlacklistRemoved { token, investor });
        proof {
            assert(self.events_view() =~= old(self).events_view().push(
                EventView::BlacklistRemoved { token, investor },
            ));
        }
    }

    /// Is `investor` currently blacklisted for `token`? Pure membership
    /// test, open to anyone.
    pub fn is_blacklisted(&self, token: u64, investor: u64) -> (b: bool)
        requires
            self.wf(),
        ensures
            b == self.blacklist_of(token).contains(investor),
    {
        match find_blacklist_slot(&self.blacklists, token) {
            Some(i) => {
                proof {
                    lemma_bl_at_is(self.blacklists@, i as int);
                }
                match find_member(&self.blacklists[i].members, investor) {
                    Some(_) => true,
                    None => false,
                }
            },
            None => false,
        }
    }

    /// All investors currently blacklisted for `token`, each exactly once,
    /// in insertion order. Pure read, open to anyone.
    pub fn get_blacklist(&self, token: u64) -> (r: Vec<u64>)
        requires
            self.wf(),
        ensures
            r@ == self.blacklist_of(token),
    {
        let mut out: Vec<u64> = Vec::new();
        match find_blacklist_slot(&self.blacklists, token) {
            Some(i) => {
                proof {
                    lemma_bl_at_is(self.blacklists@, i as int);
                }
                let members = &self.blacklists[i].members;
                let mut j: usize = 0;
                while j < members.len()
                    invariant
                        j <= members@.len(),
                        out@ == members@.subrange(0, j as int),
                    decreases members@.len() - j,
                {
                    out.push(members[j]);
                    proof {
                        assert(out@ =~= members@.subrange(0, j + 1));
                    }
                    j = j + 1;
                }
                proof {
                    assert(out@ =~= members@);
                }
                out
            },
            None => out,
        }
    }
}

} // verus!
