//! Revenue report pipeline: validates nothing about the amount — negative
//! figures are meaningful clawbacks — and publishes a notification that
//! embeds a point-in-time copy of the asset's blacklist.

use vstd::prelude::*;
use crate::events::{Event, EventView};
use crate::state::RevoraRevenueShare;

verus! {

impl RevoraRevenueShare {
    /// Record a revenue figure for `(issuer, token)` over period
    /// `period_id`.
    ///
    /// Accepts every amount, the `i128` extremes and negative adjustments
    /// included, and mutates nothing but the notification log: the appended
    /// notification carries the amount exactly as given, together with a
    /// snapshot of the asset's current blacklist, read fresh at publish
    /// time. Authorization of `issuer` is the adapter's duty.
    pub fn report_revenue(&mut self, issuer: u64, token: u64, amount: i128, period_id: u64)
        requires
            old(self).wf(),
        ensures
            final(self).wf(),
            final(self).offerings == old(self).offerings,
            final(self).blacklists == old(self).blacklists,
            final(self).metadata == old(self).metadata,
            final(self).events_view() == old(self).events_view().push(
                EventView::RevenueReported {
                    issuer,
                    token,
                    amount,
                    period_id,
                    blacklist: old(self).blacklist_of(token),
                },
            ),
    {
        let snapshot = self.get_blacklist(token);
        self.events.push(Event::RevenueReported {
            issuer,
            token,
            amount,
            period_id,
            blacklist: snapshot,
        });
        proof {
            assert(self.events_view() =~= old(self).events_view().push(
                EventView::RevenueReported {
                    issuer,
                    token,
                    amount,
                    period_id,
                    blacklist: old(self).blacklist_of(token),
                },
            ));
        }
    }
}

} // verus!
