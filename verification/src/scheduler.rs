//! The scheduler's per-tick decisions.
//!
//! The surrounding application runs a fixed-interval loop for the life of
//! the process. On each tick it samples the visibility flag, asks
//! `plan_tick` what to do, performs the network round trip itself when one
//! is called for, and hands the outcome to `tick_active` or `tick_hidden`.
//! Neither a failed fetch nor a hidden stretch ever ends the loop: every
//! tick function returns normally on every input, so the next tick can
//! always be scheduled at the normal interval.

use vstd::prelude::*;

use crate::feed::{FeedError, MpkPosition, filter_sane, spec_filter_sane};
use crate::store::{EntryView, MpkWroclaw, spec_merge};
use crate::vehicle::VehicleView;

verus! {

/// What one tick is to do, decided from the visibility flag alone.
#[derive(Clone, Copy, PartialEq, Eq, Structural, Debug)]
pub enum TickPlan {
    /// Visible: run the fetch, validate, merge, and request a redraw.
    FetchAndMerge,
    /// Hidden: clear the store and make no network request at all.
    ClearAndRest,
}

/// Decide the tick's action. Hidden means no network work whatsoever for
/// this tick; visible means one fetch round trip.
pub fn plan_tick(in_background: bool) -> (p: TickPlan)
    ensures
        p == (if in_background {
            TickPlan::ClearAndRest
        } else {
            TickPlan::FetchAndMerge
        }),
{
    if in_background {
        TickPlan::ClearAndRest
    } else {
        TickPlan::FetchAndMerge
    }
}

/// An active tick, given what the fetcher returned and the caller's clock
/// reading. A successful fetch is validated and merged, noted as the last
/// successful one, and earns a redraw request; a failed fetch leaves the
/// store exactly as it was, asks for no redraw, and is otherwise swallowed
/// so the loop's next tick is unaffected.
pub fn tick_active(
    store: &mut MpkWroclaw,
    fetched: Result<Vec<MpkPosition>, FeedError>,
    now: i64,
) -> (redraw: bool)
    requires
        old(store).wf(),
    ensures
        final(store).wf(),
        final(store).spec_config() == old(store).spec_config(),
        match fetched {
            Ok(batch) => redraw && final(store).as_map() == spec_merge(
                old(store).as_map(),
                spec_filter_sane(
                    batch@.map_values(|p: MpkPosition| p@),
                    old(store).spec_config(),
                ),
                old(store).spec_config().max_history as nat,
            ) && final(store).spec_last_fetch_at() == Option::Some(now),
            Err(_) => !redraw && *final(store) == *old(store),
        },
{
    match fetched {
        Ok(batch) => {
            let cfg = store.config();
            let valid = filter_sane(&batch, &cfg);
            store.merge(&valid);
            store.record_fetch_time(now);
            true
        },
        Err(_) => false,
    }
}

/// A hidden tick: purge the store wholesale. The caller makes no network
/// request on such a tick; there is nothing to fetch for a map nobody sees.
/// The staleness metric survives the purge.
pub fn tick_hidden(store: &mut MpkWroclaw)
    requires
        old(store).wf(),
    ensures
        final(store).wf(),
        final(store).spec_config() == old(store).spec_config(),
        final(store).spec_last_fetch_at() == old(store).spec_last_fetch_at(),
        final(store).entries_view() == Seq::<EntryView>::empty(),
        final(store).as_map() == Map::<Seq<char>, VehicleView>::empty(),
{
    store.clear();
}

} // verus!
