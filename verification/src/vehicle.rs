//! Vehicles and their bounded position histories.
//!
//! A `Position` is a coordinate pair in integer microdegrees (one millionth
//! of a degree), which is finer than the feed ever reports. A `Vehicle` is
//! the persistent per-id state: the route label of the latest observation
//! and an ordered history of recent positions, oldest first, capped at a
//! configured bound and free of consecutive duplicates.

use vstd::prelude::*;

verus! {

/// A geographic coordinate pair, in integer microdegrees.
#[derive(Clone, Copy, PartialEq, Eq, Structural, Debug)]
pub struct Position {
    /// Latitude north of the equator, in microdegrees.
    pub lat_udeg: i64,
    /// Longitude east of Greenwich, in microdegrees.
    pub lon_udeg: i64,
}

impl Position {
    pub fn new(lat_udeg: i64, lon_udeg: i64) -> (p: Position)
        ensures
            p.lat_udeg == lat_udeg,
            p.lon_udeg == lon_udeg,
    {
        Position { lat_udeg, lon_udeg }
    }
}

/// Mathematical content of a `Vehicle`: the route label as a character
/// sequence and the history as a sequence of positions, oldest first.
pub struct VehicleView {
    pub line: Seq<char>,
    pub positions: Seq<Position>,
}

/// No two consecutive entries of a history are equal.
pub open spec fn no_adjacent_duplicates(h: Seq<Position>) -> bool {
    forall|i: int| 0 < i < h.len() ==> #[trigger] h[i] != h[i - 1]
}

/// How one observation extends a history: the new position is appended
/// unless it repeats the current last entry, and the oldest entries are
/// then evicted until at most `max` remain.
pub open spec fn spec_updated(h: Seq<Position>, p: Position, max: nat) -> Seq<Position> {
    let grown = if h.len() > 0 && h.last() == p {
        h
    } else {
        h.push(p)
    };
    if grown.len() > max {
        grown.skip(grown.len() - max)
    } else {
        grown
    }
}

/// State kept for one vehicle id: route label and recent track.
#[derive(Debug, Clone)]
pub struct Vehicle {
    /// Route label of the latest observation; it may change between
    /// observations when a bus is reassigned.
    pub line: String,
    positions: Vec<Position>,
}

impl View for Vehicle {
    type V = VehicleView;

    closed spec fn view(&self) -> VehicleView {
        VehicleView { line: self.line@, positions: self.positions@ }
    }
}

impl VehicleView {
    /// A vehicle that exists in the store is never without a position, its
    /// history respects the retention bound, and re-observations of an
    /// unchanged position have not been recorded twice.
    pub open spec fn wf(self, max_history: nat) -> bool {
        &&& 1 <= self.positions.len() <= max_history
        &&& no_adjacent_duplicates(self.positions)
    }
}

impl Vehicle {
    /// The invariant of `VehicleView::wf`, read through the view.
    pub open spec fn wf(self, max_history: nat) -> bool {
        self@.wf(max_history)
    }

    /// A vehicle as first created, before any observation is recorded.
    pub fn new(line: String) -> (v: Vehicle)
        ensures
            v@.line == line@,
            v@.positions =~= Seq::<Position>::empty(),
    {
        Vehicle { line, positions: Vec::new() }
    }

    /// Record one observation: append the position unless it repeats the
    /// current last entry, then evict from the oldest end until the history
    /// fits the retention bound.
    pub fn update(&mut self, position: Position, max_history: usize)
        requires
            max_history >= 1,
        ensures
            final(self)@.line == old(self)@.line,
            final(self)@.positions == spec_updated(old(self)@.positions, position, max_history as nat),
    {
        let ghost h0: Seq<Position> = self.positions@;
        let n = self.positions.len();
        if n == 0 || !(self.positions[n - 1] == position) {
            self.positions.push(position);
        }
        let ghost grown: Seq<Position> = self.positions@;
        let ghost line0: Seq<char> = self.line@;
        while self.positions.len() > max_history
            invariant
                max_history >= 1,
                self.line@ == line0,
                self.positions@.len() <= grown.len(),
                self.positions@ =~= grown.skip(grown.len() - self.positions@.len()),
                grown.len() > max_history ==> self.positions@.len() >= max_history,
                grown.len() <= max_history ==> self.positions@.len() == grown.len(),
            decreases self.positions.len(),
        {
            self.positions.remove(0);
        }
        proof {
            assert(grown == if h0.len() > 0 && h0.last() == position {
                h0
            } else {
                h0.push(position)
            });
            assert(self.positions@ =~= spec_updated(h0, position, max_history as nat));
        }
    }

    /// Replace the route label with the one a newer observation reports.
    pub fn set_line(&mut self, line: String)
        ensures
            final(self)@.line == line@,
            final(self)@.positions == old(self)@.positions,
    {
        self.line = line;
    }

    /// An independent copy with the same label and the same history.
    pub fn duplicate(&self) -> (v: Vehicle)
        ensures
            v@ == self@,
    {
        let positions = self.positions.clone();
        proof {
            assert(positions@ =~= self.positions@);
        }
        Vehicle { line: self.line.clone(), positions }
    }

    /// The latest position: the last entry of the history.
    pub fn position(&self) -> (p: Position)
        requires
            self@.positions.len() >= 1,
        ensures
            p == self@.positions.last(),
    {
        self.positions[self.positions.len() - 1]
    }

    /// A copy of the full history, oldest first.
    pub fn positions(&self) -> (r: Vec<Position>)
        ensures
            r@ == self@.positions,
    {
        let r = self.positions.clone();
        proof {
            assert(r@ =~= self.positions@);
        }
        r
    }
}

/// However a history grew, an update never leaves it longer than the
/// retention bound.
pub proof fn lemma_history_bounded(h: Seq<Position>, p: Position, max: nat)
    requires
        max >= 1,
    ensures
        spec_updated(h, p, max).len() <= max,
{
}

/// Re-observing the position that is already the last entry leaves the
/// history unchanged, provided the history already fit the bound.
pub proof fn lemma_duplicate_observation(h: Seq<Position>, max: nat)
    requires
        max >= 1,
        1 <= h.len() <= max,
    ensures
        spec_updated(h, h.last(), max) == h,
{
}

/// An update keeps a history well formed: it stays non-empty, stays within
/// the bound, keeps consecutive entries distinct, and ends with the newly
/// observed position.
pub proof fn lemma_updated_wf(h: Seq<Position>, p: Position, max: nat)
    requires
        max >= 1,
        h.len() <= max,
        no_adjacent_duplicates(h),
    ensures
        1 <= spec_updated(h, p, max).len() <= max,
        no_adjacent_duplicates(spec_updated(h, p, max)),
        spec_updated(h, p, max).last() == p,
{
    let grown = if h.len() > 0 && h.last() == p {
        h
    } else {
        h.push(p)
    };
    assert(no_adjacent_duplicates(grown));
    assert(grown.last() == p);
    if grown.len() > max {
        let k = grown.len() - max;
        assert(forall|i: int| 0 < i < grown.skip(k).len() ==> #[trigger] grown.skip(k)[i] == grown[i + k]
            && grown.skip(k)[i - 1] == grown[i + k - 1]);
        assert(grown.skip(k).last() == grown[grown.len() - 1]);
    }
}

} // verus!
