//! The vehicle store: every vehicle observed since the last clear, keyed by
//! its feed-assigned id.
//!
//! The store is the single shared resource of the pipeline. It is owned by
//! the core and reached only through a narrow interface: `merge` folds a
//! validated batch in, `clear` empties it wholesale, and `vehicles` hands
//! out a deep snapshot. Entries are kept as a vector of id/vehicle pairs
//! with pairwise-distinct ids, in order of first observation; contracts
//! speak of the derived map from id to vehicle state.

use vstd::prelude::*;

use crate::Config;
use crate::feed::{FeedRecordView, MpkPosition};
use crate::vehicle::{
    Position, Vehicle, VehicleView, lemma_history_bounded, lemma_updated_wf, spec_updated,
};

verus! {

/// One store entry: a vehicle id and the state kept for it.
#[derive(Debug, Clone)]
pub struct VehicleEntry {
    pub id: String,
    pub vehicle: Vehicle,
}

/// Mathematical content of one store entry.
pub struct EntryView {
    pub id: Seq<char>,
    pub vehicle: VehicleView,
}

impl View for VehicleEntry {
    type V = EntryView;

    open spec fn view(&self) -> EntryView {
        EntryView { id: self.id@, vehicle: self.vehicle@ }
    }
}

/// No two entries share an id.
pub open spec fn unique_ids(es: Seq<EntryView>) -> bool {
    forall|i: int, j: int|
        #![trigger es[i].id, es[j].id]
        0 <= i < j < es.len() ==> es[i].id != es[j].id
}

/// Some entry carries this id.
pub open spec fn has_id(es: Seq<EntryView>, id: Seq<char>) -> bool {
    exists|i: int| 0 <= i < es.len() && (#[trigger] es[i]).id == id
}

/// The mapping that a sequence of entries represents: each id maps to the
/// vehicle state of its last entry (ids are unique in a store, so to the
/// vehicle state of its only entry).
pub open spec fn entries_to_map(es: Seq<EntryView>) -> Map<Seq<char>, VehicleView>
    decreases es.len(),
{
    if es.len() == 0 {
        Map::empty()
    } else {
        entries_to_map(es.drop_last()).insert(es.last().id, es.last().vehicle)
    }
}

/// The represented map contains exactly the ids the entries carry.
pub proof fn lemma_entries_to_map_dom(es: Seq<EntryView>)
    ensures
        forall|id: Seq<char>| #[trigger] entries_to_map(es).contains_key(id) <==> has_id(es, id),
    decreases es.len(),
{
    if es.len() > 0 {
        lemma_entries_to_map_dom(es.drop_last());
        assert forall|id: Seq<char>|
            #[trigger] entries_to_map(es).contains_key(id) <==> has_id(es, id) by {
            if entries_to_map(es).contains_key(id) {
                if id == es.last().id {
                    assert(es[es.len() - 1].id == id);
                    assert(has_id(es, id));
                } else {
                    assert(entries_to_map(es.drop_last()).contains_key(id));
                    assert(has_id(es.drop_last(), id));
                    let i = choose|i: int|
                        0 <= i < es.drop_last().len() && (#[trigger] es.drop_last()[i]).id == id;
                    assert(es.drop_last()[i] == es[i]);
                    assert(es[i].id == id);
                    assert(has_id(es, id));
                }
            }
            if has_id(es, id) {
                let i = choose|i: int| 0 <= i < es.len() && (#[trigger] es[i]).id == id;
                if i < es.len() - 1 {
                    assert(es.drop_last()[i] == es[i]);
                    assert(has_id(es.drop_last(), id));
                    assert(entries_to_map(es.drop_last()).contains_key(id));
                } else {
                    assert(id == es.last().id);
                }
                assert(entries_to_map(es).contains_key(id));
            }
        }
    }
}

/// With unique ids, each entry's id maps to that entry's vehicle state.
pub proof fn lemma_entries_to_map_at(es: Seq<EntryView>, i: int)
    requires
        unique_ids(es),
        0 <= i < es.len(),
    ensures
        entries_to_map(es).contains_key(es[i].id),
        entries_to_map(es)[es[i].id] == es[i].vehicle,
    decreases es.len(),
{
    if i == es.len() - 1 {
        assert(es.last() == es[i]);
    } else {
        assert(unique_ids(es.drop_last()));
        lemma_entries_to_map_at(es.drop_last(), i);
        assert(es[i].id != es.last().id);
        assert(es.drop_last()[i] == es[i]);
    }
}

/// Replacing the vehicle state of the entry at `i`, keeping its id, turns
/// the represented map into an insert at that id.
pub proof fn lemma_entries_to_map_update(es: Seq<EntryView>, i: int, v: VehicleView)
    requires
        unique_ids(es),
        0 <= i < es.len(),
    ensures
        entries_to_map(es.update(i, (EntryView { id: es[i].id, vehicle: v })))
            == entries_to_map(es).insert(es[i].id, v),
    decreases es.len(),
{
    let e = EntryView { id: es[i].id, vehicle: v };
    let es2 = es.update(i, e);
    if i == es.len() - 1 {
        assert(es2.drop_last() =~= es.drop_last());
        assert(es2.last() == e);
        assert(entries_to_map(es.drop_last()).insert(es[i].id, v)
            =~= entries_to_map(es).insert(es[i].id, v));
    } else {
        assert(unique_ids(es.drop_last()));
        assert(es.drop_last()[i] == es[i]);
        lemma_entries_to_map_update(es.drop_last(), i, v);
        assert(es2.drop_last() =~= es.drop_last().update(i, e));
        assert(es2.last() == es.last());
        assert(es[i].id != es.last().id);
        assert(entries_to_map(es.drop_last()).insert(es[i].id, v).insert(
            es.last().id,
            es.last().vehicle,
        ) =~= entries_to_map(es.drop_last()).insert(es.last().id, es.last().vehicle).insert(
            es[i].id,
            v,
        ));
    }
}

/// The position a record reports.
pub open spec fn spec_pos_of(r: FeedRecordView) -> Position {
    Position { lat_udeg: r.latitude_udeg, lon_udeg: r.longitude_udeg }
}

/// How one record changes the store's mapping: the vehicle for the
/// record's id is created on first observation, its route label is set to
/// the record's label, and its history is extended by `spec_updated`.
pub open spec fn spec_merge_one(
    m: Map<Seq<char>, VehicleView>,
    r: FeedRecordView,
    max: nat,
) -> Map<Seq<char>, VehicleView> {
    let prior = if m.contains_key(r.id) {
        m[r.id].positions
    } else {
        Seq::<Position>::empty()
    };
    m.insert(
        r.id,
        (VehicleView { line: r.line_name, positions: spec_updated(prior, spec_pos_of(r), max) }),
    )
}

/// How a whole batch changes the store's mapping: records are folded in
/// feed order, so later records of a batch see the effect of earlier ones.
pub open spec fn spec_merge(
    m: Map<Seq<char>, VehicleView>,
    rs: Seq<FeedRecordView>,
    max: nat,
) -> Map<Seq<char>, VehicleView>
    decreases rs.len(),
{
    if rs.len() == 0 {
        m
    } else {
        spec_merge(spec_merge_one(m, rs[0], max), rs.drop_first(), max)
    }
}

/// Folding one more record at the end of a batch merges the batch first
/// and that record after.
pub proof fn lemma_spec_merge_snoc(
    m: Map<Seq<char>, VehicleView>,
    rs: Seq<FeedRecordView>,
    r: FeedRecordView,
    max: nat,
)
    ensures
        spec_merge(m, rs.push(r), max) == spec_merge_one(spec_merge(m, rs, max), r, max),
    decreases rs.len(),
{
    if rs.len() == 0 {
        assert(rs.push(r)[0] == r);
        assert(rs.push(r).drop_first() =~= Seq::<FeedRecordView>::empty());
        assert(spec_merge(m, rs.push(r), max)
            == spec_merge(spec_merge_one(m, r, max), Seq::<FeedRecordView>::empty(), max));
        assert(spec_merge(spec_merge_one(m, r, max), Seq::<FeedRecordView>::empty(), max)
            == spec_merge_one(m, r, max));
        assert(spec_merge(m, rs, max) == m);
    } else {
        assert(rs.push(r)[0] == rs[0]);
        assert(rs.push(r).drop_first() =~= rs.drop_first().push(r));
        assert(spec_merge(m, rs.push(r), max)
            == spec_merge(spec_merge_one(m, rs[0], max), rs.drop_first().push(r), max));
        lemma_spec_merge_snoc(spec_merge_one(m, rs[0], max), rs.drop_first(), r, max);
        assert(spec_merge(m, rs, max) == spec_merge(spec_merge_one(m, rs[0], max), rs.drop_first(), max));
    }
}

/// The store proper. Exclusively owned by the core; consumers see deep
/// snapshots only.
pub struct MpkWroclaw {
    config: Config,
    entries: Vec<VehicleEntry>,
    last_fetch_at: Option<i64>,
}

impl MpkWroclaw {
    /// The configuration the store was created with.
    pub closed spec fn spec_config(self) -> Config {
        self.config
    }

    /// When the feed last yielded data, if it ever has. The loop swallows
    /// individual fetch failures; this metric lets an operator see a feed
    /// outage that the architecture otherwise hides.
    pub closed spec fn spec_last_fetch_at(self) -> Option<i64> {
        self.last_fetch_at
    }

    /// The entries, oldest first observation first.
    pub closed spec fn entries_view(self) -> Seq<EntryView> {
        self.entries@.map_values(|e: VehicleEntry| e@)
    }

    /// The store as a mapping from vehicle id to vehicle state.
    pub open spec fn as_map(self) -> Map<Seq<char>, VehicleView> {
        entries_to_map(self.entries_view())
    }

    /// The store invariant: a usable configuration, pairwise-distinct ids,
    /// and every vehicle well formed for the configured retention bound.
    pub open spec fn wf(self) -> bool {
        &&& self.spec_config().wf()
        &&& unique_ids(self.entries_view())
        &&& forall|i: int|
            0 <= i < self.entries_view().len() ==> (#[trigger] self.entries_view()[i]).vehicle.wf(
                self.spec_config().max_history as nat,
            )
    }

    /// An empty store for the given configuration.
    pub fn new(config: Config) -> (s: MpkWroclaw)
        requires
            config.wf(),
        ensures
            s.wf(),
            s.spec_config() == config,
            s.entries_view() == Seq::<EntryView>::empty(),
            s.as_map() == Map::<Seq<char>, VehicleView>::empty(),
            s.spec_last_fetch_at() == Option::<i64>::None,
    {
        let s = MpkWroclaw { config, entries: Vec::new(), last_fetch_at: Option::None };
        proof {
            assert(s.entries_view() =~= Seq::<EntryView>::empty());
        }
        s
    }

    /// The configuration the store applies.
    pub fn config(&self) -> (c: Config)
        ensures
            c == self.spec_config(),
    {
        self.config
    }

    /// When the feed last yielded data: the observable staleness metric.
    pub fn last_successful_fetch(&self) -> (t: Option<i64>)
        ensures
            t == self.spec_last_fetch_at(),
    {
        self.last_fetch_at
    }

    /// Record that a fetch just succeeded, at the caller's clock reading.
    /// Nothing else about the store changes.
    pub fn record_fetch_time(&mut self, now: i64)
        ensures
            final(self).wf() == old(self).wf(),
            final(self).spec_config() == old(self).spec_config(),
            final(self).entries_view() == old(self).entries_view(),
            final(self).as_map() == old(self).as_map(),
            final(self).spec_last_fetch_at() == Option::Some(now),
    {
        self.last_fetch_at = Option::Some(now);
    }

    /// Index of the entry carrying `id`, if the vehicle is already known.
    fn find(&self, id: &String) -> (r: Option<usize>)
        ensures
            match r {
                Some(i) => i < self.entries_view().len() && self.entries_view()[i as int].id == id@,
                None => !has_id(self.entries_view(), id@),
            },
    {
        let n = self.entries.len();
        for k in 0..n
            invariant
                n == self.entries.len(),
                forall|j: int| 0 <= j < k ==> (#[trigger] self.entries_view()[j]).id != id@,
        {
            if (&self.entries[k].id).eq(id) {
                return Some(k);
            }
        }
        None
    }

    /// Fold one record into the store: look the vehicle up or create it,
    /// take over the record's route label, and record the position.
    fn apply_record(&mut self, rec: &MpkPosition)
        requires
            old(self).wf(),
        ensures
            final(self).wf(),
            final(self).spec_config() == old(self).spec_config(),
            final(self).spec_last_fetch_at() == old(self).spec_last_fetch_at(),
            final(self).as_map() == spec_merge_one(
                old(self).as_map(),
                rec@,
                old(self).spec_config().max_history as nat,
            ),
    {
        let max = self.config.max_history;
        let pos = Position::new(rec.latitude_udeg, rec.longitude_udeg);
        let ghost es0 = self.entries_view();
        let ghost m0 = self.as_map();
        proof {
            lemma_entries_to_map_dom(es0);
        }
        match self.find(&rec.id) {
            Some(i) => {
                let mut e = self.entries.remove(i);
                e.vehicle.set_line(rec.line_name.clone());
                e.vehicle.update(pos, max);
                let ghost ev = e@;
                self.entries.insert(i, e);
                proof {
                    assert(self.entries_view() =~= es0.update(i as int, ev));
                    lemma_entries_to_map_at(es0, i as int);
                    assert(m0.contains_key(rec.id@) && m0[rec.id@] == es0[i as int].vehicle);
                    assert(ev == (EntryView { id: es0[i as int].id, vehicle: ev.vehicle }));
                    lemma_entries_to_map_update(es0, i as int, ev.vehicle);
                    assert(self.as_map() == spec_merge_one(m0, rec@, max as nat));
                    lemma_updated_wf(es0[i as int].vehicle.positions, pos, max as nat);
                    assert forall|j: int| 0 <= j < self.entries_view().len()
                        implies (#[trigger] self.entries_view()[j]).vehicle.wf(max as nat) by {
                        if j != i {
                            assert(self.entries_view()[j] == es0[j]);
                        }
                    }
                }
            },
            None => {
                let mut v = Vehicle::new(rec.line_name.clone());
                v.update(pos, max);
                let entry = VehicleEntry { id: rec.id.clone(), vehicle: v };
                let ghost ev = entry@;
                self.entries.push(entry);
                proof {
                    assert(self.entries_view() =~= es0.push(ev));
                    assert(self.entries_view().drop_last() =~= es0);
                    assert(!m0.contains_key(rec.id@));
                    assert(spec_updated(Seq::<Position>::empty(), pos, max as nat)
                        == ev.vehicle.positions);
                    assert(self.as_map() == spec_merge_one(m0, rec@, max as nat));
                    lemma_updated_wf(Seq::<Position>::empty(), pos, max as nat);
                    assert forall|j: int| 0 <= j < self.entries_view().len()
                        implies (#[trigger] self.entries_view()[j]).vehicle.wf(max as nat) by {
                        if j < es0.len() {
                            assert(self.entries_view()[j] == es0[j]);
                        }
                    }
                    assert forall|a: int, b: int|
                        0 <= a < b < self.entries_view().len()
                        implies (#[trigger] self.entries_view()[a]).id
                            != (#[trigger] self.entries_view()[b]).id by {
                        if b == es0.len() {
                            assert(self.entries_view()[a] == es0[a]);
                            assert(has_id(es0, es0[a].id));
                        }
                    }
                }
            },
        }
    }

    /// Merge a validated batch under exclusive access: every record is
    /// folded in, in feed order, before any reader sees the store again.
    pub fn merge(&mut self, batch: &Vec<MpkPosition>)
        requires
            old(self).wf(),
        ensures
            final(self).wf(),
            final(self).spec_config() == old(self).spec_config(),
            final(self).spec_last_fetch_at() == old(self).spec_last_fetch_at(),
            final(self).as_map() == spec_merge(
                old(self).as_map(),
                batch@.map_values(|p: MpkPosition| p@),
                old(self).spec_config().max_history as nat,
            ),
    {
        let ghost m0 = self.as_map();
        let ghost cfg0 = self.spec_config();
        let ghost t0 = self.spec_last_fetch_at();
        let ghost rs = batch@.map_values(|p: MpkPosition| p@);
        let ghost max = cfg0.max_history as nat;
        let n = batch.len();
        for k in 0..n
            invariant
                n == batch.len(),
                rs == batch@.map_values(|p: MpkPosition| p@),
                self.wf(),
                self.spec_config() == cfg0,
                self.spec_last_fetch_at() == t0,
                max == cfg0.max_history as nat,
                self.as_map() == spec_merge(m0, rs.subrange(0, k as int), max),
        {
            let ghost m_before = self.as_map();
            self.apply_record(&batch[k]);
            proof {
                assert(batch@[k as int]@ == rs[k as int]);
                assert(self.as_map() == spec_merge_one(m_before, rs[k as int], max));
                lemma_spec_merge_snoc(m0, rs.subrange(0, k as int), rs[k as int], max);
                assert(rs.subrange(0, k as int).push(rs[k as int]) =~= rs.subrange(0, k + 1));
            }
        }
        proof {
            assert(rs.subrange(0, n as int) =~= rs);
        }
    }

    /// Remove every entry: the retention policy is all or nothing.
    pub fn clear(&mut self)
        ensures
            old(self).spec_config().wf() ==> final(self).wf(),
            final(self).spec_config() == old(self).spec_config(),
            final(self).spec_last_fetch_at() == old(self).spec_last_fetch_at(),
            final(self).entries_view() == Seq::<EntryView>::empty(),
            final(self).as_map() == Map::<Seq<char>, VehicleView>::empty(),
    {
        self.entries.clear();
        proof {
            assert(self.entries_view() =~= Seq::<EntryView>::empty());
        }
    }

    /// How many vehicles the store currently tracks.
    pub fn len(&self) -> (n: usize)
        ensures
            n == self.entries_view().len(),
    {
        self.entries.len()
    }

    /// A deep snapshot of the store: an independent copy of every entry,
    /// in store order. Mutating it cannot reach the live store.
    pub fn vehicles(&self) -> (r: Vec<VehicleEntry>)
        ensures
            r@.map_values(|e: VehicleEntry| e@) == self.entries_view(),
    {
        let mut out: Vec<VehicleEntry> = Vec::new();
        let n = self.entries.len();
        for k in 0..n
            invariant
                n == self.entries.len(),
                out@.map_values(|e: VehicleEntry| e@)
                    =~= self.entries_view().subrange(0, k as int),
        {
            let ent = &self.entries[k];
            let copied = VehicleEntry { id: ent.id.clone(), vehicle: ent.vehicle.duplicate() };
            let ghost out0: Seq<VehicleEntry> = out@;
            proof {
                assert(out@.map_values(|e: VehicleEntry| e@).len()
                    == self.entries_view().subrange(0, k as int).len());
                assert(out@.len() == k);
                assert(copied@ == self.entries_view()[k as int]);
            }
            out.push(copied);
            proof {
                assert(out@ == out0.push(copied));
                let mv = out@.map_values(|e: VehicleEntry| e@);
                let mv0 = out0.map_values(|e: VehicleEntry| e@);
                assert forall|i: int| 0 <= i < k + 1
                    implies #[trigger] mv[i] == self.entries_view().subrange(0, k + 1)[i] by {
                    assert(mv[i] == out@[i]@);
                    if i < k {
                        assert(out@[i] == out0[i]);
                        assert(mv0[i] == out0[i]@);
                        assert(mv0[i] == self.entries_view().subrange(0, k as int)[i]);
                    } else {
                        assert(out@[i] == copied);
                    }
                }
                assert(mv =~= self.entries_view().subrange(0, k + 1));
            }
        }
        proof {
            assert(self.entries_view().subrange(0, n as int) =~= self.entries_view());
        }
        out
    }
}

/// The "latest position per vehicle" projection of a snapshot: each entry's
/// id paired with the last element of that vehicle's history.
pub open spec fn spec_latest_projection(es: Seq<EntryView>) -> Seq<(Seq<char>, Position)> {
    es.map_values(|e: EntryView| (e.id, e.vehicle.positions.last()))
}

/// Flatten a snapshot to the latest position per vehicle, in store order.
pub fn latest_positions(snapshot: &Vec<VehicleEntry>) -> (r: Vec<(String, Position)>)
    requires
        forall|i: int|
            0 <= i < snapshot@.len() ==> (#[trigger] snapshot@[i])@.vehicle.positions.len() >= 1,
    ensures
        r@.map_values(|q: (String, Position)| (q.0@, q.1))
            == spec_latest_projection(snapshot@.map_values(|e: VehicleEntry| e@)),
{
    let ghost es: Seq<EntryView> = snapshot@.map_values(|e: VehicleEntry| e@);
    let mut r: Vec<(String, Position)> = Vec::new();
    let n = snapshot.len();
    for k in 0..n
        invariant
            n == snapshot@.len(),
            es == snapshot@.map_values(|e: VehicleEntry| e@),
            forall|i: int|
                0 <= i < snapshot@.len() ==> (#[trigger] snapshot@[i])@.vehicle.positions.len() >= 1,
            r@.map_values(|q: (String, Position)| (q.0@, q.1))
                =~= spec_latest_projection(es).subrange(0, k as int),
    {
        let ent = &snapshot[k];
        let p = ent.vehicle.position();
        let cloned_id = ent.id.clone();
        let ghost r0: Seq<(String, Position)> = r@;
        let ghost pushed: (String, Position) = (cloned_id, p);
        r.push((cloned_id, p));
        proof {
            let f = |q: (String, Position)| (q.0@, q.1);
            assert(r0.map_values(f).len() == spec_latest_projection(es).subrange(0, k as int).len());
            assert forall|i: int| 0 <= i < k + 1
                implies #[trigger] r@.map_values(f)[i]
                    == spec_latest_projection(es).subrange(0, k + 1)[i] by {
                assert(r@.map_values(f)[i] == f(r@[i]));
                assert(spec_latest_projection(es)[i] == (es[i].id, es[i].vehicle.positions.last()));
                if i < k {
                    assert(r@[i] == r0[i]);
                    assert(r0.map_values(f)[i] == f(r0[i]));
                } else {
                    assert(r@[i] == pushed);
                }
            }
            assert(r@.map_values(f) =~= spec_latest_projection(es).subrange(0, k + 1));
        }
    }
    proof {
        assert(spec_latest_projection(es).subrange(0, n as int) =~= spec_latest_projection(es));
    }
    r
}

/// Every vehicle present in a well-formed store has a non-empty history
/// that respects the retention bound and is free of consecutive duplicate
/// positions: `position()` (the latest) is always defined and equals the
/// last element of `positions()` (the full history).
pub proof fn lemma_store_vehicle_wf(s: MpkWroclaw, id: Seq<char>)
    requires
        s.wf(),
        s.as_map().contains_key(id),
    ensures
        s.as_map()[id].wf(s.spec_config().max_history as nat),
        s.as_map()[id].positions.len() >= 1,
{
    lemma_entries_to_map_dom(s.entries_view());
    let es = s.entries_view();
    let i = choose|i: int| 0 <= i < es.len() && (#[trigger] es[i]).id == id;
    lemma_entries_to_map_at(es, i);
}

/// Round trip of the latest-position projection: for every entry of a
/// well-formed store's snapshot, the projection pairs that vehicle's id
/// with exactly the latest position that the store's mapping holds for the
/// same id — reading the projection back per id loses nothing.
pub proof fn lemma_latest_projection_roundtrip(s: MpkWroclaw, i: int)
    requires
        s.wf(),
        0 <= i < s.entries_view().len(),
    ensures
        spec_latest_projection(s.entries_view())[i].0 == s.entries_view()[i].id,
        s.as_map().contains_key(s.entries_view()[i].id),
        s.as_map()[s.entries_view()[i].id].positions.len() >= 1,
        spec_latest_projection(s.entries_view())[i].1
            == s.as_map()[s.entries_view()[i].id].positions.last(),
{
    lemma_entries_to_map_at(s.entries_view(), i);
}

/// However long a batch and whatever it holds, merging never drives any
/// vehicle's history beyond the retention bound.
pub proof fn lemma_merge_bounded(
    m: Map<Seq<char>, VehicleView>,
    rs: Seq<FeedRecordView>,
    max: nat,
    id: Seq<char>,
)
    requires
        max >= 1,
        forall|id2: Seq<char>|
            #[trigger] m.contains_key(id2) ==> m[id2].positions.len() <= max,
        spec_merge(m, rs, max).contains_key(id),
    ensures
        spec_merge(m, rs, max)[id].positions.len() <= max,
    decreases rs.len(),
{
    if rs.len() > 0 {
        let m1 = spec_merge_one(m, rs[0], max);
        let prior = if m.contains_key(rs[0].id) {
            m[rs[0].id].positions
        } else {
            Seq::<Position>::empty()
        };
        lemma_history_bounded(prior, spec_pos_of(rs[0]), max);
        assert forall|id2: Seq<char>|
            #[trigger] m1.contains_key(id2) implies m1[id2].positions.len() <= max by {
            if id2 != rs[0].id {
                assert(m.contains_key(id2));
            }
        }
        lemma_merge_bounded(m1, rs.drop_first(), max, id);
    }
}

} // verus!
