//! The probe record and the aggregation table: finished records are folded
//! into running per-name statistics, which a snapshot turns into the report
//! model.

use crate::model::{
    add_point_model, entry_idx, entry_of_record, entry_wf, fold_point, fold_points, fold_record,
    has_entry, has_seg, inc_segment, lemma_entry_idx_unique, lemma_fold_point_wf,
    lemma_fold_points_snoc, lemma_fold_record_order, lemma_seg_idx_unique, registry_wf,
    sat_add_u128, sat_add_u64, seg_idx, segs_wf, stopped_data, stopped_registry, DataModel,
    EntryModel, PointModel, SegmentModel,
};
use crate::output::{report_matches, ExecDuration};
use crate::DurationUnit;
use vstd::prelude::*;

verus! {

/// Relies on std::time::SystemTime::now, read as whole nanoseconds since
/// std::time::UNIX_EPOCH. The system clock may be adjusted between reads, so
/// nothing is promised of the value; callers state what holds of every
/// outcome.
#[verifier::external_body]
fn now_nanos() -> DurationUnit {
    match std::time::SystemTime::now().duration_since(std::time::UNIX_EPOCH) {
        Ok(d) => d.as_nanos(),
        Err(_) => 0,
    }
}

/// One recorded checkpoint: the segment name and the elapsed time, in
/// nanoseconds, between the previous checkpoint (or the probe start) and it.
#[derive(Clone, Eq, PartialEq, Ord, PartialOrd, Hash, Debug, Default)]
pub struct Point {
    pub name: String,
    pub duration: DurationUnit,
}

impl View for Point {
    type V = PointModel;

    open spec fn view(&self) -> PointModel {
        PointModel { name: self.name@, duration: self.duration }
    }
}

/// One probe invocation as recorded so far: the block name, the instant the
/// probe was created, the instant of the last accepted checkpoint, the total
/// duration computed at stop time, and the checkpoints in call order. All
/// instants are nanoseconds since the epoch.
#[derive(Clone, Eq, PartialEq, Ord, PartialOrd, Hash, Debug)]
pub struct ExecData {
    pub name: String,
    pub begin_timestamp: DurationUnit,
    pub now: DurationUnit,
    pub duration: DurationUnit,
    pub points: Vec<Point>,
}

impl View for ExecData {
    type V = DataModel;

    open spec fn view(&self) -> DataModel {
        DataModel {
            name: self.name@,
            begin_timestamp: self.begin_timestamp,
            now: self.now,
            duration: self.duration,
            points: self.points@.map_values(|p: Point| p@),
        }
    }
}

impl ExecData {
    /// Start recording a named block: the current instant becomes both the
    /// start and the last-checkpoint instant, with no checkpoints yet.
    pub fn new(name: &str) -> (r: ExecData)
        ensures
            r@.name == name@,
            r@.points.len() == 0,
            r@.duration == 0,
            r@.begin_timestamp == r@.now,
    {
        let now: DurationUnit = now_nanos();
        let r = ExecData {
            name: name.to_owned(),
            points: Vec::new(),
            begin_timestamp: now,
            now,
            duration: 0,
        };
        proof {
            assert(r@.points =~= Seq::<PointModel>::empty());
        }
        r
    }

    /// Record a checkpoint named `name` against the clock value `t`: when
    /// the clock has not moved backward since the last accepted checkpoint,
    /// a point carrying the elapsed time is appended and the last-checkpoint
    /// instant advances to `t`; otherwise the checkpoint is silently
    /// dropped.
    pub fn add_point_at(&mut self, name: &str, t: DurationUnit)
        ensures
            final(self)@ == add_point_model(old(self)@, name@, t),
    {
        if t >= self.now {
            let d: DurationUnit = t - self.now;
            self.points.push(Point { name: name.to_owned(), duration: d });
            self.now = t;
            proof {
                assert(self@.points =~= add_point_model(old(self)@, name@, t).points);
                assert(self@ =~~= add_point_model(old(self)@, name@, t));
            }
        }
    }

    /// Record a checkpoint named `name` at the current instant. A clock that
    /// moved backward since the last checkpoint drops the checkpoint
    /// silently rather than recording a negative elapsed time.
    pub fn add_point(&mut self, name: &str)
        ensures
            exists|t: DurationUnit| final(self)@ == add_point_model(old(self)@, name@, t),
    {
        let t: DurationUnit = now_nanos();
        self.add_point_at(name, t);
        proof {
            assert(self@ == add_point_model(old(self)@, name@, t));
        }
    }

    /// Finish the record against the clock value `t` and fold it into
    /// `registry`. The total duration is measured from the start instant; a
    /// record whose clock moved backward past its start, whose total
    /// duration is zero, or which holds no checkpoint is discarded: the
    /// registry is left unchanged.
    pub fn stop_at(&mut self, registry: &mut ExecProbeManager, t: DurationUnit)
        requires
            old(registry).wf(),
        ensures
            final(registry).wf(),
            final(self)@ == stopped_data(old(self)@, t),
            final(registry)@ == stopped_registry(old(registry)@, old(self)@, t),
            old(self)@.points.len() == 0 ==> final(registry)@ == old(registry)@,
    {
        if t >= self.begin_timestamp {
            self.duration = t - self.begin_timestamp;
            proof {
                assert(self@ =~~= stopped_data(old(self)@, t));
            }
            if self.duration > 0 && self.points.len() > 0 {
                registry.report(self);
            }
        }
    }

    /// Finish the record at the current instant and fold it into `registry`,
    /// discarding it when the clock moved backward past the start, the total
    /// duration is zero, or no checkpoint was recorded.
    pub fn stop(&mut self, registry: &mut ExecProbeManager)
        requires
            old(registry).wf(),
        ensures
            final(registry).wf(),
            exists|t: DurationUnit|
                #![trigger stopped_registry(old(registry)@, old(self)@, t)]
                final(self)@ == stopped_data(old(self)@, t) && final(registry)@
                    == stopped_registry(old(registry)@, old(self)@, t),
            old(self)@.points.len() == 0 ==> final(registry)@ == old(registry)@,
    {
        let t: DurationUnit = now_nanos();
        self.stop_at(registry, t);
        proof {
            assert(registry@ == stopped_registry(old(registry)@, old(self)@, t));
        }
    }
}

/// Running statistics of one segment name under one probe name: how often
/// the segment was observed and its accumulated elapsed time. Its position
/// in the entry's segment table is the first-seen order of its name.
#[derive(Clone, Eq, PartialEq, Hash, Debug)]
pub struct SegmentStat {
    pub name: String,
    pub count: u64,
    pub duration: DurationUnit,
}

impl View for SegmentStat {
    type V = SegmentModel;

    open spec fn view(&self) -> SegmentModel {
        SegmentModel { name: self.name@, count: self.count, duration: self.duration }
    }
}

/// Running statistics of one probe name: accumulated total duration,
/// invocation count, and per-segment statistics in first-seen order.
#[derive(Clone, Eq, PartialEq, Debug)]
pub struct AggregateEntry {
    pub name: String,
    pub count: u64,
    pub duration: DurationUnit,
    pub segments: Vec<SegmentStat>,
}

impl View for AggregateEntry {
    type V = EntryModel;

    open spec fn view(&self) -> EntryModel {
        EntryModel {
            name: self.name@,
            count: self.count,
            duration: self.duration,
            segments: self.segments@.map_values(|s: SegmentStat| s@),
        }
    }
}

/// The aggregation table: one entry per probe name, in first-seen order.
#[derive(Clone, Eq, PartialEq, Debug)]
pub struct ExecProbeManager {
    pub entries: Vec<AggregateEntry>,
}

impl View for ExecProbeManager {
    type V = Seq<EntryModel>;

    open spec fn view(&self) -> Seq<EntryModel> {
        self.entries@.map_values(|e: AggregateEntry| e@)
    }
}

/// The index of the entry carrying `name`, if any.
fn find_entry(entries: &Vec<AggregateEntry>, name: &String) -> (r: Option<usize>)
    ensures
        match r {
            Some(i) => i < entries@.len() && entries@[i as int]@.name == name@,
            None => forall|i: int|
                0 <= i < entries@.len() ==> (#[trigger] entries@[i]@).name != name@,
        },
{
    let mut i: usize = 0;
    while i < entries.len()
        invariant
            i <= entries@.len(),
            forall|j: int| 0 <= j < i ==> (#[trigger] entries@[j]@).name != name@,
        decreases entries@.len() - i,
    {
        if entries[i].name == *name {
            return Some(i);
        }
        i += 1;
    }
    None
}

/// The index of the segment carrying `name`, if any.
fn find_seg(segs: &Vec<SegmentStat>, name: &String) -> (r: Option<usize>)
    ensures
        match r {
            Some(i) => i < segs@.len() && segs@[i as int]@.name == name@,
            None => forall|i: int| 0 <= i < segs@.len() ==> (#[trigger] segs@[i]@).name != name@,
        },
{
    let mut i: usize = 0;
    while i < segs.len()
        invariant
            i <= segs@.len(),
            forall|j: int| 0 <= j < i ==> (#[trigger] segs@[j]@).name != name@,
        decreases segs@.len() - i,
    {
        if segs[i].name == *name {
            return Some(i);
        }
        i += 1;
    }
    None
}

impl ExecProbeManager {
    /// The registry invariant: entry names are distinct, segment names
    /// within an entry are distinct, and every count is at least one.
    pub open spec fn wf(self) -> bool {
        registry_wf(self@)
    }

    /// Create an empty aggregation table.
    pub fn new() -> (r: ExecProbeManager)
        ensures
            r@ == Seq::<EntryModel>::empty(),
            r.wf(),
    {
        let r = ExecProbeManager { entries: Vec::new() };
        proof {
            assert(r@ =~= Seq::<EntryModel>::empty());
        }
        r
    }

    /// Fold one finished record into the table: the record's name gains one
    /// invocation and the record's total duration, and each checkpoint, in
    /// call order, accumulates into the segment of its name — a new segment
    /// name is appended, so first-seen order is preserved.
    pub fn report(&mut self, v: &ExecData)
        requires
            old(self).wf(),
            v@.duration >= 1,
        ensures
            final(self).wf(),
            final(self)@ == fold_record(old(self)@, v@),
    {
        let ghost es0: Seq<EntryModel> = old(self)@;
        let found = find_entry(&self.entries, &v.name);
        let (i, mut e): (usize, AggregateEntry) = match found {
            Some(j) => (j, self.entries.remove(j)),
            None => (
                self.entries.len(),
                AggregateEntry { name: v.name.clone(), count: 0, duration: 0, segments: Vec::new() },
            ),
        };
        proof {
            if found is Some {
                let j = found->0 as int;
                assert(es0[j] == old(self).entries@[j]@);
                assert(has_entry(es0, v@.name)) by {
                    assert(0 <= j < es0.len() && es0[j].name == v@.name);
                }
                lemma_entry_idx_unique(es0, j);
            } else {
                assert(!has_entry(es0, v@.name)) by {
                    if has_entry(es0, v@.name) {
                        let k = entry_idx(es0, v@.name);
                        assert(old(self).entries@[k]@.name != v@.name);
                    }
                }
            }
        }
        let ghost gname: Seq<char> = e@.name;
        let ghost gcount: u64 = sat_add_u64(e@.count, 1);
        let ghost gdur: u128 = sat_add_u128(e@.duration, v@.duration);
        let ghost segs0: Seq<SegmentModel> = e@.segments;
        e.count = e.count.saturating_add(1);
        e.duration = e.duration.saturating_add(v.duration);
        let mut k: usize = 0;
        proof {
            assert(v@.points.take(0) =~= Seq::<PointModel>::empty());
            if found is Some {
                assert(entry_wf(es0[found->0 as int]));
            }
        }
        while k < v.points.len()
            invariant
                k <= v.points@.len(),
                v@.points.len() == v.points@.len(),
                e@.name == gname,
                e@.count == gcount,
                e@.duration == gdur,
                e@.segments == fold_points(segs0, v@.points.take(k as int)),
                segs_wf(segs0),
                segs_wf(e@.segments),
            decreases v.points@.len() - k,
        {
            let ghost prev: Seq<SegmentModel> = e@.segments;
            let ghost pm: PointModel = v@.points[k as int];
            let p = &v.points[k];
            proof {
                assert(pm == v.points@[k as int]@);
            }
            match find_seg(&e.segments, &p.name) {
                Some(si) => {
                    proof {
                        assert(prev[si as int] == e.segments@[si as int]@);
                        assert(has_seg(prev, pm.name)) by {
                            assert(0 <= si < prev.len() && prev[si as int].name == pm.name);
                        }
                        lemma_seg_idx_unique(prev, si as int);
                    }
                    let mut s = e.segments.remove(si);
                    s.count = s.count.saturating_add(1);
                    s.duration = s.duration.saturating_add(p.duration);
                    e.segments.insert(si, s);
                    proof {
                        assert(s@ == inc_segment(prev[si as int], pm.duration));
                        assert(e@.segments =~= prev.update(si as int, s@));
                        assert(e@.segments == fold_point(prev, pm));
                    }
                },
                None => {
                    proof {
                        assert(!has_seg(prev, pm.name)) by {
                            if has_seg(prev, pm.name) {
                                let q = seg_idx(prev, pm.name);
                                assert(e.segments@[q]@.name != pm.name);
                            }
                        }
                    }
                    e.segments.push(
                        SegmentStat { name: p.name.clone(), count: 1, duration: p.duration },
                    );
                    proof {
                        assert(e@.segments =~= prev.push(
                            SegmentModel { name: pm.name, count: 1, duration: pm.duration },
                        ));
                        assert(e@.segments == fold_point(prev, pm));
                    }
                },
            }
            proof {
                lemma_fold_point_wf(prev, pm);
                assert(v@.points.take(k + 1) =~= v@.points.take(k as int).push(pm));
                lemma_fold_points_snoc(segs0, v@.points.take(k as int), pm);
            }
            k += 1;
        }
        proof {
            assert(v@.points.take(v.points@.len() as int) =~= v@.points);
            assert(e@ =~~= EntryModel {
                name: gname,
                count: gcount,
                duration: gdur,
                segments: fold_points(segs0, v@.points),
            });
        }
        let ghost em: EntryModel = e@;
        self.entries.insert(i, e);
        proof {
            lemma_fold_record_order(es0, v@);
            if found is Some {
                let j = found->0 as int;
                assert(self.entries@ =~= old(self).entries@.update(j, e));
                assert(self@ =~= es0.update(j, em));
                assert(fold_record(es0, v@) == es0.update(
                    j,
                    EntryModel {
                        name: es0[j].name,
                        count: sat_add_u64(es0[j].count, 1),
                        duration: sat_add_u128(es0[j].duration, v@.duration),
                        segments: fold_points(es0[j].segments, v@.points),
                    },
                ));
                assert(em =~~= EntryModel {
                    name: es0[j].name,
                    count: sat_add_u64(es0[j].count, 1),
                    duration: sat_add_u128(es0[j].duration, v@.duration),
                    segments: fold_points(es0[j].segments, v@.points),
                });
                assert(self@ =~~= fold_record(es0, v@));
            } else {
                assert(self.entries@ =~= old(self).entries@.push(e));
                assert(self@ =~= es0.push(em));
                assert(segs0 =~= Seq::<SegmentModel>::empty());
                assert(gname == v@.name);
                assert(gcount == 1);
                assert(gdur == v@.duration);
                assert(em =~~= entry_of_record(v@));
                assert(self@ =~~= fold_record(es0, v@));
            }
        }
    }

    /// Materialize the current aggregate state as the report model: one root
    /// per probe name, in first-seen order, reporting against its own total
    /// (so a root's share is always 100%), with one child per segment, in
    /// first-seen order, reporting against the root's total.
    pub fn fetch_results(&self) -> (r: Vec<ExecDuration>)
        ensures
            r@.len() == self@.len(),
            forall|i: int| 0 <= i < self@.len() ==> report_matches(self@[i], #[trigger] r@[i]),
    {
        let mut res: Vec<ExecDuration> = Vec::new();
        let mut i: usize = 0;
        while i < self.entries.len()
            invariant
                i <= self.entries@.len(),
                self@.len() == self.entries@.len(),
                res@.len() == i,
                forall|k: int| 0 <= k < i ==> report_matches(self@[k], #[trigger] res@[k]),
            decreases self.entries@.len() - i,
        {
            let ent = &self.entries[i];
            proof {
                assert(self@[i as int] == ent@);
            }
            let mut elt = ExecDuration::new(ent.name.as_str(), ent.count, ent.duration, ent.duration);
            let mut j: usize = 0;
            while j < ent.segments.len()
                invariant
                    j <= ent.segments@.len(),
                    elt.name@ == ent@.name,
                    elt.count == ent@.count,
                    elt.duration == ent@.duration,
                    elt.total == ent@.duration,
                    elt.childs@.len() == j,
                    forall|q: int|
                        0 <= q < j ==> {
                            &&& (#[trigger] elt.childs@[q]).name@ == ent@.segments[q].name
                            &&& elt.childs@[q].count == ent@.segments[q].count
                            &&& elt.childs@[q].duration == ent@.segments[q].duration
                            &&& elt.childs@[q].total == ent@.duration
                            &&& elt.childs@[q].childs@.len() == 0
                        },
                decreases ent.segments@.len() - j,
            {
                let s = &ent.segments[j];
                proof {
                    assert(ent@.segments[j as int] == s@);
                }
                elt.add(ExecDuration::new(s.name.as_str(), s.count, s.duration, ent.duration));
                j += 1;
            }
            res.push(elt);
            i += 1;
        }
        res
    }
}

} // verus!
