//! Mathematical model of the aggregation engine.
//!
//! Every executable type of the crate has a view into the datatypes of this
//! module, and every executable operation is specified as one of the fold
//! functions below. The laws of the registry (order preservation, exact
//! counting, uniform aggregation) are proved here, once, over the model.

use vstd::prelude::*;

verus! {

/// One recorded checkpoint: a segment name and the time spent (in
/// nanoseconds) between the previous checkpoint (or the probe start) and it.
#[verifier::ext_equal]
pub struct PointModel {
    pub name: Seq<char>,
    pub duration: u128,
}

/// Running statistics of one segment name under one probe name. Its position
/// in the containing sequence is the first-seen order of the segment.
#[verifier::ext_equal]
pub struct SegmentModel {
    pub name: Seq<char>,
    pub count: u64,
    pub duration: u128,
}

/// Running statistics of one probe name: accumulated total duration,
/// invocation count, and the per-segment statistics in first-seen order.
#[verifier::ext_equal]
pub struct EntryModel {
    pub name: Seq<char>,
    pub count: u64,
    pub duration: u128,
    pub segments: Seq<SegmentModel>,
}

/// One probe invocation as recorded so far: name, the instant the probe was
/// created, the instant of the last accepted checkpoint, the total duration
/// computed at stop time, and the checkpoints in call order.
#[verifier::ext_equal]
pub struct DataModel {
    pub name: Seq<char>,
    pub begin_timestamp: u128,
    pub now: u128,
    pub duration: u128,
    pub points: Seq<PointModel>,
}

/// Addition on `u64` that stops at the largest value instead of wrapping.
pub open spec fn sat_add_u64(a: u64, b: u64) -> u64 {
    if a + b > u64::MAX {
        u64::MAX
    } else {
        (a + b) as u64
    }
}

/// Addition on `u128` that stops at the largest value instead of wrapping.
pub open spec fn sat_add_u128(a: u128, b: u128) -> u128 {
    if a + b > u128::MAX {
        u128::MAX
    } else {
        (a + b) as u128
    }
}

/// Whether some segment in `segs` carries the name `name`.
pub open spec fn has_seg(segs: Seq<SegmentModel>, name: Seq<char>) -> bool {
    exists|i: int| 0 <= i < segs.len() && (#[trigger] segs[i]).name == name
}

/// The index of the segment named `name`; meaningful only when
/// `has_seg(segs, name)` holds and the names in `segs` are distinct.
pub open spec fn seg_idx(segs: Seq<SegmentModel>, name: Seq<char>) -> int {
    choose|i: int| 0 <= i < segs.len() && (#[trigger] segs[i]).name == name
}

/// Whether some entry in `es` carries the name `name`.
pub open spec fn has_entry(es: Seq<EntryModel>, name: Seq<char>) -> bool {
    exists|i: int| 0 <= i < es.len() && (#[trigger] es[i]).name == name
}

/// The index of the entry named `name`; meaningful only when
/// `has_entry(es, name)` holds and the names in `es` are distinct.
pub open spec fn entry_idx(es: Seq<EntryModel>, name: Seq<char>) -> int {
    choose|i: int| 0 <= i < es.len() && (#[trigger] es[i]).name == name
}

/// A segment after one more observation contributing `d` nanoseconds.
pub open spec fn inc_segment(s: SegmentModel, d: u128) -> SegmentModel {
    SegmentModel {
        name: s.name,
        count: sat_add_u64(s.count, 1),
        duration: sat_add_u128(s.duration, d),
    }
}

/// Folding one checkpoint into the segment table: a known name is
/// accumulated in place, a new name is appended (assigning it the next
/// first-seen order index).
pub open spec fn fold_point(segs: Seq<SegmentModel>, p: PointModel) -> Seq<SegmentModel> {
    if has_seg(segs, p.name) {
        let i = seg_idx(segs, p.name);
        segs.update(i, inc_segment(segs[i], p.duration))
    } else {
        segs.push(SegmentModel { name: p.name, count: 1, duration: p.duration })
    }
}

/// Folding a sequence of checkpoints into the segment table, in order.
pub open spec fn fold_points(segs: Seq<SegmentModel>, pts: Seq<PointModel>) -> Seq<SegmentModel>
    decreases pts.len(),
{
    if pts.len() == 0 {
        segs
    } else {
        fold_points(fold_point(segs, pts[0]), pts.drop_first())
    }
}

/// The aggregate entry a record folds into when its name was never seen.
pub open spec fn entry_of_record(d: DataModel) -> EntryModel {
    EntryModel {
        name: d.name,
        count: 1,
        duration: d.duration,
        segments: fold_points(Seq::empty(), d.points),
    }
}

/// Folding one finished record into the registry table.
pub open spec fn fold_record(es: Seq<EntryModel>, d: DataModel) -> Seq<EntryModel> {
    if has_entry(es, d.name) {
        let i = entry_idx(es, d.name);
        es.update(
            i,
            EntryModel {
                name: es[i].name,
                count: sat_add_u64(es[i].count, 1),
                duration: sat_add_u128(es[i].duration, d.duration),
                segments: fold_points(es[i].segments, d.points),
            },
        )
    } else {
        es.push(entry_of_record(d))
    }
}

/// Folding a sequence of finished records into the registry table, in order.
pub open spec fn fold_records(es: Seq<EntryModel>, ds: Seq<DataModel>) -> Seq<EntryModel>
    decreases ds.len(),
{
    if ds.len() == 0 {
        es
    } else {
        fold_records(fold_record(es, ds[0]), ds.drop_first())
    }
}

/// What a checkpoint does to a probe record: if the clock value `t` has not
/// moved backward, a point with the elapsed time since the last checkpoint is
/// appended and the last-checkpoint instant advances to `t`; otherwise the
/// checkpoint is silently dropped.
pub open spec fn add_point_model(d: DataModel, name: Seq<char>, t: u128) -> DataModel {
    if t >= d.now {
        DataModel {
            name: d.name,
            begin_timestamp: d.begin_timestamp,
            now: t,
            duration: d.duration,
            points: d.points.push(PointModel { name, duration: (t - d.now) as u128 }),
        }
    } else {
        d
    }
}

/// What stopping at clock value `t` does to the record itself: the total
/// duration is computed from the start instant, unless the clock moved
/// backward past the start, in which case nothing changes.
pub open spec fn stopped_data(d: DataModel, t: u128) -> DataModel {
    if t >= d.begin_timestamp {
        DataModel {
            name: d.name,
            begin_timestamp: d.begin_timestamp,
            now: d.now,
            duration: (t - d.begin_timestamp) as u128,
            points: d.points,
        }
    } else {
        d
    }
}

/// What stopping at clock value `t` does to the registry: the finished
/// record is folded in, unless the clock moved backward, the total duration
/// is zero, or no checkpoint was recorded — such a record is discarded.
pub open spec fn stopped_registry(es: Seq<EntryModel>, d: DataModel, t: u128) -> Seq<EntryModel> {
    let d2 = stopped_data(d, t);
    if t >= d.begin_timestamp && d2.duration > 0 && d2.points.len() > 0 {
        fold_record(es, d2)
    } else {
        es
    }
}

/// Well-formed segment table: names are distinct (so the first-seen index of
/// a name is unique) and every segment was observed at least once.
pub open spec fn segs_wf(segs: Seq<SegmentModel>) -> bool {
    (forall|i: int, j: int|
        0 <= i < j < segs.len() ==> (#[trigger] segs[i]).name != (#[trigger] segs[j]).name)
        && (forall|i: int| 0 <= i < segs.len() ==> (#[trigger] segs[i]).count >= 1)
}

/// Well-formed aggregate entry: folded at least once, from records whose
/// total duration was positive (so a percentage against it never divides by
/// zero), with a well-formed segment table.
pub open spec fn entry_wf(e: EntryModel) -> bool {
    e.count >= 1 && e.duration >= 1 && segs_wf(e.segments)
}

/// Well-formed registry table: entry names are distinct and every entry is
/// well formed.
pub open spec fn registry_wf(es: Seq<EntryModel>) -> bool {
    (forall|i: int, j: int|
        0 <= i < j < es.len() ==> (#[trigger] es[i]).name != (#[trigger] es[j]).name)
        && (forall|i: int| 0 <= i < es.len() ==> entry_wf(#[trigger] es[i]))
}

/// The accumulated invocation count the registry holds for `name`, zero when
/// the name was never folded.
pub open spec fn entry_count_of(es: Seq<EntryModel>, name: Seq<char>) -> u64 {
    if has_entry(es, name) {
        es[entry_idx(es, name)].count
    } else {
        0
    }
}

/// The accumulated total duration the registry holds for `name`, zero when
/// the name was never folded.
pub open spec fn entry_duration_of(es: Seq<EntryModel>, name: Seq<char>) -> u128 {
    if has_entry(es, name) {
        es[entry_idx(es, name)].duration
    } else {
        0
    }
}

/// When segment names are distinct, the index chosen for the name of the
/// segment at `i` is `i` itself.
pub proof fn lemma_seg_idx_unique(segs: Seq<SegmentModel>, i: int)
    requires
        forall|a: int, b: int|
            0 <= a < b < segs.len() ==> (#[trigger] segs[a]).name != (#[trigger] segs[b]).name,
        0 <= i < segs.len(),
    ensures
        has_seg(segs, segs[i].name),
        seg_idx(segs, segs[i].name) == i,
{
    assert(has_seg(segs, segs[i].name)) by {
        assert(0 <= i < segs.len() && segs[i].name == segs[i].name);
    }
    let j = seg_idx(segs, segs[i].name);
    assert(0 <= j < segs.len() && segs[j].name == segs[i].name);
    if j < i {
        assert(segs[j].name != segs[i].name);
    } else if i < j {
        assert(segs[i].name != segs[j].name);
    }
}

/// When entry names are distinct, the index chosen for the name of the entry
/// at `i` is `i` itself.
pub proof fn lemma_entry_idx_unique(es: Seq<EntryModel>, i: int)
    requires
        forall|a: int, b: int|
            0 <= a < b < es.len() ==> (#[trigger] es[a]).name != (#[trigger] es[b]).name,
        0 <= i < es.len(),
    ensures
        has_entry(es, es[i].name),
        entry_idx(es, es[i].name) == i,
{
    assert(has_entry(es, es[i].name)) by {
        assert(0 <= i < es.len() && es[i].name == es[i].name);
    }
    let j = entry_idx(es, es[i].name);
    assert(0 <= j < es.len() && es[j].name == es[i].name);
    if j < i {
        assert(es[j].name != es[i].name);
    } else if i < j {
        assert(es[i].name != es[j].name);
    }
}

/// Folding one checkpoint keeps the segment table well formed, never moves
/// an existing segment, and leaves the checkpoint's name present.
pub proof fn lemma_fold_point_wf(segs: Seq<SegmentModel>, p: PointModel)
    requires
        segs_wf(segs),
    ensures
        segs_wf(fold_point(segs, p)),
        fold_point(segs, p).len() >= segs.len(),
        forall|i: int|
            0 <= i < segs.len() ==> (#[trigger] fold_point(segs, p)[i]).name == segs[i].name,
        has_seg(fold_point(segs, p), p.name),
{
    let r = fold_point(segs, p);
    if has_seg(segs, p.name) {
        let i = seg_idx(segs, p.name);
        assert(0 <= i < segs.len() && segs[i].name == p.name);
        assert(r == segs.update(i, inc_segment(segs[i], p.duration)));
        assert(forall|k: int| 0 <= k < segs.len() ==> (#[trigger] r[k]).name == segs[k].name);
        assert(0 <= i < r.len() && r[i].name == p.name);
    } else {
        assert(r == segs.push(SegmentModel { name: p.name, count: 1, duration: p.duration }));
        assert(forall|k: int| 0 <= k < segs.len() ==> (#[trigger] r[k]).name == segs[k].name);
        assert(r[segs.len() as int].name == p.name);
        assert forall|a: int, b: int| 0 <= a < b < r.len() implies (#[trigger] r[a]).name != (
        #[trigger] r[b]).name by {
            if b == segs.len() as int {
                assert(!(0 <= a < segs.len() && segs[a].name == p.name));
            }
        }
    }
}

/// Folding a sequence of checkpoints keeps the segment table well formed and
/// never moves an existing segment: the order in which segment names were
/// first observed is preserved by every later fold.
pub proof fn lemma_fold_points_wf(segs: Seq<SegmentModel>, pts: Seq<PointModel>)
    requires
        segs_wf(segs),
    ensures
        segs_wf(fold_points(segs, pts)),
        fold_points(segs, pts).len() >= segs.len(),
        forall|i: int|
            0 <= i < segs.len() ==> (#[trigger] fold_points(segs, pts)[i]).name == segs[i].name,
    decreases pts.len(),
{
    if pts.len() == 0 {
    } else {
        lemma_fold_point_wf(segs, pts[0]);
        lemma_fold_points_wf(fold_point(segs, pts[0]), pts.drop_first());
    }
}

/// Folding one record keeps the registry well formed, never moves an
/// existing entry, and — within every entry — never moves an existing
/// segment. This is the order-preservation law for a single fold: names
/// first observed in some order keep their positions.
pub proof fn lemma_fold_record_order(es: Seq<EntryModel>, d: DataModel)
    requires
        registry_wf(es),
        d.duration >= 1,
    ensures
        registry_wf(fold_record(es, d)),
        fold_record(es, d).len() >= es.len(),
        forall|i: int|
            0 <= i < es.len() ==> (#[trigger] fold_record(es, d)[i]).name == es[i].name,
        forall|i: int|
            0 <= i < es.len() ==> (#[trigger] fold_record(es, d)[i]).segments.len()
                >= es[i].segments.len(),
        forall|i: int, j: int|
            0 <= i < es.len() && 0 <= j < es[i].segments.len() ==> (#[trigger] fold_record(
                es,
                d,
            )[i].segments[j]).name == es[i].segments[j].name,
        has_entry(fold_record(es, d), d.name),
{
    let r = fold_record(es, d);
    if has_entry(es, d.name) {
        let i = entry_idx(es, d.name);
        assert(0 <= i < es.len() && es[i].name == d.name);
        lemma_fold_points_wf(es[i].segments, d.points);
        assert(forall|k: int| 0 <= k < es.len() ==> (#[trigger] r[k]).name == es[k].name);
        assert(0 <= i < r.len() && r[i].name == d.name);
    } else {
        lemma_fold_points_wf(Seq::empty(), d.points);
        assert(forall|k: int| 0 <= k < es.len() ==> (#[trigger] r[k]).name == es[k].name);
        assert(r[es.len() as int].name == d.name);
        assert forall|a: int, b: int| 0 <= a < b < r.len() implies (#[trigger] r[a]).name != (
        #[trigger] r[b]).name by {
            if b == es.len() as int {
                assert(!(0 <= a < es.len() && es[a].name == d.name));
            }
        }
    }
}

/// Order preservation across any number of later folds: an entry or segment
/// observed at some position stays at that position in every later state of
/// the registry, no matter how many records are folded afterwards.
pub proof fn lemma_fold_records_order(es: Seq<EntryModel>, ds: Seq<DataModel>)
    requires
        registry_wf(es),
        forall|i: int| 0 <= i < ds.len() ==> (#[trigger] ds[i]).duration >= 1,
    ensures
        registry_wf(fold_records(es, ds)),
        fold_records(es, ds).len() >= es.len(),
        forall|i: int|
            0 <= i < es.len() ==> (#[trigger] fold_records(es, ds)[i]).name == es[i].name,
        forall|i: int|
            0 <= i < es.len() ==> (#[trigger] fold_records(es, ds)[i]).segments.len()
                >= es[i].segments.len(),
        forall|i: int, j: int|
            0 <= i < es.len() && 0 <= j < es[i].segments.len() ==> (#[trigger] fold_records(
                es,
                ds,
            )[i].segments[j]).name == es[i].segments[j].name,
    decreases ds.len(),
{
    if ds.len() == 0 {
    } else {
        lemma_fold_record_order(es, ds[0]);
        lemma_fold_records_order(fold_record(es, ds[0]), ds.drop_first());
    }
}

/// Folding one record adds exactly one to the invocation count of its name
/// and exactly its total duration to the accumulated duration of its name
/// (stopping at the largest representable value).
pub proof fn lemma_fold_record_count(es: Seq<EntryModel>, d: DataModel)
    requires
        registry_wf(es),
        d.duration >= 1,
    ensures
        has_entry(fold_record(es, d), d.name),
        entry_count_of(fold_record(es, d), d.name) == sat_add_u64(entry_count_of(es, d.name), 1),
        entry_duration_of(fold_record(es, d), d.name) == sat_add_u128(
            entry_duration_of(es, d.name),
            d.duration,
        ),
        forall|n: Seq<char>|
            n != d.name ==> #[trigger] entry_count_of(fold_record(es, d), n) == entry_count_of(
                es,
                n,
            ),
        forall|n: Seq<char>|
            n != d.name ==> #[trigger] entry_duration_of(fold_record(es, d), n)
                == entry_duration_of(es, n),
{
    let r = fold_record(es, d);
    lemma_fold_record_order(es, d);
    if has_entry(es, d.name) {
        let i = entry_idx(es, d.name);
        assert(0 <= i < es.len() && es[i].name == d.name);
        assert(r[i].count == sat_add_u64(es[i].count, 1));
        assert(r[i].name == d.name);
        lemma_entry_idx_unique(r, i);
    } else {
        let i = es.len() as int;
        assert(r[i] == entry_of_record(d));
        lemma_entry_idx_unique(r, i);
        assert(entry_count_of(es, d.name) == 0);
        assert(entry_duration_of(es, d.name) == 0);
    }
    assert forall|n: Seq<char>|
        #![trigger entry_count_of(fold_record(es, d), n)]
        #![trigger entry_duration_of(fold_record(es, d), n)]
        n != d.name implies entry_count_of(r, n) == entry_count_of(es, n) && entry_duration_of(
        r,
        n,
    ) == entry_duration_of(es, n) by {
        if has_entry(es, n) {
            let j = entry_idx(es, n);
            assert(0 <= j < es.len() && es[j].name == n);
            assert(r[j].name == n);
            assert(has_entry(r, n)) by {
                assert(0 <= j < r.len() && r[j].name == n);
            }
            lemma_entry_idx_unique(r, j);
            assert(entry_idx(r, n) == j);
            assert(r[j] == es[j]);
        } else {
            if has_entry(r, n) {
                let k = entry_idx(r, n);
                assert(0 <= k < r.len() && r[k].name == n);
                if k < es.len() {
                    assert(es[k].name == n);
                    assert(has_entry(es, n));
                } else {
                    assert(r[k].name == d.name);
                }
            }
            assert(!has_entry(r, n));
        }
    }
}

/// Exact accumulation across any number of folds of one probe name: folding
/// a sequence of records all named `name` adds exactly the length of that
/// sequence to the invocation count of `name`, and never decreases its
/// accumulated duration. With folds serialized by exclusive access to the
/// registry, this is the no-lost-updates law: any interleaving of the same
/// multiset of folds yields the same final count.
pub proof fn lemma_fold_records_count(es: Seq<EntryModel>, ds: Seq<DataModel>, name: Seq<char>)
    requires
        registry_wf(es),
        forall|i: int| 0 <= i < ds.len() ==> (#[trigger] ds[i]).name == name,
        forall|i: int| 0 <= i < ds.len() ==> (#[trigger] ds[i]).duration >= 1,
        entry_count_of(es, name) + ds.len() <= u64::MAX,
    ensures
        registry_wf(fold_records(es, ds)),
        entry_count_of(fold_records(es, ds), name) == entry_count_of(es, name) + ds.len(),
        entry_duration_of(fold_records(es, ds), name) >= entry_duration_of(es, name),
        forall|n: Seq<char>|
            n != name ==> #[trigger] entry_count_of(fold_records(es, ds), n) == entry_count_of(
                es,
                n,
            ),
        forall|n: Seq<char>|
            n != name ==> #[trigger] entry_duration_of(fold_records(es, ds), n)
                == entry_duration_of(es, n),
    decreases ds.len(),
{
    if ds.len() == 0 {
    } else {
        lemma_fold_record_count(es, ds[0]);
        lemma_fold_record_order(es, ds[0]);
        lemma_fold_records_count(fold_record(es, ds[0]), ds.drop_first(), name);
    }
}

/// Folding a sequence of records plus one more equals folding the prefix,
/// then the last record.
pub proof fn lemma_fold_records_snoc(es: Seq<EntryModel>, ds: Seq<DataModel>, d: DataModel)
    ensures
        fold_records(es, ds.push(d)) == fold_record(fold_records(es, ds), d),
    decreases ds.len(),
{
    if ds.len() == 0 {
        assert(ds.push(d)[0] == d);
        assert(ds.push(d).drop_first() =~= Seq::<DataModel>::empty());
        assert(fold_records(es, ds.push(d)) == fold_records(
            fold_record(es, d),
            Seq::<DataModel>::empty(),
        ));
        assert(fold_records(fold_record(es, d), Seq::<DataModel>::empty()) == fold_record(es, d));
        assert(fold_records(es, ds) == es);
    } else {
        assert(ds.push(d)[0] == ds[0]);
        assert(ds.push(d).drop_first() =~= ds.drop_first().push(d));
        lemma_fold_records_snoc(fold_record(es, ds[0]), ds.drop_first(), d);
        assert(fold_records(es, ds.push(d)) == fold_records(
            fold_record(es, ds[0]),
            ds.drop_first().push(d),
        ));
        assert(fold_records(es, ds) == fold_records(fold_record(es, ds[0]), ds.drop_first()));
    }
}

/// Folding a sequence of checkpoints plus one more equals folding the
/// prefix, then the last checkpoint.
pub proof fn lemma_fold_points_snoc(segs: Seq<SegmentModel>, pts: Seq<PointModel>, p: PointModel)
    ensures
        fold_points(segs, pts.push(p)) == fold_point(fold_points(segs, pts), p),
    decreases pts.len(),
{
    if pts.len() == 0 {
        assert(pts.push(p)[0] == p);
        assert(pts.push(p).drop_first() =~= Seq::<PointModel>::empty());
        assert(fold_points(segs, pts.push(p)) == fold_points(
            fold_point(segs, p),
            Seq::<PointModel>::empty(),
        ));
        assert(fold_points(fold_point(segs, p), Seq::<PointModel>::empty()) == fold_point(segs, p));
        assert(fold_points(segs, pts) == segs);
    } else {
        assert(pts.push(p)[0] == pts[0]);
        assert(pts.push(p).drop_first() =~= pts.drop_first().push(p));
        lemma_fold_points_snoc(fold_point(segs, pts[0]), pts.drop_first(), p);
        assert(fold_points(segs, pts.push(p)) == fold_points(
            fold_point(segs, pts[0]),
            pts.drop_first().push(p),
        ));
        assert(fold_points(segs, pts) == fold_points(fold_point(segs, pts[0]), pts.drop_first()));
    }
}

/// Folding checkpoints whose names are distinct and all unseen appends one
/// fresh segment per checkpoint, in checkpoint order, each counted once.
pub proof fn lemma_fold_points_fresh(segs: Seq<SegmentModel>, pts: Seq<PointModel>)
    requires
        forall|i: int, j: int|
            0 <= i < j < pts.len() ==> (#[trigger] pts[i]).name != (#[trigger] pts[j]).name,
        forall|i: int| 0 <= i < pts.len() ==> !has_seg(segs, (#[trigger] pts[i]).name),
    ensures
        fold_points(segs, pts).len() == segs.len() + pts.len(),
        forall|k: int| 0 <= k < segs.len() ==> #[trigger] fold_points(segs, pts)[k] == segs[k],
        forall|j: int|
            0 <= j < pts.len() ==> #[trigger] fold_points(segs, pts)[segs.len() + j]
                == (SegmentModel { name: pts[j].name, count: 1, duration: pts[j].duration }),
    decreases pts.len(),
{
    if pts.len() == 0 {
    } else {
        assert(!has_seg(segs, pts[0].name));
        let segs2 = fold_point(segs, pts[0]);
        assert(segs2 == segs.push(
            SegmentModel { name: pts[0].name, count: 1, duration: pts[0].duration },
        ));
        let rest = pts.drop_first();
        assert forall|i: int| 0 <= i < rest.len() implies !has_seg(segs2, (
        #[trigger] rest[i]).name) by {
            assert(rest[i] == pts[i + 1]);
            assert(!has_seg(segs, pts[i + 1].name));
            if has_seg(segs2, rest[i].name) {
                let k = seg_idx(segs2, rest[i].name);
                assert(0 <= k < segs2.len() && segs2[k].name == rest[i].name);
                if k < segs.len() {
                    assert(segs[k].name == rest[i].name);
                } else {
                    assert(segs2[k].name == pts[0].name);
                    assert(pts[0].name != pts[i + 1].name);
                }
            }
        }
        assert forall|i: int, j: int| 0 <= i < j < rest.len() implies (#[trigger] rest[i]).name
            != (#[trigger] rest[j]).name by {
            assert(rest[i] == pts[i + 1]);
            assert(rest[j] == pts[j + 1]);
        }
        lemma_fold_points_fresh(segs2, rest);
        assert(fold_points(segs, pts) == fold_points(segs2, rest));
        assert forall|j: int| 0 <= j < pts.len() implies #[trigger] fold_points(segs, pts)[segs.len()
            + j] == (SegmentModel {
            name: pts[j].name,
            count: 1,
            duration: pts[j].duration,
        }) by {
            if j == 0 {
                assert(fold_points(segs2, rest)[segs.len() as int] == segs2[segs.len() as int]);
            } else {
                assert(fold_points(segs2, rest)[segs2.len() + (j - 1)] == (SegmentModel {
                    name: rest[j - 1].name,
                    count: 1,
                    duration: rest[j - 1].duration,
                }));
                assert(rest[j - 1] == pts[j]);
            }
        }
    }
}

/// Folding checkpoints that align one to one with the existing segments (the
/// names are distinct and stand in the same order) accumulates each segment
/// in place: the suffix of `pts` starting at `k` updates exactly the
/// segments from position `k` on.
proof fn lemma_fold_points_aligned_from(segs: Seq<SegmentModel>, pts: Seq<PointModel>, k: int)
    requires
        segs.len() == pts.len(),
        0 <= k <= pts.len(),
        forall|i: int, j: int|
            0 <= i < j < pts.len() ==> (#[trigger] pts[i]).name != (#[trigger] pts[j]).name,
        forall|i: int| 0 <= i < pts.len() ==> (#[trigger] segs[i]).name == pts[i].name,
    ensures
        fold_points(segs, pts.skip(k)).len() == segs.len(),
        forall|j: int| 0 <= j < k ==> #[trigger] fold_points(segs, pts.skip(k))[j] == segs[j],
        forall|j: int|
            k <= j < segs.len() ==> #[trigger] fold_points(segs, pts.skip(k))[j] == inc_segment(
                segs[j],
                pts[j].duration,
            ),
    decreases pts.len() - k,
{
    if k == pts.len() {
        assert(pts.skip(k).len() == 0);
    } else {
        let s = pts.skip(k);
        assert(s[0] == pts[k]);
        assert(segs[k].name == pts[k].name);
        assert forall|a: int, b: int| 0 <= a < b < segs.len() implies (#[trigger] segs[a]).name
            != (#[trigger] segs[b]).name by {
            assert(segs[a].name == pts[a].name);
            assert(segs[b].name == pts[b].name);
        }
        lemma_seg_idx_unique(segs, k);
        let segs2 = fold_point(segs, pts[k]);
        assert(segs2 == segs.update(k, inc_segment(segs[k], pts[k].duration)));
        assert forall|i: int| 0 <= i < pts.len() implies (#[trigger] segs2[i]).name
            == pts[i].name by {
            if i != k {
                assert(segs2[i] == segs[i]);
            }
        }
        lemma_fold_points_aligned_from(segs2, pts, k + 1);
        assert(pts.skip(k).drop_first() =~= pts.skip(k + 1));
        assert(fold_points(segs, pts.skip(k)) == fold_points(segs2, pts.skip(k + 1)));
        assert forall|j: int| k <= j < segs.len() implies #[trigger] fold_points(
            segs,
            pts.skip(k),
        )[j] == inc_segment(segs[j], pts[j].duration) by {
            if j == k {
                assert(fold_points(segs2, pts.skip(k + 1))[k] == segs2[k]);
            } else {
                assert(fold_points(segs2, pts.skip(k + 1))[j] == inc_segment(
                    segs2[j],
                    pts[j].duration,
                ));
                assert(segs2[j] == segs[j]);
            }
        }
    }
}

/// Folding checkpoints that align one to one with the existing segments
/// accumulates each segment in place: same names in the same order, each
/// count one higher, each duration grown by its checkpoint's elapsed time.
pub proof fn lemma_fold_points_aligned(segs: Seq<SegmentModel>, pts: Seq<PointModel>)
    requires
        segs.len() == pts.len(),
        forall|i: int, j: int|
            0 <= i < j < pts.len() ==> (#[trigger] pts[i]).name != (#[trigger] pts[j]).name,
        forall|i: int| 0 <= i < pts.len() ==> (#[trigger] segs[i]).name == pts[i].name,
    ensures
        fold_points(segs, pts).len() == segs.len(),
        forall|j: int|
            0 <= j < segs.len() ==> #[trigger] fold_points(segs, pts)[j] == inc_segment(
                segs[j],
                pts[j].duration,
            ),
{
    lemma_fold_points_aligned_from(segs, pts, 0);
    assert(pts.skip(0) =~= pts);
}

/// What one aggregate entry holds after `n` invocations of the same record.
pub open spec fn uniform_aggregate(d: DataModel, n: nat, e: EntryModel) -> bool {
    e.name == d.name && e.count == n && e.duration == n * d.duration && e.segments.len()
        == d.points.len() && (forall|j: int|
        0 <= j < d.points.len() ==> (#[trigger] e.segments[j]).name == d.points[j].name) && (
    forall|j: int| 0 <= j < d.points.len() ==> (#[trigger] e.segments[j]).count == n) && (forall|
        j: int,
    | 0 <= j < d.points.len() ==> (#[trigger] e.segments[j]).duration == n * d.points[j].duration)
}

/// Aggregation correctness: folding `n` invocations of one record, with
/// distinct checkpoint names, into an empty registry yields exactly one
/// entry, invoked `n` times with `n` times the record's total duration, and
/// one segment per checkpoint, in checkpoint order, each counted `n` times
/// with `n` times its checkpoint's elapsed time.
pub proof fn lemma_uniform_aggregation(d: DataModel, n: nat)
    requires
        1 <= n <= u64::MAX,
        forall|i: int, j: int|
            0 <= i < j < d.points.len() ==> (#[trigger] d.points[i]).name != (
            #[trigger] d.points[j]).name,
        n * d.duration <= u128::MAX,
        forall|j: int|
            0 <= j < d.points.len() ==> n * (#[trigger] d.points[j]).duration <= u128::MAX,
    ensures
        fold_records(Seq::empty(), Seq::new(n, |i: int| d)).len() == 1,
        uniform_aggregate(d, n, fold_records(Seq::empty(), Seq::new(n, |i: int| d))[0]),
    decreases n,
{
    let e0 = Seq::<EntryModel>::empty();
    if n == 1 {
        let rs = Seq::new(n, |i: int| d);
        assert(rs[0] == d);
        assert(rs.drop_first() =~= Seq::<DataModel>::empty());
        assert(fold_records(e0, rs) == fold_records(fold_record(e0, d), Seq::<DataModel>::empty()));
        assert(fold_records(fold_record(e0, d), Seq::<DataModel>::empty()) == fold_record(e0, d));
        assert(!has_entry(e0, d.name));
        assert(fold_record(e0, d) == e0.push(entry_of_record(d)));
        lemma_fold_points_fresh(Seq::empty(), d.points);
        let ent = entry_of_record(d);
        assert(fold_record(e0, d)[0] == ent);
        let segs1 = fold_points(Seq::<SegmentModel>::empty(), d.points);
        assert(segs1.len() == d.points.len());
        assert forall|j: int| 0 <= j < d.points.len() implies #[trigger] ent.segments[j]
            == (SegmentModel {
            name: d.points[j].name,
            count: 1,
            duration: d.points[j].duration,
        }) by {
            assert(segs1[Seq::<SegmentModel>::empty().len() + j] == (SegmentModel {
                name: d.points[j].name,
                count: 1,
                duration: d.points[j].duration,
            }));
        }
        assert(n * d.duration == d.duration) by (nonlinear_arith)
            requires
                n == 1,
        ;
        assert forall|j: int| 0 <= j < d.points.len() implies n * (
        #[trigger] d.points[j]).duration == d.points[j].duration by {
            assert(n * d.points[j].duration == d.points[j].duration) by (nonlinear_arith)
                requires
                    n == 1,
            ;
        }
    } else {
        let m = (n - 1) as nat;
        assert(m * d.duration <= n * d.duration && n * d.duration >= 0) by (nonlinear_arith)
            requires
                m == n - 1 && n >= 1,
        ;
        assert forall|j: int| 0 <= j < d.points.len() implies m * (
        #[trigger] d.points[j]).duration <= u128::MAX by {
            assert(m * d.points[j].duration <= n * d.points[j].duration) by (nonlinear_arith)
                requires
                    m == n - 1 && n >= 1,
            ;
        }
        lemma_uniform_aggregation(d, m);
        let prev = fold_records(e0, Seq::new(m, |i: int| d));
        assert(Seq::new(n, |i: int| d) =~= Seq::new(m, |i: int| d).push(d));
        lemma_fold_records_snoc(e0, Seq::new(m, |i: int| d), d);
        let es = fold_record(prev, d);
        assert(prev[0].name == d.name);
        assert(has_entry(prev, d.name)) by {
            assert(0 <= 0 < prev.len() && prev[0].name == d.name);
        }
        lemma_entry_idx_unique(prev, 0);
        assert(entry_idx(prev, d.name) == 0);
        assert(m * d.duration + d.duration == n * d.duration) by (nonlinear_arith)
            requires
                m == n - 1,
        ;
        assert(sat_add_u64(prev[0].count, 1) == n);
        assert(sat_add_u128(prev[0].duration, d.duration) == n * d.duration);
        lemma_fold_points_aligned(prev[0].segments, d.points);
        assert forall|j: int| 0 <= j < d.points.len() implies (#[trigger] es[0].segments[j]).count
            == n && es[0].segments[j].duration == n * d.points[j].duration && es[0].segments[j].name
            == d.points[j].name by {
            assert(es[0].segments[j] == inc_segment(prev[0].segments[j], d.points[j].duration));
            assert(m * d.points[j].duration + d.points[j].duration == n * d.points[j].duration)
                by (nonlinear_arith)
                requires
                    m == n - 1,
            ;
        }
        assert(es == fold_records(e0, Seq::new(n, |i: int| d)));
        assert(es.len() == 1);
        assert(es[0].count == n);
        assert(es[0].duration == n * d.duration);
        assert(es[0].segments.len() == d.points.len());
        assert(uniform_aggregate(d, n, es[0]));
    }
}

} // verus!
