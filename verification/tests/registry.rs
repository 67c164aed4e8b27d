use exec_duration::manager::{ExecData, ExecProbeManager, Point};

const MS: u128 = 1_000_000;

fn record(name: &str, pts: &[(&str, u128)], duration: u128) -> ExecData {
    let mut points: Vec<Point> = Vec::new();
    for (n, d) in pts.iter() {
        points.push(Point { name: (*n).to_string(), duration: *d });
    }
    ExecData { name: name.to_string(), begin_timestamp: 0, now: 0, duration, points }
}

#[test]
fn hello() {
    let nb: u64 = 10;
    let sleep_1: u128 = 100;
    let sleep_2: u128 = 50;
    let mut mgr = ExecProbeManager::new();
    let mut i: u64 = 0;
    while i < nb {
        let mut o = ExecData::new("main");
        // pin the clock so that each run takes exactly sleep_1 + sleep_2 ms
        o.begin_timestamp = 0;
        o.now = 0;
        o.add_point_at("func_1", sleep_1 * MS);
        o.add_point_at("func_2", (sleep_1 + sleep_2) * MS);
        o.stop_at(&mut mgr, (sleep_1 + sleep_2) * MS);
        i += 1;
    }

    let list = mgr.fetch_results();
    assert_eq!(list.len(), 1);
    let r = list.get(0).unwrap();
    assert_eq!(r.get_name(), "main");
    assert_eq!(r.get_exec_count(), nb);
    assert!(r.get_avg_duration() / MS <= sleep_1 + sleep_2 + 1);
    assert!(r.get_total_duration() / MS <= (sleep_1 + sleep_2 + 1) * nb as u128);
    assert!(r.get_avg_duration() / MS >= sleep_1 + sleep_2);
    assert!(r.get_total_duration() / MS >= (sleep_1 + sleep_2) * nb as u128);
    assert_eq!(r.get_elements().len(), 2);
    let v = r.get_elements().get(0).unwrap();
    assert_eq!(v.get_name(), "func_1");
    assert_eq!(v.get_exec_count(), nb);
    assert!(v.get_avg_duration() / MS <= sleep_1 + 1);
    assert!(v.get_total_duration() / MS <= (sleep_1 + 1) * nb as u128);
    assert!(v.get_avg_duration() / MS >= sleep_1);
    assert!(v.get_total_duration() / MS >= sleep_1 * nb as u128);
    assert_eq!(v.get_elements().len(), 0);
    let v = r.get_elements().get(1).unwrap();
    assert_eq!(v.get_name(), "func_2");
    assert_eq!(v.get_exec_count(), nb);
    assert!(v.get_avg_duration() / MS <= sleep_2 + 1);
    assert!(v.get_total_duration() / MS <= (sleep_2 + 1) * nb as u128);
    assert!(v.get_avg_duration() / MS >= sleep_2);
    assert!(v.get_total_duration() / MS >= sleep_2 * nb as u128);
    assert_eq!(v.get_elements().len(), 0);
}

#[test]
fn aggregation_exact_totals() {
    let mut mgr = ExecProbeManager::new();
    let n: u64 = 3;
    let mut i: u64 = 0;
    while i < n {
        let d = record("p", &[("a", 5), ("b", 7)], 12);
        mgr.report(&d);
        i += 1;
    }
    let list = mgr.fetch_results();
    assert_eq!(list.len(), 1);
    let r = list.get(0).unwrap();
    assert_eq!(r.get_name(), "p");
    assert_eq!(r.get_exec_count(), 3);
    assert_eq!(r.get_total_duration(), 36);
    assert_eq!(r.get_avg_duration(), 12);
    assert_eq!(r.get_elements().len(), 2);
    let a = &r.get_elements()[0];
    assert_eq!(a.get_name(), "a");
    assert_eq!(a.get_exec_count(), 3);
    assert_eq!(a.get_total_duration(), 15);
    assert_eq!(a.get_avg_duration(), 5);
    let b = &r.get_elements()[1];
    assert_eq!(b.get_name(), "b");
    assert_eq!(b.get_exec_count(), 3);
    assert_eq!(b.get_total_duration(), 21);
    assert_eq!(b.get_avg_duration(), 7);
}

#[test]
fn order_preserved_across_later_folds() {
    let mut mgr = ExecProbeManager::new();
    mgr.report(&record("p", &[("x", 1), ("y", 2), ("z", 3)], 6));
    mgr.report(&record("p", &[("z", 3), ("x", 1)], 4));
    let list = mgr.fetch_results();
    assert_eq!(list.len(), 1);
    let r = list.get(0).unwrap();
    assert_eq!(r.get_elements().len(), 3);
    assert_eq!(r.get_elements()[0].get_name(), "x");
    assert_eq!(r.get_elements()[1].get_name(), "y");
    assert_eq!(r.get_elements()[2].get_name(), "z");
    assert_eq!(r.get_elements()[0].get_exec_count(), 2);
    assert_eq!(r.get_elements()[1].get_exec_count(), 1);
    assert_eq!(r.get_elements()[2].get_exec_count(), 2);
}

#[test]
fn monotonic_accumulation() {
    let mut mgr = ExecProbeManager::new();
    let m: u64 = 3;
    let k: u64 = 2;
    let mut i: u64 = 0;
    while i < m {
        mgr.report(&record("p", &[("a", 10)], 10));
        i += 1;
    }
    let first = mgr.fetch_results();
    assert_eq!(first[0].get_exec_count(), m);
    let total_first = first[0].get_total_duration();
    let mut j: u64 = 0;
    while j < k {
        mgr.report(&record("p", &[("a", 10)], 10));
        j += 1;
    }
    let second = mgr.fetch_results();
    assert_eq!(second[0].get_exec_count(), m + k);
    assert!(second[0].get_total_duration() >= total_first);
}

#[test]
fn interleaved_folds_lose_no_update() {
    // two sources of records for the same probe name, folded in an
    // arbitrary interleaving: the final count is exact
    let mut mgr = ExecProbeManager::new();
    let per_source: u64 = 25;
    let mut i: u64 = 0;
    while i < per_source {
        mgr.report(&record("shared", &[("first", 1)], 2));
        mgr.report(&record("shared", &[("second", 1)], 2));
        i += 1;
    }
    let list = mgr.fetch_results();
    assert_eq!(list.len(), 1);
    assert_eq!(list[0].get_exec_count(), 2 * per_source);
    assert_eq!(list[0].get_total_duration(), 4 * per_source as u128);
}

#[test]
fn entries_in_first_seen_order() {
    let mut mgr = ExecProbeManager::new();
    mgr.report(&record("beta", &[("s", 1)], 1));
    mgr.report(&record("alpha", &[("s", 1)], 1));
    mgr.report(&record("beta", &[("s", 1)], 1));
    let list = mgr.fetch_results();
    assert_eq!(list.len(), 2);
    assert_eq!(list[0].get_name(), "beta");
    assert_eq!(list[1].get_name(), "alpha");
    assert_eq!(list[0].get_exec_count(), 2);
    assert_eq!(list[1].get_exec_count(), 1);
}

#[test]
fn accumulation_saturates_at_maximum() {
    let mut mgr = ExecProbeManager::new();
    mgr.report(&record("p", &[("a", u128::MAX)], u128::MAX));
    mgr.report(&record("p", &[("a", 5)], 5));
    let list = mgr.fetch_results();
    assert_eq!(list[0].get_exec_count(), 2);
    assert_eq!(list[0].get_total_duration(), u128::MAX);
    assert_eq!(list[0].get_elements()[0].get_total_duration(), u128::MAX);
}

#[test]
fn empty_registry_snapshot_is_empty() {
    let mgr = ExecProbeManager::new();
    assert_eq!(mgr.fetch_results().len(), 0);
}
