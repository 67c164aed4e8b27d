use exec_duration::manager::{ExecData, ExecProbeManager};
use exec_duration::ExecProbe;

#[test]
fn discard_probe_without_checkpoints() {
    let mut mgr = ExecProbeManager::new();
    let mut p = ExecProbe::new("empty");
    p.stop(&mut mgr);
    assert_eq!(mgr.fetch_results().len(), 0);
}

#[test]
fn discard_record_with_zero_duration() {
    let mut mgr = ExecProbeManager::new();
    let mut d = ExecData::new("zero");
    d.begin_timestamp = 100;
    d.now = 100;
    d.add_point_at("a", 100);
    d.stop_at(&mut mgr, 100);
    assert_eq!(d.duration, 0);
    assert_eq!(mgr.fetch_results().len(), 0);
}

#[test]
fn stop_is_idempotent() {
    let mut mgr = ExecProbeManager::new();
    let mut p = ExecProbe::new("p");
    p.data.begin_timestamp = 0;
    p.data.now = 0;
    p.data.add_point_at("a", 10);
    p.stop(&mut mgr);
    p.stop(&mut mgr);
    p.stop(&mut mgr);
    let list = mgr.fetch_results();
    assert_eq!(list.len(), 1);
    assert_eq!(list[0].get_exec_count(), 1);
    assert_eq!(list[0].get_elements().len(), 1);
    assert_eq!(list[0].get_elements()[0].get_exec_count(), 1);
}

#[test]
fn backward_clock_drops_checkpoint() {
    let mut d = ExecData::new("p");
    d.begin_timestamp = 50;
    d.now = 50;
    d.add_point_at("before", 40);
    assert_eq!(d.points.len(), 0);
    assert_eq!(d.now, 50);
    d.add_point_at("after", 60);
    assert_eq!(d.points.len(), 1);
    assert_eq!(d.points[0].name, "after");
    assert_eq!(d.points[0].duration, 10);
    assert_eq!(d.now, 60);
}

#[test]
fn backward_clock_discards_record_at_stop() {
    let mut mgr = ExecProbeManager::new();
    let mut d = ExecData::new("p");
    d.begin_timestamp = 100;
    d.now = 100;
    d.add_point_at("a", 150);
    d.stop_at(&mut mgr, 90);
    assert_eq!(d.duration, 0);
    assert_eq!(mgr.fetch_results().len(), 0);
}

#[test]
fn checkpoints_measure_between_marks() {
    let mut mgr = ExecProbeManager::new();
    let mut d = ExecData::new("p");
    d.begin_timestamp = 0;
    d.now = 0;
    d.add_point_at("a", 30);
    d.add_point_at("b", 100);
    d.stop_at(&mut mgr, 100);
    assert_eq!(d.duration, 100);
    let list = mgr.fetch_results();
    assert_eq!(list.len(), 1);
    let r = &list[0];
    assert_eq!(r.get_total_duration(), 100);
    assert_eq!(r.get_elements()[0].get_total_duration(), 30);
    assert_eq!(r.get_elements()[1].get_total_duration(), 70);
}

#[test]
fn new_probe_starts_clean() {
    let p = ExecProbe::new("fresh");
    assert_eq!(p.data.name, "fresh");
    assert_eq!(p.data.points.len(), 0);
    assert_eq!(p.data.duration, 0);
    assert_eq!(p.data.begin_timestamp, p.data.now);
    assert!(!p.stop_done);
}
