use exec_duration::output::ExecDuration;

#[test]
fn percent_of_parent_total() {
    let child = ExecDuration::new("part", 1, 250, 1000);
    assert_eq!(child.get_exec_percent(), 25);
}

#[test]
fn root_percent_is_always_100() {
    let root = ExecDuration::new("whole", 7, 1000, 1000);
    assert_eq!(root.get_exec_percent(), 100);
    let tiny = ExecDuration::new("whole", 1, 3, 3);
    assert_eq!(tiny.get_exec_percent(), 100);
}

#[test]
fn percent_truncates_fraction() {
    let d = ExecDuration::new("part", 1, 199, 1000);
    assert_eq!(d.get_exec_percent(), 19);
}

#[test]
fn percent_keeps_low_byte_beyond_base() {
    // a hand-built node whose duration exceeds its base
    let d = ExecDuration::new("odd", 1, 300, 200);
    assert_eq!(d.get_exec_percent(), 150);
}

#[test]
fn average_is_integer_division() {
    let d = ExecDuration::new("p", 2, 7, 7);
    assert_eq!(d.get_avg_duration(), 3);
    let e = ExecDuration::new("p", 3, 36, 36);
    assert_eq!(e.get_avg_duration(), 12);
}

#[test]
fn accessors_return_what_was_built() {
    let mut d = ExecDuration::new("root", 4, 40, 40);
    assert_eq!(d.get_name(), "root");
    assert_eq!(d.get_exec_count(), 4);
    assert_eq!(d.get_total_duration(), 40);
    assert_eq!(d.get_elements().len(), 0);
    d.add(ExecDuration::new("first", 4, 10, 40));
    d.add(ExecDuration::new("second", 4, 30, 40));
    assert_eq!(d.get_elements().len(), 2);
    assert_eq!(d.get_elements()[0].get_name(), "first");
    assert_eq!(d.get_elements()[1].get_name(), "second");
    assert_eq!(d.get_elements()[0].get_exec_percent(), 25);
    assert_eq!(d.get_elements()[1].get_exec_percent(), 75);
}
