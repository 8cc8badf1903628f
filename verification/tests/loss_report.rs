use guitarpro::convert::mscz::LossReport;

#[test]
fn record_and_iterate_in_sorted_order() {
    let mut report = LossReport::new();
    report.note("Slur");
    report.note("Dynamic");
    report.note("Slur");
    report.note("Dynamic");
    report.note("Dynamic");
    report.note("Tuplet");

    assert_eq!(report.distinct(), 3);
    assert_eq!(report.total(), 6);
    assert_eq!(report.get("Slur"), 2);
    assert_eq!(report.get("Dynamic"), 3);
    assert_eq!(report.get("Tuplet"), 1);
    assert_eq!(report.get("Nonexistent"), 0);

    let entries: Vec<(&str, u32)> = report.iter();
    assert_eq!(entries, vec![("Dynamic", 3), ("Slur", 2), ("Tuplet", 1)], "iter must be sorted by name");
}

#[test]
fn empty_report_reports_zero() {
    let report = LossReport::new();
    assert!(report.is_empty());
    assert_eq!(report.distinct(), 0);
    assert_eq!(report.total(), 0);
}

// Names sort by code point: upper case before lower case, a prefix before its extensions.
#[test]
fn names_sort_by_code_point_and_prefix() {
    let mut report = LossReport::new();
    report.note("beam");
    report.note("Beam");
    report.note("BeamMode");
    report.note("Be");
    let names: Vec<&str> = report.iter().into_iter().map(|(n, _)| n).collect();
    assert_eq!(names, vec!["Be", "Beam", "BeamMode", "beam"]);
    assert!(!report.is_empty());
}

#[test]
fn new_report_equals_default() {
    assert!(LossReport::new() == LossReport::default());
    let mut r = LossReport::default();
    r.note("Slur");
    assert!(r != LossReport::new());
}
