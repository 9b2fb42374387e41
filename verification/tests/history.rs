use k7s_lib::history::{check, populated, shown_from, Sample, Unplottable};

fn sample(ts: i64) -> Sample {
    Sample { ts, memory: true, cpu: true, filesystems: 0 }
}

fn fault(samples: Vec<Sample>) -> Unplottable {
    check(&samples).fault.unwrap()
}

#[test]
fn a_populated_history_passes() {
    let idle = Sample { cpu: false, ..sample(30) };
    let report = check(&vec![sample(-30), sample(0), idle]);
    assert_eq!(report.fault, None);
    let count = report.populated.unwrap();
    assert_eq!((count.memory, count.cpu), (3, 2));
}

#[test]
fn an_empty_history_fails() {
    assert_eq!(fault(vec![]), Unplottable::Empty);
    assert_eq!(
        Unplottable::Empty.message(),
        "a Prometheus with node metrics must yield history"
    );
}

#[test]
fn points_must_be_strictly_ordered() {
    assert_eq!(fault(vec![sample(1), sample(1)]), Unplottable::Unordered);
    assert_eq!(fault(vec![sample(1), sample(3), sample(2)]), Unplottable::Unordered);
    assert_eq!(
        Unplottable::Unordered.message(),
        "samples must be strictly ordered by time"
    );
}

#[test]
fn both_series_must_have_landed() {
    let no_memory = Sample { memory: false, ..sample(1) };
    let no_cpu = Sample { cpu: false, ..sample(2) };
    assert_eq!(fault(vec![no_memory]), Unplottable::NoMemory);
    assert_eq!(fault(vec![no_cpu]), Unplottable::NoCpu);
    assert_eq!(check(&vec![no_memory, no_cpu]).fault, None);
    assert_eq!(Unplottable::NoMemory.message(), "memory series must have landed");
    assert_eq!(Unplottable::NoCpu.message(), "cpu series must have landed");
}

#[test]
fn filesystems_are_not_history() {
    let full = Sample { filesystems: 1, ..sample(2) };
    assert_eq!(fault(vec![sample(1), full]), Unplottable::Filesystems);
    assert_eq!(
        Unplottable::Filesystems.message(),
        "history must not backfill filesystems \u{2014} the UI shows those as current"
    );
}

#[test]
fn the_first_fault_is_reported() {
    let bare = Sample { memory: false, cpu: false, filesystems: 1, ts: 1 };
    assert_eq!(fault(vec![bare, bare]), Unplottable::Unordered);
    assert_eq!(fault(vec![bare]), Unplottable::NoMemory);
}

#[test]
fn points_are_counted_by_series() {
    let count = populated(&vec![sample(1), Sample { memory: false, ..sample(2) }]);
    assert_eq!((count.memory, count.cpu), (1, 2));
}

#[test]
fn the_counts_are_told_of_points_in_order_only() {
    assert!(check(&vec![]).populated.is_none());
    assert!(check(&vec![sample(2), sample(1)]).populated.is_none());
    let report = check(&vec![sample(1), Sample { filesystems: 3, cpu: false, ..sample(2) }]);
    assert_eq!(report.fault, Some(Unplottable::Filesystems));
    let count = report.populated.unwrap();
    assert_eq!((count.memory, count.cpu), (2, 1));
    let idle = check(&vec![Sample { memory: false, ..sample(1) }]);
    assert_eq!(idle.fault, Some(Unplottable::NoMemory));
    assert_eq!(idle.populated.unwrap().cpu, 1);
}

#[test]
fn the_last_five_points_are_shown() {
    assert_eq!(shown_from(0), 0);
    assert_eq!(shown_from(5), 0);
    assert_eq!(shown_from(6), 1);
    assert_eq!(shown_from(120), 115);
}
