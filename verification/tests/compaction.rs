use mz_tools::compaction::start_check;
use mz_tools::compaction::CompactionStart;
use mz_tools::compaction::highest_timestamp;
use mz_tools::compaction::lowest_timestamp;
use mz_tools::compaction::CompactionCheck;
use mz_tools::compaction::CompactionVerdict;

#[test]
fn defaults() {
    let c = CompactionCheck::new(None, None);
    assert_eq!(c.max_size, 3);
    assert!(!c.permit_progress);
    assert_eq!(c.initial_highest, u64::MAX);
    let c = CompactionCheck::new(Some(10), Some(true));
    assert_eq!(c.max_size, 10);
    assert!(c.permit_progress);
}

#[test]
fn no_bindings_fail() {
    let mut c = CompactionCheck::new(None, Some(true));
    assert_eq!(c.check_attempt(0, &vec![]), CompactionVerdict::NoBindings);
    assert_eq!(c.initial_highest, 0);
    assert_eq!(c.check_attempt(3, &vec![]), CompactionVerdict::NoBindings);
}

#[test]
fn few_bindings_pass() {
    let mut c = CompactionCheck::new(None, None);
    assert_eq!(c.check_attempt(0, &vec![1, 2, 3]), CompactionVerdict::Compacted);
    assert_eq!(c.initial_highest, 3);
}

#[test]
fn too_many_bindings_fail() {
    let mut c = CompactionCheck::new(Some(2), None);
    assert_eq!(
        c.check_attempt(0, &vec![4, 5, 6]),
        CompactionVerdict::TooManyBindings { found: 3, max_size: 2 }
    );
    assert_eq!(
        c.check_attempt(1, &vec![7, 8, 9]),
        CompactionVerdict::TooManyBindings { found: 3, max_size: 2 }
    );
}

#[test]
fn progress_past_first_highest_passes() {
    let mut c = CompactionCheck::new(Some(1), Some(true));
    assert_eq!(
        c.check_attempt(0, &vec![10, 30, 20]),
        CompactionVerdict::TooManyBindings { found: 3, max_size: 1 }
    );
    assert_eq!(c.initial_highest, 30);
    // Not all bindings have reached 30 yet.
    assert_eq!(
        c.check_attempt(1, &vec![29, 31]),
        CompactionVerdict::TooManyBindings { found: 2, max_size: 1 }
    );
    // All bindings are at or past 30: progress.
    assert_eq!(c.check_attempt(2, &vec![30, 40, 50]), CompactionVerdict::Compacted);
    assert_eq!(c.initial_highest, 30);
}

#[test]
fn first_attempt_never_counts_progress() {
    let mut c = CompactionCheck::new(Some(1), Some(true));
    c.initial_highest = 0;
    assert_eq!(
        c.check_attempt(0, &vec![5, 6]),
        CompactionVerdict::TooManyBindings { found: 2, max_size: 1 }
    );
}

#[test]
fn extremes_of_timestamps() {
    assert_eq!(lowest_timestamp(&vec![]), u64::MAX);
    assert_eq!(highest_timestamp(&vec![]), 0);
    assert_eq!(lowest_timestamp(&vec![5, 3, 9]), 3);
    assert_eq!(highest_timestamp(&vec![5, 3, 9]), 9);
}

#[test]
fn start_without_catalog_skips() {
    let lookup: Option<Result<u64, String>> = None;
    assert!(matches!(start_check(lookup, true), CompactionStart::Skip));
    let lookup: Option<Result<u64, String>> = None;
    assert!(matches!(start_check(lookup, false), CompactionStart::Skip));
}

#[test]
fn start_without_data_path_skips() {
    assert!(matches!(start_check(Some(Ok::<u64, String>(7)), false), CompactionStart::Skip));
    assert!(matches!(
        start_check(Some(Err::<u64, String>("unknown".to_string())), false),
        CompactionStart::Skip
    ));
}

#[test]
fn start_with_unresolved_source_fails() {
    match start_check(Some(Err::<u64, String>("unknown catalog item 'src'".to_string())), true) {
        CompactionStart::Fail(e) => assert_eq!(e, "unknown catalog item 'src'"),
        other => panic!("unexpected {:?}", other),
    }
}

#[test]
fn start_with_resolved_source_proceeds() {
    match start_check(Some(Ok::<u64, String>(42)), true) {
        CompactionStart::Proceed(item) => assert_eq!(item, 42),
        other => panic!("unexpected {:?}", other),
    }
}
