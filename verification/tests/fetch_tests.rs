use filer::fetch::FetchBatch;
use filer::manifest::ManifestEntry;

fn entry(digest: &[u8], size: u64, path: &[u8]) -> ManifestEntry {
    ManifestEntry { digest: digest.to_vec(), size, path: path.to_vec() }
}

fn plan3() -> Vec<ManifestEntry> {
    vec![
        entry(b"d1", 1, b"one.txt"),
        entry(b"d2", 2, b"two.txt"),
        entry(b"d3", 3, b"three.txt"),
    ]
}

#[test]
fn one_failure_still_completes_the_siblings_and_names_only_that_path() {
    let mut batch = FetchBatch::new(plan3(), 3);
    let (i1, _) = batch.start_next().unwrap();
    let (i2, _) = batch.start_next().unwrap();
    let (i3, _) = batch.start_next().unwrap();
    batch.record(i1, true);
    batch.record(i2, false);
    batch.record(i3, true);
    assert!(batch.is_complete_exec());
    let failure = batch.report().expect_err("one entry failed");
    assert_eq!(failure.failed, vec![b"two.txt".to_vec()]);
}

#[test]
fn all_successes_report_success() {
    let mut batch = FetchBatch::new(plan3(), 2);
    while let Some((idx, _)) = batch.start_next() {
        batch.record(idx, true);
    }
    assert!(batch.is_complete_exec());
    assert!(batch.report().is_ok());
}

#[test]
fn all_failures_report_every_path_in_plan_order() {
    let mut batch = FetchBatch::new(plan3(), 3);
    while let Some((idx, _)) = batch.start_next() {
        batch.record(idx, false);
    }
    let failure = batch.report().expect_err("everything failed");
    assert_eq!(
        failure.failed,
        vec![b"one.txt".to_vec(), b"two.txt".to_vec(), b"three.txt".to_vec()]
    );
}

#[test]
fn the_task_bound_is_respected_exactly() {
    let mut batch = FetchBatch::new(plan3(), 1);
    assert!(batch.can_start());
    let (i1, _) = batch.start_next().unwrap();
    // one transfer outstanding and the bound is one: nothing more starts
    assert!(!batch.can_start());
    assert!(batch.start_next().is_none());
    batch.record(i1, true);
    assert!(batch.can_start());
    let (i2, _) = batch.start_next().unwrap();
    assert_eq!(i2, 1);
    batch.record(i2, true);
    let (i3, _) = batch.start_next().unwrap();
    batch.record(i3, true);
    assert!(batch.report().is_ok());
}

#[test]
fn entries_are_handed_out_in_plan_order() {
    let mut batch = FetchBatch::new(plan3(), 3);
    let (i1, e1) = batch.start_next().unwrap();
    let (i2, e2) = batch.start_next().unwrap();
    let (i3, e3) = batch.start_next().unwrap();
    assert_eq!((i1, i2, i3), (0, 1, 2));
    assert_eq!(e1.path, b"one.txt".to_vec());
    assert_eq!(e2.path, b"two.txt".to_vec());
    assert_eq!(e3.path, b"three.txt".to_vec());
    batch.record(i1, true);
    batch.record(i2, true);
    batch.record(i3, true);
}

#[test]
fn an_empty_plan_is_complete_at_once() {
    let mut batch = FetchBatch::new(Vec::new(), 4);
    assert!(batch.start_next().is_none());
    assert!(batch.is_complete_exec());
    assert!(batch.report().is_ok());
}
