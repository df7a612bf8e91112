use std::collections::HashMap;

use kopia_fsrepo_recovery::check::{check_records, find_missing};
use kopia_fsrepo_recovery::restore::plan_restore;
use kopia_fsrepo_recovery::BlobIdExpectedPath;

fn record(blob_id: &str, expected_path: &str) -> BlobIdExpectedPath {
    BlobIdExpectedPath {
        blob_id: blob_id.to_string(),
        expected_path: expected_path.to_string(),
    }
}

fn manifest() -> Vec<BlobIdExpectedPath> {
    vec![
        record("abcdef111", "abc/def/111.f"),
        record("abcdef222", "abc/def/222.f"),
        record("abcdef333", "abc/def/333.f"),
    ]
}

#[test]
fn check_passes_when_all_blobs_present() {
    let items = manifest();
    let sizes = vec![Some(10), Some(20), Some(30)];
    assert!(find_missing(&items, &sizes).is_empty());
    assert!(check_records(&items, &sizes).is_ok());
}

#[test]
fn check_reports_only_the_missing_record_and_checks_the_rest() {
    let items = manifest();
    let sizes = vec![Some(10), None, Some(30)];
    let missing = find_missing(&items, &sizes);
    assert_eq!(missing.len(), 1);
    assert_eq!(missing[0].blob_id, "abcdef222");
    assert_eq!(missing[0].expected_path, "abc/def/222.f");
    let err = check_records(&items, &sizes).unwrap_err();
    assert_eq!(err.len(), 1);
    assert_eq!(err[0].blob_id, "abcdef222");
}

#[test]
fn empty_blob_counts_as_missing() {
    let items = manifest();
    let sizes = vec![Some(10), Some(0), Some(30)];
    let missing = find_missing(&items, &sizes);
    assert_eq!(missing.len(), 1);
    assert_eq!(missing[0].blob_id, "abcdef222");
}

#[test]
fn preflight_aborts_restore_before_any_copy() {
    let items = manifest();
    let sizes = vec![Some(10), None, Some(30)];
    let failure = plan_restore(&items, &sizes, false, true).unwrap_err();
    assert_eq!(failure.missing.len(), 1);
    assert_eq!(failure.missing[0].expected_path, "abc/def/222.f");
}

#[test]
fn restore_continues_past_missing_record_and_fails_at_summary() {
    let items = manifest();
    let sizes = vec![Some(10), None, Some(30)];
    let plan = plan_restore(&items, &sizes, true, true).expect("plan past the skipped source check");
    assert_eq!(plan.to_copy, vec![true, false, true]);
    assert_eq!(plan.missing_or_empty.len(), 1);
    assert_eq!(plan.missing_or_empty[0].blob_id, "abcdef222");
    assert!(!plan.succeeded());
}

#[test]
fn restore_succeeds_when_everything_is_present() {
    let items = manifest();
    let sizes = vec![Some(10), Some(20), Some(30)];
    let plan = plan_restore(&items, &sizes, false, true).expect("source check passes");
    assert_eq!(plan.to_copy, vec![true, true, true]);
    assert!(plan.missing_or_empty.is_empty());
    assert!(plan.succeeded());
    assert!(plan.for_real);
}

#[test]
fn dry_run_and_commit_classify_identically() {
    let items = manifest();
    let sizes = vec![Some(10), Some(0), Some(30)];
    let dry = plan_restore(&items, &sizes, true, false).unwrap();
    let wet = plan_restore(&items, &sizes, true, true).unwrap();
    assert_eq!(dry.to_copy, wet.to_copy);
    assert_eq!(
        dry.missing_or_empty
            .iter()
            .map(|r| r.expected_path.clone())
            .collect::<Vec<_>>(),
        wet.missing_or_empty
            .iter()
            .map(|r| r.expected_path.clone())
            .collect::<Vec<_>>()
    );
    assert!(!dry.for_real);
    assert!(wet.for_real);
}

#[test]
fn committed_restore_is_idempotent() {
    let items = manifest();
    let sizes = vec![Some(3), Some(4), Some(5)];
    let mut source: HashMap<String, Vec<u8>> = HashMap::new();
    source.insert("abc/def/111.f".to_string(), vec![1, 1, 1]);
    source.insert("abc/def/222.f".to_string(), vec![2, 2]);
    source.insert("abc/def/333.f".to_string(), vec![3]);

    let run = |dest: &mut HashMap<String, Vec<u8>>| {
        let plan = plan_restore(&items, &sizes, false, true).expect("source check passes");
        for (i, copy) in plan.to_copy.iter().enumerate() {
            if *copy {
                let path = &items[i].expected_path;
                dest.insert(path.clone(), source[path].clone());
            }
        }
        assert!(plan.succeeded());
    };

    let mut dest: HashMap<String, Vec<u8>> = HashMap::new();
    dest.insert("abc/def/111.f".to_string(), vec![9, 9, 9]);
    run(&mut dest);
    let after_first = dest.clone();
    run(&mut dest);
    assert_eq!(dest, after_first);
}

#[test]
fn empty_manifest_checks_and_restores_cleanly() {
    let items: Vec<BlobIdExpectedPath> = Vec::new();
    let sizes: Vec<Option<u64>> = Vec::new();
    assert!(check_records(&items, &sizes).is_ok());
    let plan = plan_restore(&items, &sizes, false, false).unwrap();
    assert!(plan.to_copy.is_empty());
    assert!(plan.succeeded());
}

#[test]
fn extracted_manifest_round_trips_through_check() {
    let log: Vec<String> = vec![
        "error processing snapshot a: object oid1 is backed by missing blob abcdef111".to_string(),
        "error processing snapshot b: object oid2 is backed by missing blob abcdef222".to_string(),
        "encountered 2".to_string(),
    ];
    let extraction =
        kopia_fsrepo_recovery::extract_from_log::extract_records(&log, false).unwrap();
    let items: Vec<BlobIdExpectedPath> = extraction
        .records
        .into_iter()
        .map(|r| BlobIdExpectedPath {
            blob_id: r.blob_id,
            expected_path: r.expected_path,
        })
        .collect();
    let sizes: Vec<Option<u64>> = items.iter().map(|_| Some(7)).collect();
    assert!(find_missing(&items, &sizes).is_empty());
    assert!(check_records(&items, &sizes).is_ok());
}
