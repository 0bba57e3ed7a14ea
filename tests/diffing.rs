use galdi::{
    AttributeChange, ChangeType, ChecksumAlgorithm, DiffEngine, DiffOptions, EntryType, Meta,
    PlumbahObject, Snapshot, SnapshotEntry, Status, Timestamp,
};

fn entry(path: &str, checksum: &str, mode: &str, secs: i64) -> SnapshotEntry {
    SnapshotEntry {
        path: path.to_string(),
        entry_type: EntryType::File,
        size: Some(10),
        mode: Some(mode.to_string()),
        mtime: Timestamp { seconds: secs, nanos: 0 },
        checksum: Some(checksum.to_string()),
        target: None,
    }
}

fn snapshot(entries: Vec<SnapshotEntry>) -> Snapshot {
    let meta = Meta::new("galdi_snapshot", "0.1.0", true, false, true, false, 100, Timestamp {
        seconds: 0,
        nanos: 0,
    });
    Snapshot {
        plumbah: PlumbahObject::new(Status::Success, meta),
        version: "1.0".to_string(),
        root: "/test".to_string(),
        checksum_algorithm: ChecksumAlgorithm::XXH3_64,
        count: entries.len(),
        entries,
    }
}

fn engine(ignore_time: bool, ignore_mode: bool, structure_only: bool) -> DiffEngine {
    DiffEngine::new(DiffOptions { ignore_time, ignore_mode, structure_only })
}

#[test]
fn diff_of_snapshot_with_itself_is_identical() {
    let s = snapshot(vec![entry("a", "x:1", "644", 1), entry("b", "x:2", "644", 1)]);
    let r = engine(false, false, false).diff(&s, &s);
    assert!(r.identical);
    assert!(r.differences.is_empty());
    assert_eq!(r.summary.unchanged, 2);
    assert_eq!((r.summary.added, r.summary.removed, r.summary.modified), (0, 0, 0));
    assert_eq!(r.plumbah.status, Status::Success);
    assert!(r.plumbah.meta.as_ref().unwrap().deterministic);
}

#[test]
fn diff_classifies_added_removed_modified() {
    let src = snapshot(vec![
        entry("same", "x:1", "644", 1),
        entry("gone", "x:2", "644", 1),
        entry("changed", "x:3", "644", 1),
    ]);
    let tgt = snapshot(vec![
        entry("changed", "x:4", "600", 2),
        entry("new", "x:5", "644", 1),
        entry("same", "x:1", "644", 1),
    ]);
    let r = engine(false, false, false).diff(&src, &tgt);
    assert!(!r.identical);
    assert_eq!(r.summary.added, 1);
    assert_eq!(r.summary.removed, 1);
    assert_eq!(r.summary.modified, 1);
    assert_eq!(r.summary.unchanged, 1);
    let paths: Vec<&str> = r.differences.iter().map(|d| d.path.as_str()).collect();
    assert_eq!(paths, vec!["changed", "gone", "new"]);
    assert_eq!(r.differences[0].change_type, ChangeType::Modified);
    assert_eq!(
        r.differences[0].changes,
        vec![AttributeChange::Content, AttributeChange::Mode, AttributeChange::Mtime]
    );
    assert_eq!(r.differences[1].change_type, ChangeType::Removed);
    assert!(r.differences[1].target.is_none());
    assert_eq!(r.differences[2].change_type, ChangeType::Added);
    assert!(r.differences[2].source.is_none());
}

#[test]
fn diff_options_leave_attributes_out() {
    let src = snapshot(vec![entry("f", "x:1", "644", 1)]);
    let tgt = snapshot(vec![entry("f", "x:1", "600", 2)]);
    let r = engine(true, false, false).diff(&src, &tgt);
    assert_eq!(r.differences[0].changes, vec![AttributeChange::Mode]);
    let r = engine(true, true, false).diff(&src, &tgt);
    assert!(r.identical);
    let tgt2 = snapshot(vec![entry("f", "x:9", "600", 2)]);
    let r = engine(false, false, true).diff(&src, &tgt2);
    assert!(r.identical);
    assert_eq!(r.summary.unchanged, 1);
}

#[test]
fn type_change_is_always_reported() {
    let src = snapshot(vec![entry("p", "x:1", "644", 1)]);
    let mut dir = entry("p", "x:1", "644", 1);
    dir.entry_type = EntryType::Directory;
    dir.checksum = None;
    let tgt = snapshot(vec![dir]);
    let r = engine(true, true, true).diff(&src, &tgt);
    assert_eq!(r.differences[0].changes, vec![AttributeChange::Type]);
}

#[test]
fn diff_is_symmetric_in_counts() {
    let a = snapshot(vec![entry("1", "x:1", "644", 1), entry("2", "x:2", "644", 1)]);
    let b = snapshot(vec![entry("2", "x:3", "644", 1), entry("3", "x:3", "644", 1), entry("4", "x:4", "644", 1)]);
    let e = engine(false, false, false);
    let ab = e.diff(&a, &b);
    let ba = e.diff(&b, &a);
    assert_eq!(ab.summary.added, ba.summary.removed);
    assert_eq!(ab.summary.removed, ba.summary.added);
    assert_eq!(ab.summary.unchanged, ba.summary.unchanged);
    assert_eq!(ab.summary.modified, ba.summary.modified);
    let total = ab.summary.added + ab.summary.removed + ab.summary.modified + ab.summary.unchanged;
    assert_eq!(total, 4);
}

#[test]
fn empty_against_populated_is_all_added() {
    let empty = snapshot(vec![]);
    let full = snapshot(vec![entry("c", "x:1", "644", 1), entry("a", "x:2", "644", 1), entry("b", "x:3", "644", 1)]);
    let r = engine(false, false, false).diff(&empty, &full);
    assert_eq!(r.summary.added, 3);
    assert_eq!((r.summary.removed, r.summary.modified, r.summary.unchanged), (0, 0, 0));
    let paths: Vec<&str> = r.differences.iter().map(|d| d.path.as_str()).collect();
    assert_eq!(paths, vec!["a", "b", "c"]);
}

#[test]
fn duplicate_paths_use_the_last_entry() {
    let src = snapshot(vec![entry("d", "x:1", "644", 1), entry("d", "x:2", "644", 1)]);
    let tgt = snapshot(vec![entry("d", "x:2", "644", 1)]);
    let r = engine(false, false, false).diff(&src, &tgt);
    assert!(r.identical);
    assert_eq!(r.summary.unchanged, 1);
}

#[test]
fn live_inputs_are_not_deterministic() {
    let s = snapshot(vec![]);
    let r = engine(false, false, false).diff_with(&s, &s, false);
    assert!(!r.plumbah.meta.as_ref().unwrap().deterministic);
    assert_eq!(r.plumbah.meta.as_ref().unwrap().tool, "galdi_diff");
}

#[test]
fn compare_entries_reports_size_and_target() {
    let e = engine(false, false, false);
    let a = entry("f", "x:1", "644", 1);
    let mut b = entry("f", "x:1", "644", 1);
    assert!(e.compare_entries(&a, &b).is_none());
    b.size = Some(11);
    b.target = Some("t".to_string());
    let d = e.compare_entries(&a, &b).unwrap();
    assert_eq!(d.changes, vec![AttributeChange::Size, AttributeChange::Target]);
    assert_eq!(d.path, "f");
}
