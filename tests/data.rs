use galdi::{ChecksumAlgorithm, EntryType, Meta, PlumbahObject, Snapshot, SnapshotEntry, Status, Timestamp};

fn now() -> Timestamp {
    Timestamp { seconds: 1_700_000_000, nanos: 0 }
}

fn snapshot_of(root: &str, entry: SnapshotEntry) -> Snapshot {
    let meta = Meta::new("galdi_snapshot", "0.1.0", true, false, true, true, 100, now());
    Snapshot {
        plumbah: PlumbahObject::new(Status::Success, meta),
        version: "1.0".to_string(),
        root: root.to_string(),
        checksum_algorithm: ChecksumAlgorithm::XXH3_64,
        count: 1,
        entries: vec![entry.clone()],
    }
}

#[test]
fn test_meta_has_all_semantic_flags() {
    let meta = Meta::new("test_tool", "1.0.0", true, false, true, true, 100, now());
    assert_eq!(meta.idempotent, true);
    assert_eq!(meta.mutates, false);
    assert_eq!(meta.safe, true);
    assert_eq!(meta.deterministic, true);
}

#[test]
fn test_plumbah_object_level2_fields() {
    let meta = Meta::new("test_tool", "1.2.3", true, false, true, true, 245, now());
    assert_eq!(meta.plumbah_level, 2);
    assert_eq!(meta.execution_time_ms, 245);
    assert_eq!(meta.tool, "test_tool");
    assert_eq!(meta.tool_version, "1.2.3");
}

#[test]
fn test_snapshot_with_file_entries() {
    let file_entry = SnapshotEntry {
        path: "file.txt".to_string(),
        entry_type: EntryType::File,
        size: Some(512),
        mode: Some("644".to_string()),
        mtime: now(),
        checksum: Some("xxh3_64:abc123".to_string()),
        target: None,
    };
    let snapshot = snapshot_of("/test", file_entry);
    assert_eq!(snapshot.entries.len(), 1);
    assert_eq!(snapshot.entries[0].entry_type, EntryType::File);
    assert!(snapshot.entries[0].checksum.is_some());
}

#[test]
fn test_snapshot_with_directory_entries() {
    let dir_entry = SnapshotEntry {
        path: "subdir".to_string(),
        entry_type: EntryType::Directory,
        size: Some(0),
        mode: Some("755".to_string()),
        mtime: now(),
        checksum: None,
        target: None,
    };
    let snapshot = snapshot_of("/test", dir_entry);
    assert_eq!(snapshot.entries[0].entry_type, EntryType::Directory);
    assert!(snapshot.entries[0].checksum.is_none());
}

#[test]
fn test_snapshot_with_symlink_entries() {
    let symlink_entry = SnapshotEntry {
        path: "link".to_string(),
        entry_type: EntryType::Symlink,
        size: Some(0),
        mode: Some("777".to_string()),
        mtime: now(),
        checksum: None,
        target: Some("target.txt".to_string()),
    };
    let snapshot = snapshot_of("/test", symlink_entry);
    assert_eq!(snapshot.entries[0].entry_type, EntryType::Symlink);
    assert_eq!(snapshot.entries[0].target, Some("target.txt".to_string()));
}

#[test]
fn test_snapshot_relative_path_handling() {
    let entry = SnapshotEntry {
        path: "relative/path/file.txt".to_string(),
        entry_type: EntryType::File,
        size: Some(100),
        mode: Some("644".to_string()),
        mtime: now(),
        checksum: Some("xxh3_64:123".to_string()),
        target: None,
    };
    let snapshot = snapshot_of("/absolute/root", entry);
    assert!(!std::path::Path::new(&snapshot.entries[0].path).is_absolute());
}

#[test]
fn duplicate_keeps_every_field() {
    let entry = SnapshotEntry {
        path: "a/b".to_string(),
        entry_type: EntryType::Symlink,
        size: Some(9),
        mode: Some("777".to_string()),
        mtime: Timestamp { seconds: 3, nanos: 4 },
        checksum: None,
        target: Some("c".to_string()),
    };
    let copy = entry.duplicate();
    assert_eq!(copy.path, entry.path);
    assert_eq!(copy.entry_type, entry.entry_type);
    assert_eq!(copy.size, entry.size);
    assert_eq!(copy.mode, entry.mode);
    assert_eq!(copy.mtime, entry.mtime);
    assert_eq!(copy.checksum, entry.checksum);
    assert_eq!(copy.target, entry.target);
}
