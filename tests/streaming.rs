use galdi::{
    ChecksumAlgorithm, EntryType, PlumbahError, SnapshotEntry, Status, StreamingOutput, Timestamp,
};

#[test]
fn test_jsonl_empty_entries() {
    let mut output = StreamingOutput::new();
    let head = output.write_head("/test", ChecksumAlgorithm::XXH3_64, false);
    let tail = output.write_tail();
    assert_eq!(head.plumbah.stream.as_deref(), Some("head"));
    assert_eq!(tail.stream.as_deref(), Some("tail"));
    assert_eq!(tail.summary.unwrap().total, 0);
}

#[test]
fn test_jsonl_single_entry() {
    let mut output = StreamingOutput::new();
    let head = output.write_head("/test", ChecksumAlgorithm::XXH3_64, false);
    let entry = SnapshotEntry {
        path: "single.txt".to_string(),
        entry_type: EntryType::File,
        size: Some(100),
        mode: Some("644".to_string()),
        mtime: Timestamp { seconds: 0, nanos: 0 },
        checksum: Some("xxh3_64:abc123".to_string()),
        target: None,
    };
    output.write_entry(&entry);
    let tail = output.write_tail();
    assert_eq!(head.plumbah.stream.as_deref(), Some("head"));
    assert_eq!(head.root, "/test");
    assert_eq!(tail.stream.as_deref(), Some("tail"));
    assert_eq!(tail.summary.unwrap().total, 1);
    assert_eq!(tail.status, Status::Success);
}

#[test]
fn test_jsonl_with_errors() {
    let mut output = StreamingOutput::new();
    output.write_head("/test", ChecksumAlgorithm::XXH3_64, false);
    let error = PlumbahError {
        code: "TEST_ERROR".to_string(),
        message: "Test error message".to_string(),
        path: Some("/error/path".to_string()),
        recoverable: true,
        context: None,
    };
    let line = output.write_error(error);
    assert_eq!(line.errors.len(), 1);
    assert_eq!(line.errors[0].code, "TEST_ERROR");
    let tail = output.write_tail();
    assert_eq!(tail.summary.unwrap().errors, 1);
    assert_eq!(tail.status, Status::Partial);
    assert_eq!(tail.status.name(), "partial");
}

#[test]
fn stream_counts_entries_and_errors() {
    let mut output = StreamingOutput::new();
    let head = output.write_head("/r", ChecksumAlgorithm::Sha256, true);
    let meta = head.plumbah.meta.as_ref().unwrap();
    assert!(meta.deterministic);
    assert_eq!(meta.profiles.as_ref().unwrap()[0].name, "streaming");
    assert_eq!(head.checksum_algorithm, ChecksumAlgorithm::Sha256);
    assert_eq!(head.version, "1.0");
    let entry = SnapshotEntry {
        path: "x".to_string(),
        entry_type: EntryType::Directory,
        size: Some(0),
        mode: None,
        mtime: Timestamp { seconds: 0, nanos: 0 },
        checksum: None,
        target: None,
    };
    for _ in 0..3 {
        output.write_entry(&entry);
    }
    let error = galdi::ScanError::Io("boom".to_string()).to_plumbah_error();
    output.write_error(error);
    output.write_error(galdi::ScanError::Io("boom".to_string()).to_plumbah_error());
    assert_eq!(output.total_entries(), 3);
    assert_eq!(output.error_count(), 2);
    let tail = output.write_tail();
    let summary = tail.summary.unwrap();
    assert_eq!((summary.total, summary.processed, summary.errors), (3, 3, 2));
    assert!(tail.meta.is_none());
    assert!(tail.execution_time_ms.is_some());
    assert_eq!(output.exit_code(), 0);
}
