use galdi::{
    elapsed_ms, format_mode, replace_separator, to_unix_like_string, ChecksumAlgorithm,
    EntryType, Meta, PlumbahError, PlumbahObject, ScanError, Status, Timestamp,
    PLUMBAH_LEVEL, PLUMBAH_VERSION,
};
use std::str::FromStr;

fn ts(seconds: i64, nanos: u32) -> Timestamp {
    Timestamp { seconds, nanos }
}

#[test]
fn test_entry_type_values() {
    assert_eq!(EntryType::Undefined as u8, 0);
    assert_eq!(EntryType::File as u8, 1);
    assert_eq!(EntryType::Directory as u8, 2);
    assert_eq!(EntryType::Symlink as u8, 3);
}

#[test]
fn test_checksum_algorithm_from_str_xxh3() {
    let result = ChecksumAlgorithm::from_str("xxh3_64").unwrap();
    assert_eq!(result, ChecksumAlgorithm::XXH3_64);
}

#[test]
fn test_checksum_algorithm_from_str_sha256() {
    let result = ChecksumAlgorithm::from_str("sha256").unwrap();
    assert_eq!(result, ChecksumAlgorithm::Sha256);
}

#[test]
fn test_checksum_algorithm_case_insensitive() {
    assert_eq!(
        ChecksumAlgorithm::from_str("XXH3_64").unwrap(),
        ChecksumAlgorithm::XXH3_64
    );
    assert_eq!(
        ChecksumAlgorithm::from_str("SHA256").unwrap(),
        ChecksumAlgorithm::Sha256
    );
    assert_eq!(
        ChecksumAlgorithm::from_str("Sha256").unwrap(),
        ChecksumAlgorithm::Sha256
    );
}

#[test]
fn test_checksum_algorithm_invalid_returns_err() {
    let result = ChecksumAlgorithm::from_str("md5");
    assert!(result.is_err());
    assert!(result.unwrap_err().contains("Invalid checksum algorithm"));
}

#[test]
fn checksum_algorithm_blake3_and_exact_error_message() {
    assert_eq!(ChecksumAlgorithm::from_str("BLAKE3").unwrap(), ChecksumAlgorithm::Blake3);
    assert_eq!(
        ChecksumAlgorithm::from_str("Md5").unwrap_err(),
        "Invalid checksum algorithm: Md5"
    );
    assert_eq!(
        ChecksumAlgorithm::from_lowercase_name("sha256", "SHA256").unwrap(),
        ChecksumAlgorithm::Sha256
    );
    assert_eq!(
        ChecksumAlgorithm::from_lowercase_name("SHA256", "SHA256").unwrap_err(),
        "Invalid checksum algorithm: SHA256"
    );
    assert_eq!(ChecksumAlgorithm::Blake3.name(), "blake3");
}

#[test]
fn test_plumbah_version_constant() {
    assert_eq!(PLUMBAH_VERSION, "1.0");
}

#[test]
fn test_path_not_found_to_plumbah_error() {
    let path = "/nonexistent".to_string();
    let error = ScanError::PathNotFound(path.clone());
    let plumbah_error = error.to_plumbah_error();
    assert_eq!(plumbah_error.code, "PATH_NOT_FOUND");
    assert!(plumbah_error.message.contains("Path not found"));
    assert_eq!(plumbah_error.path, Some(path));
    assert!(!plumbah_error.recoverable);
}

#[test]
fn test_permission_denied_to_plumbah_error() {
    let path = "/etc/shadow".to_string();
    let error = ScanError::PermissionDenied(path.clone());
    let plumbah_error = error.to_plumbah_error();
    assert_eq!(plumbah_error.code, "PERMISSION_DENIED");
    assert!(plumbah_error.message.contains("Permission denied"));
    assert_eq!(plumbah_error.path, Some(path));
    assert!(!plumbah_error.recoverable);
}

#[test]
fn test_io_error_to_plumbah_error() {
    let io_error = std::io::Error::other("test error");
    let error = ScanError::Io(io_error.to_string());
    let plumbah_error = error.to_plumbah_error();
    assert_eq!(plumbah_error.code, "IO_ERROR");
    assert!(plumbah_error.message.contains("test error"));
    assert_eq!(plumbah_error.path, None);
    assert!(!plumbah_error.recoverable);
}

#[test]
fn test_symlink_loop_to_plumbah_error() {
    let path = "/loop/link".to_string();
    let error = ScanError::SymlinkLoop(path.clone());
    let plumbah_error = error.to_plumbah_error();
    assert_eq!(plumbah_error.code, "SYMLINK_LOOP");
    assert!(plumbah_error.message.contains("Symlink loop detected"));
    assert_eq!(plumbah_error.path, Some(path));
    assert!(!plumbah_error.recoverable);
}

fn all_errors() -> Vec<ScanError> {
    vec![
        ScanError::PathNotFound("/test".to_string()),
        ScanError::PermissionDenied("/test".to_string()),
        ScanError::Io(std::io::Error::other("test").to_string()),
        ScanError::SymlinkLoop("/test".to_string()),
    ]
}

#[test]
fn test_plumbah_error_code_format() {
    for error in all_errors() {
        let plumbah_error = error.to_plumbah_error();
        assert_eq!(
            plumbah_error.code,
            plumbah_error.code.to_uppercase(),
            "Error code should be uppercase"
        );
        assert!(
            !plumbah_error.code.contains('-'),
            "Error code should use underscores, not hyphens"
        );
    }
}

#[test]
fn test_plumbah_error_includes_path() {
    let path = "/test/path".to_string();
    let error = ScanError::PathNotFound(path.clone());
    let plumbah_error = error.to_plumbah_error();
    assert_eq!(plumbah_error.path, Some(path));

    let io_error = ScanError::Io(std::io::Error::other("test").to_string());
    let plumbah_error = io_error.to_plumbah_error();
    assert_eq!(plumbah_error.path, None);
}

#[test]
fn test_plumbah_error_recoverable_flag() {
    for error in all_errors() {
        let plumbah_error = error.to_plumbah_error();
        assert!(
            !plumbah_error.recoverable,
            "All scan errors should be non-recoverable"
        );
    }
}

#[test]
fn error_messages_are_exact() {
    assert_eq!(
        ScanError::PathNotFound("/a".to_string()).message(),
        "Path not found: /a"
    );
    assert_eq!(
        ScanError::PermissionDenied("/b".to_string()).message(),
        "Permission denied: /b"
    );
    assert_eq!(ScanError::Io("disk gone".to_string()).message(), "disk gone");
    assert_eq!(
        ScanError::SymlinkLoop("/c".to_string()).message(),
        "Symlink loop detected at: /c"
    );
    let coded = ScanError::SymlinkLoop("/c".to_string()).to_plumbah_error();
    assert!(coded.context.is_none());
}

#[test]
fn status_exit_codes() {
    assert_eq!(Status::Success.exit_code(), 0);
    assert_eq!(Status::Error.exit_code(), 1);
    assert_eq!(Status::Partial.exit_code(), 2);
    assert_eq!(Status::Success.name(), "ok");
    assert_eq!(Status::Partial.name(), "partial");
    assert_eq!(Status::Error.name(), "error");
}

#[test]
fn meta_and_envelope_builders() {
    let meta = Meta::new("test_tool", "1.0.0", true, false, true, false, 100, ts(5, 0));
    assert!(meta.idempotent && !meta.mutates && meta.safe && !meta.deterministic);
    assert_eq!(meta.plumbah_level, PLUMBAH_LEVEL);
    assert_eq!(meta.execution_time_ms, 100);
    assert_eq!(meta.tool, "test_tool");
    assert_eq!(meta.tool_version, "1.0.0");
    assert!(meta.extra.is_empty());
    assert!(meta.profiles.is_none());
    let meta = meta.with_default_profiles();
    let profiles = meta.profiles.as_ref().unwrap();
    assert_eq!(profiles.len(), 1);
    assert_eq!(profiles[0].name, "_determinism");
    let obj = PlumbahObject::new(Status::Partial, meta);
    assert_eq!(obj.version, "1.0");
    assert_eq!(obj.status, Status::Partial);
    assert!(obj.errors.is_none() && obj.stream.is_none() && obj.summary.is_none());
    let err = PlumbahError {
        code: "TEST_ERROR".to_string(),
        message: "Test error message".to_string(),
        path: Some("/test".to_string()),
        recoverable: false,
        context: None,
    };
    let obj = obj.with_errors(vec![err]);
    assert_eq!(obj.errors.as_ref().unwrap()[0].code, "TEST_ERROR");
}

#[test]
fn mode_is_rendered_in_octal() {
    assert_eq!(format_mode(0o100644), "644");
    assert_eq!(format_mode(0o40755), "755");
    assert_eq!(format_mode(0o104755), "4755");
    assert_eq!(format_mode(0), "0");
}

#[test]
fn separators_are_replaced() {
    assert_eq!(replace_separator("a\\b\\c", '\\'), "a/b/c");
    assert_eq!(replace_separator("a/b", '/'), "a/b");
    assert_eq!(to_unix_like_string("dir/file.txt"), "dir/file.txt");
}

#[test]
fn elapsed_milliseconds() {
    assert_eq!(elapsed_ms(ts(10, 0), ts(12, 500_000_000)), 2500);
    assert_eq!(elapsed_ms(ts(10, 900_000_000), ts(11, 100_000_000)), 200);
    assert_eq!(elapsed_ms(ts(12, 0), ts(10, 0)), 0);
}

#[test]
fn test_error_conversions_from_strip_prefix() {
    let base = std::path::Path::new("/base");
    let other = std::path::Path::new("/other");

    if let Err(strip_error) = other.strip_prefix(base) {
        let scan_error: ScanError = ScanError::from_strip_prefix(&strip_error);
        match scan_error {
            ScanError::Io(_) => {}
            _ => panic!("StripPrefixError should convert to ScanError::Io"),
        }
    }
}

#[test]
fn failure_envelope_carries_one_error_and_exits_one() {
    let err = ScanError::PathNotFound("/missing".to_string()).to_plumbah_error();
    let obj = PlumbahObject::failure("galdi_snapshot", "0.1.0", err);
    assert_eq!(obj.status, Status::Error);
    assert_eq!(obj.status.exit_code(), 1);
    let errors = obj.errors.as_ref().unwrap();
    assert_eq!(errors.len(), 1);
    assert_eq!(errors[0].code, "PATH_NOT_FOUND");
    let meta = obj.meta.as_ref().unwrap();
    assert_eq!(meta.tool, "galdi_snapshot");
    assert!(meta.idempotent && !meta.mutates && meta.safe && meta.deterministic);
    assert_eq!(meta.profiles.as_ref().unwrap()[0].name, "_determinism");
}

#[test]
fn introspection_envelope_declares_semantics_only() {
    let obj = PlumbahObject::introspection("galdi_diff", "0.1.0");
    assert_eq!(obj.status, Status::Success);
    assert!(obj.errors.is_none() && obj.summary.is_none());
    assert_eq!(obj.meta.as_ref().unwrap().tool, "galdi_diff");
}

#[test]
fn relative_paths() {
    assert!(galdi::is_relative_path("a/b.txt"));
    assert!(galdi::is_relative_path(""));
    assert!(!galdi::is_relative_path("/etc/passwd"));
    assert!(!galdi::is_relative_path("\\server\\share"));
    assert!(!galdi::is_relative_path("C:\\Windows"));
}
