//! Filesystem snapshots: typed inventories of a directory tree, a path-keyed
//! comparison of two inventories, and the status envelope and line framing
//! that carry both to their consumers.

pub mod checksum;
pub mod diff;
pub mod digest_stream;
pub mod error;
pub mod plumbah;
pub mod scan;
pub mod snapshot;
pub mod sort;
pub mod stream;
pub mod text;

pub use checksum::{
    checksum_content, lemma_checksum_format, digest_of, AnyHasher, format_checksum, get_hasher, Blake3Hasher, GaldiHasher,
    Sha256Hasher, XXH3_64Hasher,
};
pub use diff::{
    lemma_diff_from_empty, lemma_diff_reflexive, lemma_diff_symmetric, AttributeChange,
    ChangeType, DiffEngine, DiffOptions, DiffResult, DiffSummary, Difference, DIFF_TOOL,
};
pub use digest_stream::{Blake3Stream, ContentHasher, Xxh3Stream};
pub use error::ScanError;
pub use plumbah::{
    Meta, PlumbahError, PlumbahObject, ProfileMetadata, Status, StreamSummary, PLUMBAH_LEVEL,
    PLUMBAH_VERSION,
};
pub use scan::{
    entry_type_of, lemma_sorted_entries_unique, format_attributes, format_mode, format_permissions,
    PermissionBits, EntryMetadata, ScanOptions, Scanner, ScannerRef,
    IGNORE_FILE_NAME, SNAPSHOT_TOOL, TOOL_VERSION,
};
pub use snapshot::{
    elapsed_ms, is_relative_path, path_le_exec, ChecksumAlgorithm, EntryType, Snapshot, SnapshotEntry, Timestamp,
    SNAPSHOT_VERSION,
};
pub use stream::{LineKind, StreamErrorLine, StreamHead, StreamPhase, StreamingOutput};
pub use text::{
    hex_digit_char, push_be_bytes, push_hex, push_octal, replace_separator, text_eq,
    to_unix_like_string,
};
