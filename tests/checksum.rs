use galdi::{
    checksum_content, format_checksum, get_hasher, Blake3Hasher, ChecksumAlgorithm, GaldiHasher,
    Sha256Hasher, XXH3_64Hasher,
};

#[test]
fn test_xxh3_format_is_16_hex_chars() {
    let hasher = XXH3_64Hasher;
    let result = hasher.hash_content(b"test content");
    assert!(result.starts_with("xxh3_64:"));
    let hex_part = &result[8..];
    assert_eq!(hex_part.len(), 16, "XXH3_64 should produce 16 hex chars");
    assert!(hex_part.chars().all(|c| c.is_ascii_hexdigit()));
}

#[test]
fn test_sha256_format_is_64_hex_chars() {
    let hasher = Sha256Hasher;
    let result = hasher.hash_content(b"test content");
    assert!(result.starts_with("sha256:"));
    let hex_part = &result[7..];
    assert_eq!(hex_part.len(), 64, "SHA256 should produce 64 hex chars");
    assert!(hex_part.chars().all(|c| c.is_ascii_hexdigit()));
    assert!(hex_part.chars().all(|c| !c.is_uppercase()));
}

#[test]
fn test_xxh3_has_correct_prefix() {
    let hasher = XXH3_64Hasher;
    let result = hasher.hash_content(b"hello");
    assert!(
        result.starts_with("xxh3_64:"),
        "XXH3 checksum should start with 'xxh3_64:'"
    );
}

#[test]
fn test_sha256_has_correct_prefix() {
    let hasher = Sha256Hasher;
    let result = hasher.hash_content(b"hello");
    assert!(
        result.starts_with("sha256:"),
        "SHA256 checksum should start with 'sha256:'"
    );
}

#[test]
fn test_empty_file_known_hash_xxh3() {
    let hasher = XXH3_64Hasher;
    let result = hasher.hash_content(b"");
    assert_eq!(result, "xxh3_64:2d06800538d394c2");
}

#[test]
fn test_empty_file_known_hash_sha256() {
    let hasher = Sha256Hasher;
    let result = hasher.hash_content(b"");
    assert_eq!(
        result,
        "sha256:e3b0c44298fc1c149afbf4c8996fb92427ae41e4649b934ca495991b7852b855"
    );
}

#[test]
fn test_known_content_sha256() {
    let hasher = Sha256Hasher;
    let result = hasher.hash_content(b"hello world");
    assert_eq!(
        result,
        "sha256:b94d27b9934d3e08a52e52d7da7dabfac484efe37a5380ee9088f7ace2efcde9"
    );
}

#[test]
fn test_get_hasher_xxh3() {
    let hasher = get_hasher(ChecksumAlgorithm::XXH3_64);
    let result = hasher.hash_content(b"test");
    assert!(result.starts_with("xxh3_64:"));
}

#[test]
fn test_get_hasher_sha256() {
    let hasher = get_hasher(ChecksumAlgorithm::Sha256);
    let result = hasher.hash_content(b"test");
    assert!(result.starts_with("sha256:"));
}

#[test]
fn test_blake3_format_is_64_hex_chars() {
    let hasher = Blake3Hasher;
    let result = hasher.hash_content(b"test content");
    assert!(result.starts_with("blake3:"));
    let hex_part = &result[7..];
    assert_eq!(hex_part.len(), 64, "Blake3 should produce 64 hex chars");
    assert!(hex_part.chars().all(|c| c.is_ascii_hexdigit()));
}

#[test]
fn test_blake3_has_correct_prefix() {
    let hasher = Blake3Hasher;
    let result = hasher.hash_content(b"hello");
    assert!(
        result.starts_with("blake3:"),
        "Blake3 checksum should start with 'blake3:'"
    );
}

#[test]
fn test_blake3_lowercase_hex() {
    let hasher = Blake3Hasher;
    let result = hasher.hash_content(b"test");
    let hex_part = &result[7..];
    assert!(hex_part.chars().all(|c| !c.is_uppercase()));
}

#[test]
fn test_empty_file_known_hash_blake3() {
    let hasher = Blake3Hasher;
    let result = hasher.hash_content(b"");
    assert_eq!(
        result,
        "blake3:af1349b9f5f9a1a6a0404dea36dcc9499bcb25c9adc112b7cc9a93cae41f3262"
    );
}

#[test]
fn test_known_content_blake3() {
    let hasher = Blake3Hasher;
    let result = hasher.hash_content(b"hello world");
    assert_eq!(
        result,
        "blake3:d74981efa70a0c880b8d8c1985d075dbcbf679b99a5f9914e5aaf96b831a9e24"
    );
}

#[test]
fn test_get_hasher_blake3() {
    let hasher = get_hasher(ChecksumAlgorithm::Blake3);
    let result = hasher.hash_content(b"test");
    assert!(result.starts_with("blake3:"));
}

#[test]
fn test_hash_small_file() {
    let content = b"This is a small test file with some content.";
    let xxh3 = checksum_content(ChecksumAlgorithm::XXH3_64, content);
    let sha = checksum_content(ChecksumAlgorithm::Sha256, content);
    assert!(xxh3.starts_with("xxh3_64:"));
    assert!(sha.starts_with("sha256:"));
}

#[test]
fn test_hash_medium_file() {
    let content: Vec<u8> = (0..1024 * 1024).map(|i| (i % 256) as u8).collect();
    let xxh3 = checksum_content(ChecksumAlgorithm::XXH3_64, &content);
    let sha = checksum_content(ChecksumAlgorithm::Sha256, &content);
    assert_eq!(xxh3.len(), 8 + 16);
    assert_eq!(sha.len(), 7 + 64);
}

#[test]
fn test_hash_identical_files_same_hash() {
    let content = b"Identical content for both files";
    assert_eq!(
        checksum_content(ChecksumAlgorithm::XXH3_64, content),
        checksum_content(ChecksumAlgorithm::XXH3_64, content),
        "Identical files should have same XXH3 hash"
    );
    assert_eq!(
        checksum_content(ChecksumAlgorithm::Sha256, content),
        checksum_content(ChecksumAlgorithm::Sha256, content),
        "Identical files should have same SHA256 hash"
    );
}

#[test]
fn test_hash_different_files_different_hash() {
    assert_ne!(
        checksum_content(ChecksumAlgorithm::XXH3_64, b"content A"),
        checksum_content(ChecksumAlgorithm::XXH3_64, b"content B"),
        "Different files should have different XXH3 hashes"
    );
    assert_ne!(
        checksum_content(ChecksumAlgorithm::Sha256, b"content A"),
        checksum_content(ChecksumAlgorithm::Sha256, b"content B"),
        "Different files should have different SHA256 hashes"
    );
}

#[test]
fn test_hash_determinism_10_runs() {
    let content = b"Determinism test content";
    let first_xxh3 = checksum_content(ChecksumAlgorithm::XXH3_64, content);
    let first_sha = checksum_content(ChecksumAlgorithm::Sha256, content);
    for _ in 0..10 {
        assert_eq!(
            checksum_content(ChecksumAlgorithm::XXH3_64, content),
            first_xxh3,
            "XXH3 hash should be deterministic across multiple runs"
        );
        assert_eq!(
            checksum_content(ChecksumAlgorithm::Sha256, content),
            first_sha,
            "SHA256 hash should be deterministic across multiple runs"
        );
    }
}

#[test]
fn test_hash_empty_file() {
    assert_eq!(
        checksum_content(ChecksumAlgorithm::XXH3_64, b""),
        "xxh3_64:2d06800538d394c2"
    );
    assert_eq!(
        checksum_content(ChecksumAlgorithm::Sha256, b""),
        "sha256:e3b0c44298fc1c149afbf4c8996fb92427ae41e4649b934ca495991b7852b855"
    );
}

#[test]
fn test_hash_file_with_null_bytes() {
    let content = b"\x00\x00\x00\x00\x00";
    let xxh3 = checksum_content(ChecksumAlgorithm::XXH3_64, content);
    let sha = checksum_content(ChecksumAlgorithm::Sha256, content);
    assert_ne!(xxh3, checksum_content(ChecksumAlgorithm::XXH3_64, b""));
    assert_ne!(sha, checksum_content(ChecksumAlgorithm::Sha256, b""));
}

#[test]
fn test_hash_exactly_8192_bytes() {
    let content = vec![0xABu8; 8192];
    let xxh3 = checksum_content(ChecksumAlgorithm::XXH3_64, &content);
    assert_eq!(xxh3.len(), 8 + 16);
}

#[test]
fn test_hash_8191_bytes() {
    let content = vec![0xABu8; 8191];
    let xxh3 = checksum_content(ChecksumAlgorithm::XXH3_64, &content);
    assert_eq!(xxh3.len(), 8 + 16);
}

#[test]
fn test_hash_8193_bytes() {
    let content = vec![0xABu8; 8193];
    let xxh3 = checksum_content(ChecksumAlgorithm::XXH3_64, &content);
    assert_eq!(xxh3.len(), 8 + 16);
}

#[test]
fn checksum_of_blake3_empty_and_distinct_content() {
    let empty = checksum_content(ChecksumAlgorithm::Blake3, b"");
    assert_eq!(
        empty,
        "blake3:af1349b9f5f9a1a6a0404dea36dcc9499bcb25c9adc112b7cc9a93cae41f3262"
    );
    assert_ne!(
        checksum_content(ChecksumAlgorithm::Blake3, b"content A"),
        checksum_content(ChecksumAlgorithm::Blake3, b"content B")
    );
}

#[test]
fn format_checksum_renders_digest_bytes_as_lowercase_hex() {
    assert_eq!(
        format_checksum(ChecksumAlgorithm::XXH3_64, &[0x2d, 0x06, 0x80, 0x05, 0x38, 0xd3, 0x94, 0xc2]),
        "xxh3_64:2d06800538d394c2"
    );
    assert_eq!(format_checksum(ChecksumAlgorithm::Sha256, &[0x00, 0xff, 0x0a]), "sha256:00ff0a");
    assert_eq!(format_checksum(ChecksumAlgorithm::Blake3, &[]), "blake3:");
}

#[test]
fn digest_lengths_per_algorithm() {
    assert_eq!(galdi::digest_of(ChecksumAlgorithm::XXH3_64, b"x").len(), 8);
    assert_eq!(galdi::digest_of(ChecksumAlgorithm::Sha256, b"x").len(), 32);
    assert_eq!(galdi::digest_of(ChecksumAlgorithm::Blake3, b"x").len(), 32);
}
