//! Content digests of regular files, formatted as "algorithm:hexdigest".
use vstd::prelude::*;

use crate::snapshot::{algorithm_name, ChecksumAlgorithm};
use crate::text::{be_bytes, hex_digit, hex_text, is_lower_hex, push_be_bytes, push_hex};

verus! {

/// The 64-bit XXH3 hash (default secret, seed zero) of the bytes.
pub uninterp spec fn xxh3_64_of(data: Seq<u8>) -> u64;

/// The SHA-256 digest of the bytes.
pub uninterp spec fn sha256_of(data: Seq<u8>) -> Seq<u8>;

/// The BLAKE3 digest (32 bytes, unkeyed) of the bytes.
pub uninterp spec fn blake3_of(data: Seq<u8>) -> Seq<u8>;

/// Relies on `xxhash_rust::xxh3::xxh3_64`: the one-shot XXH3 64-bit hash.
#[verifier::external_body]
fn xxh3_64_digest(data: &[u8]) -> (r: u64)
    ensures
        r == xxh3_64_of(data@),
{
    xxhash_rust::xxh3::xxh3_64(data)
}

/// Relies on `sha2::Sha256::digest`: a 32-byte digest.
#[verifier::external_body]
fn sha256_digest(data: &[u8]) -> (r: Vec<u8>)
    ensures
        r@ == sha256_of(data@),
        r@.len() == 32,
{
    <sha2::Sha256 as sha2::Digest>::digest(data).to_vec()
}

/// Relies on `blake3::hash`: a 32-byte digest.
#[verifier::external_body]
fn blake3_digest(data: &[u8]) -> (r: Vec<u8>)
    ensures
        r@ == blake3_of(data@),
        r@.len() == 32,
{
    blake3::hash(data).as_bytes().to_vec()
}

/// The digest of the bytes under an algorithm, as bytes; the 64-bit hash
/// is taken most significant byte first.
pub open spec fn digest_bytes(a: ChecksumAlgorithm, data: Seq<u8>) -> Seq<u8> {
    match a {
        ChecksumAlgorithm::XXH3_64 => be_bytes(xxh3_64_of(data) as nat, 8),
        ChecksumAlgorithm::Sha256 => sha256_of(data),
        ChecksumAlgorithm::Blake3 => blake3_of(data),
    }
}

/// The text of a checksum: the algorithm's name, ':', then the digest in
/// lowercase hexadecimal.
pub open spec fn checksum_with_digest(a: ChecksumAlgorithm, digest: Seq<u8>) -> Seq<char> {
    algorithm_name(a) + ":"@ + hex_text(digest)
}

/// The checksum of the bytes under an algorithm.
pub open spec fn checksum_text(a: ChecksumAlgorithm, data: Seq<u8>) -> Seq<char> {
    checksum_with_digest(a, digest_bytes(a, data))
}

/// Number of hexadecimal characters after the prefix.
pub open spec fn hex_len(a: ChecksumAlgorithm) -> nat {
    match a {
        ChecksumAlgorithm::XXH3_64 => 16,
        ChecksumAlgorithm::Sha256 => 64,
        ChecksumAlgorithm::Blake3 => 64,
    }
}

/// Formats a digest as a checksum of the given algorithm.
pub fn format_checksum(algorithm: ChecksumAlgorithm, digest: &[u8]) -> (r: String)
    ensures
        r@ == checksum_with_digest(algorithm, digest@),
{
    let mut out = String::from_str(algorithm.name());
    out.append(":");
    push_hex(&mut out, digest);
    out
}

/// The digest of the bytes under an algorithm.
pub fn digest_of(algorithm: ChecksumAlgorithm, data: &[u8]) -> (r: Vec<u8>)
    ensures
        r@ == digest_bytes(algorithm, data@),
        2 * r@.len() == hex_len(algorithm),
{
    match algorithm {
        ChecksumAlgorithm::XXH3_64 => {
            let h = xxh3_64_digest(data);
            let mut out = Vec::new();
            push_be_bytes(&mut out, h, 8);
            assert(out@ =~= be_bytes(h as nat, 8));
            proof {
                lemma_be_bytes_len(h as nat, 8);
            }
            out
        },
        ChecksumAlgorithm::Sha256 => sha256_digest(data),
        ChecksumAlgorithm::Blake3 => blake3_digest(data),
    }
}

/// The checksum of a file's content under an algorithm.
pub fn checksum_content(algorithm: ChecksumAlgorithm, data: &[u8]) -> (r: String)
    ensures
        r@ == checksum_text(algorithm, data@),
        r@.len() == algorithm_name(algorithm).len() + 1 + hex_len(algorithm),
        r@.subrange(0, algorithm_name(algorithm).len() + 1int) == algorithm_name(algorithm) + ":"@,
{
    let digest = digest_of(algorithm, data);
    proof {
        lemma_checksum_format(algorithm, digest@);
    }
    format_checksum(algorithm, digest.as_slice())
}

/// Computes content checksums under one algorithm.
pub trait GaldiHasher {
    spec fn algorithm(&self) -> ChecksumAlgorithm;

    /// The checksum of the content under this hasher's algorithm.
    fn hash_content(&self, data: &[u8]) -> (r: String)
        ensures
            r@ == checksum_text(self.algorithm(), data@),
            r@.len() == algorithm_name(self.algorithm()).len() + 1 + hex_len(self.algorithm()),
    ;
}

/// XXH3, 64 bits.
pub struct XXH3_64Hasher;

/// SHA-256.
pub struct Sha256Hasher;

/// BLAKE3.
pub struct Blake3Hasher;

impl GaldiHasher for XXH3_64Hasher {
    open spec fn algorithm(&self) -> ChecksumAlgorithm {
        ChecksumAlgorithm::XXH3_64
    }

    fn hash_content(&self, data: &[u8]) -> (r: String) {
        checksum_content(ChecksumAlgorithm::XXH3_64, data)
    }
}

impl GaldiHasher for Sha256Hasher {
    open spec fn algorithm(&self) -> ChecksumAlgorithm {
        ChecksumAlgorithm::Sha256
    }

    fn hash_content(&self, data: &[u8]) -> (r: String) {
        checksum_content(ChecksumAlgorithm::Sha256, data)
    }
}

impl GaldiHasher for Blake3Hasher {
    open spec fn algorithm(&self) -> ChecksumAlgorithm {
        ChecksumAlgorithm::Blake3
    }

    fn hash_content(&self, data: &[u8]) -> (r: String) {
        checksum_content(ChecksumAlgorithm::Blake3, data)
    }
}

/// One of the three hashers, chosen at run time.
pub enum AnyHasher {
    XXH3_64(XXH3_64Hasher),
    Sha256(Sha256Hasher),
    Blake3(Blake3Hasher),
}

impl GaldiHasher for AnyHasher {
    open spec fn algorithm(&self) -> ChecksumAlgorithm {
        match self {
            AnyHasher::XXH3_64(_) => ChecksumAlgorithm::XXH3_64,
            AnyHasher::Sha256(_) => ChecksumAlgorithm::Sha256,
            AnyHasher::Blake3(_) => ChecksumAlgorithm::Blake3,
        }
    }

    fn hash_content(&self, data: &[u8]) -> (r: String) {
        match self {
            AnyHasher::XXH3_64(h) => h.hash_content(data),
            AnyHasher::Sha256(h) => h.hash_content(data),
            AnyHasher::Blake3(h) => h.hash_content(data),
        }
    }
}

/// The hasher for an algorithm.
pub fn get_hasher(algorithm: ChecksumAlgorithm) -> (r: AnyHasher)
    ensures
        r.algorithm() == algorithm,
{
    match algorithm {
        ChecksumAlgorithm::XXH3_64 => AnyHasher::XXH3_64(XXH3_64Hasher),
        ChecksumAlgorithm::Sha256 => AnyHasher::Sha256(Sha256Hasher),
        ChecksumAlgorithm::Blake3 => AnyHasher::Blake3(Blake3Hasher),
    }
}

proof fn lemma_hex_text(b: Seq<u8>)
    ensures
        hex_text(b).len() == 2 * b.len(),
        is_lower_hex(hex_text(b)),
    decreases b.len(),
{
    if b.len() > 0 {
        lemma_hex_text(b.drop_last());
        let last = b.last() as nat;
        let prev = hex_text(b.drop_last());
        let t = hex_text(b);
        assert forall|i: int| 0 <= i < t.len() implies exists|d: nat|
            d < 16 && #[trigger] t[i] == hex_digit(d) by {
            if i < prev.len() {
                assert(t[i] == prev[i]);
            } else if i == prev.len() {
                assert(t[i] == hex_digit(last / 16));
            } else {
                assert(t[i] == hex_digit(last % 16));
            }
        }
    }
}

pub proof fn lemma_be_bytes_len(x: nat, n: nat)
    ensures
        be_bytes(x, n).len() == n,
    decreases n,
{
    if n > 0 {
        lemma_be_bytes_len(x / 256, (n - 1) as nat);
    }
}

/// A checksum is the algorithm's name, a colon, and two lowercase
/// hexadecimal digits per digest byte.
pub proof fn lemma_checksum_format(a: ChecksumAlgorithm, digest: Seq<u8>)
    ensures
        checksum_with_digest(a, digest).subrange(0, algorithm_name(a).len() + 1int)
            == algorithm_name(a) + ":"@,
        checksum_with_digest(a, digest).len() == algorithm_name(a).len() + 1 + 2 * digest.len(),
        is_lower_hex(
            checksum_with_digest(a, digest).subrange(
                algorithm_name(a).len() + 1int,
                checksum_with_digest(a, digest).len() as int,
            ),
        ),
{
    reveal_strlit(":");
    lemma_hex_text(digest);
    let head = algorithm_name(a) + ":"@;
    let t = checksum_with_digest(a, digest);
    assert(t.subrange(0, head.len() as int) =~= head);
    assert(t.subrange(head.len() as int, t.len() as int) =~= hex_text(digest));
}

} // verus!
