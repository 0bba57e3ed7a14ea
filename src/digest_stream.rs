//! Incremental digests, fed a chunk at a time, so that a file's content
//! need not be held whole.
use vstd::prelude::*;

use crate::checksum::{
    blake3_of, checksum_text, format_checksum, hex_len, lemma_be_bytes_len, lemma_checksum_format,
    sha256_of, xxh3_64_of,
};
use crate::snapshot::algorithm_name;
use crate::snapshot::ChecksumAlgorithm;
use crate::text::{be_bytes, push_be_bytes};

verus! {

#[verifier::external_type_specification]
#[verifier::external_body]
pub struct ExXxh3Default(xxhash_rust::xxh3::Xxh3Default);

#[verifier::external_type_specification]
#[verifier::external_body]
pub struct ExBlake3Hasher(blake3::Hasher);

/// An XXH3 (64-bit, default secret, seed zero) state and, as a ghost, the
/// bytes it has hashed.
pub struct Xxh3Stream {
    state: xxhash_rust::xxh3::Xxh3Default,
    fed: Ghost<Seq<u8>>,
}

impl Xxh3Stream {
    pub closed spec fn fed(&self) -> Seq<u8> {
        self.fed@
    }

    /// Relies on `Xxh3Default::new`: a state that has hashed nothing.
    #[verifier::external_body]
    pub fn new() -> (r: Xxh3Stream)
        ensures
            r.fed() == Seq::<u8>::empty(),
    {
        Xxh3Stream { state: xxhash_rust::xxh3::Xxh3Default::new(), fed: Ghost(Seq::empty()) }
    }

    /// Relies on `Xxh3Default::update`: the state goes on to hash `chunk`.
    #[verifier::external_body]
    pub fn update(&mut self, chunk: &[u8])
        ensures
            final(self).fed() == old(self).fed() + chunk@,
    {
        self.state.update(chunk);
    }

    /// Relies on `Xxh3Default::digest`: the hash of everything fed, as the
    /// one-shot `xxh3_64` gives it.
    #[verifier::external_body]
    pub fn digest(&self) -> (r: u64)
        ensures
            r == xxh3_64_of(self.fed()),
    {
        self.state.digest()
    }
}

/// A BLAKE3 state and, as a ghost, the bytes it has hashed.
pub struct Blake3Stream {
    state: blake3::Hasher,
    fed: Ghost<Seq<u8>>,
}

impl Blake3Stream {
    pub closed spec fn fed(&self) -> Seq<u8> {
        self.fed@
    }

    /// Relies on `blake3::Hasher::new`: a state that has hashed nothing.
    #[verifier::external_body]
    pub fn new() -> (r: Blake3Stream)
        ensures
            r.fed() == Seq::<u8>::empty(),
    {
        Blake3Stream { state: blake3::Hasher::new(), fed: Ghost(Seq::empty()) }
    }

    /// Relies on `blake3::Hasher::update`: the state goes on to hash `chunk`.
    #[verifier::external_body]
    pub fn update(&mut self, chunk: &[u8])
        ensures
            final(self).fed() == old(self).fed() + chunk@,
    {
        self.state.update(chunk);
    }

    /// Relies on `blake3::Hasher::finalize`: the 32-byte hash of everything
    /// fed, as the one-shot `blake3::hash` gives it.
    #[verifier::external_body]
    pub fn finalize(&self) -> (r: Vec<u8>)
        ensures
            r@ == blake3_of(self.fed()),
            r@.len() == 32,
    {
        self.state.finalize().as_bytes().to_vec()
    }
}

/// The SHA-256 state. Verus refuses a declaration of `sha2::Sha256`, an
/// alias of digest's generic core wrappers bounded by typenum operators, so
/// the state is held here out of Verus's sight.
#[verifier::external_body]
struct Sha256State {
    inner: sha2::Sha256,
}

/// A SHA-256 state and, as a ghost, the bytes it has hashed.
pub struct Sha256Stream {
    state: Sha256State,
    fed: Ghost<Seq<u8>>,
}

impl Sha256Stream {
    pub closed spec fn fed(&self) -> Seq<u8> {
        self.fed@
    }

    /// Relies on `Sha256::default` (`Digest::new`): a state that has hashed
    /// nothing.
    #[verifier::external_body]
    pub fn new() -> (r: Sha256Stream)
        ensures
            r.fed() == Seq::<u8>::empty(),
    {
        Sha256Stream {
            state: Sha256State { inner: <sha2::Sha256 as sha2::Digest>::new() },
            fed: Ghost(Seq::empty()),
        }
    }

    /// Relies on `Digest::update` for `Sha256`: the state goes on to hash
    /// `chunk`.
    #[verifier::external_body]
    pub fn update(&mut self, chunk: &[u8])
        ensures
            final(self).fed() == old(self).fed() + chunk@,
    {
        <sha2::Sha256 as sha2::Digest>::update(&mut self.state.inner, chunk);
    }

    /// Relies on `Digest::finalize` for `Sha256`, applied to a copy of the
    /// state: the 32-byte digest of everything fed, as the one-shot
    /// `Digest::digest` gives it.
    #[verifier::external_body]
    pub fn finalize(&self) -> (r: Vec<u8>)
        ensures
            r@ == sha256_of(self.fed()),
            r@.len() == 32,
    {
        <sha2::Sha256 as sha2::Digest>::finalize(self.state.inner.clone()).to_vec()
    }
}

/// A content digest in progress under one algorithm.
pub enum ContentHasher {
    XXH3_64(Xxh3Stream),
    Sha256(Sha256Stream),
    Blake3(Blake3Stream),
}

impl ContentHasher {
    pub open spec fn algorithm_spec(&self) -> ChecksumAlgorithm {
        match self {
            ContentHasher::XXH3_64(_) => ChecksumAlgorithm::XXH3_64,
            ContentHasher::Sha256(_) => ChecksumAlgorithm::Sha256,
            ContentHasher::Blake3(_) => ChecksumAlgorithm::Blake3,
        }
    }

    /// The bytes fed so far.
    pub open spec fn fed(&self) -> Seq<u8> {
        match self {
            ContentHasher::XXH3_64(s) => s.fed(),
            ContentHasher::Sha256(s) => s.fed(),
            ContentHasher::Blake3(s) => s.fed(),
        }
    }

    /// A digest in progress that has been fed nothing.
    pub fn new(algorithm: ChecksumAlgorithm) -> (r: ContentHasher)
        ensures
            r.algorithm_spec() == algorithm,
            r.fed() == Seq::<u8>::empty(),
    {
        match algorithm {
            ChecksumAlgorithm::XXH3_64 => ContentHasher::XXH3_64(Xxh3Stream::new()),
            ChecksumAlgorithm::Sha256 => ContentHasher::Sha256(Sha256Stream::new()),
            ChecksumAlgorithm::Blake3 => ContentHasher::Blake3(Blake3Stream::new()),
        }
    }

    /// Feeds the next chunk of content.
    pub fn update(&mut self, chunk: &[u8])
        ensures
            final(self).algorithm_spec() == old(self).algorithm_spec(),
            final(self).fed() == old(self).fed() + chunk@,
    {
        match self {
            ContentHasher::XXH3_64(s) => s.update(chunk),
            ContentHasher::Sha256(s) => s.update(chunk),
            ContentHasher::Blake3(s) => s.update(chunk),
        }
    }

    /// The checksum of everything fed, of the algorithm's exact length.
    pub fn finish(&self) -> (r: String)
        ensures
            r@ == checksum_text(self.algorithm_spec(), self.fed()),
            r@.len() == algorithm_name(self.algorithm_spec()).len() + 1 + hex_len(
                self.algorithm_spec(),
            ),
    {
        let alg = match self {
            ContentHasher::XXH3_64(_) => ChecksumAlgorithm::XXH3_64,
            ContentHasher::Sha256(_) => ChecksumAlgorithm::Sha256,
            ContentHasher::Blake3(_) => ChecksumAlgorithm::Blake3,
        };
        let digest = match self {
            ContentHasher::XXH3_64(s) => {
                let h = s.digest();
                let mut out = Vec::new();
                push_be_bytes(&mut out, h, 8);
                assert(out@ =~= be_bytes(h as nat, 8));
                proof {
                    lemma_be_bytes_len(h as nat, 8);
                }
                out
            },
            ContentHasher::Sha256(s) => s.finalize(),
            ContentHasher::Blake3(s) => s.finalize(),
        };
        proof {
            lemma_checksum_format(alg, digest@);
        }
        format_checksum(alg, digest.as_slice())
    }
}

} // verus!
