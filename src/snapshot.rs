//! The snapshot data model: entries, their types, timestamps, the checksum
//! algorithms, and the order in which entries are listed.
use vstd::prelude::*;

use crate::plumbah::PlumbahObject;
use crate::text::{chars_of, lower_of, lowercase, text_eq};

verus! {

/// The kind of filesystem object an entry describes.
#[derive(Debug, Clone, Copy, PartialEq, Eq, Structural)]
pub enum EntryType {
    /// Special files not mapped specifically: devices, FIFOs, sockets.
    Undefined,
    File,
    Directory,
    Symlink,
}

/// The content digest algorithms that can be configured.
#[derive(Debug, Clone, Copy, PartialEq, Eq, Structural)]
#[allow(non_camel_case_types)]
pub enum ChecksumAlgorithm {
    /// Fast non-cryptographic 64-bit hash.
    XXH3_64,
    /// Cryptographic 256-bit hash.
    Sha256,
    /// Cryptographic 256-bit tree hash.
    Blake3,
}

/// A point in time: whole seconds since the Unix epoch and the nanoseconds
/// past that second.
#[derive(Debug, Clone, Copy, PartialEq, Eq, Structural)]
pub struct Timestamp {
    pub seconds: i64,
    pub nanos: u32,
}

/// Relies on chrono's conversion of `std::time::SystemTime::now()` into a
/// `DateTime<Utc>`, which also handles clocks set before 1970, read as
/// seconds and subsecond nanoseconds. Nothing is promised of the value: it
/// is the clock's.
#[verifier::external_body]
pub(crate) fn current_time() -> (r: Timestamp) {
    let now = chrono::DateTime::<chrono::Utc>::from(std::time::SystemTime::now());
    Timestamp { seconds: now.timestamp(), nanos: now.timestamp_subsec_nanos() }
}

/// Milliseconds from `start` to `end`, zero when `end` is not later.
pub open spec fn elapsed_ms_spec(start: Timestamp, end: Timestamp) -> int {
    let ns = (end.seconds - start.seconds) * 1_000_000_000 + (end.nanos - start.nanos);
    if ns <= 0 {
        0
    } else if ns / 1_000_000 > u64::MAX {
        u64::MAX as int
    } else {
        ns / 1_000_000
    }
}

/// Milliseconds from `start` to `end`, zero when `end` is not later.
pub fn elapsed_ms(start: Timestamp, end: Timestamp) -> (r: u64)
    ensures
        r == elapsed_ms_spec(start, end),
{
    let ns: i128 = (end.seconds as i128 - start.seconds as i128) * 1_000_000_000 + (
    end.nanos as i128 - start.nanos as i128);
    if ns <= 0 {
        return 0;
    }
    let ms: i128 = ns / 1_000_000;
    if ms > u64::MAX as i128 {
        u64::MAX
    } else {
        ms as u64
    }
}

/// One filesystem object. `path` is relative to the snapshot's root.
#[derive(Debug, Clone)]
pub struct SnapshotEntry {
    pub path: String,
    pub entry_type: EntryType,
    pub size: Option<u64>,
    /// Permission bits as an octal string, e.g. "644".
    pub mode: Option<String>,
    pub mtime: Timestamp,
    /// "algorithm:hexdigest", for files only.
    pub checksum: Option<String>,
    /// The link target, for symlinks only.
    pub target: Option<String>,
}

/// The mathematical value of an entry.
pub struct EntryView {
    pub path: Seq<char>,
    pub entry_type: EntryType,
    pub size: Option<u64>,
    pub mode: Option<Seq<char>>,
    pub mtime: Timestamp,
    pub checksum: Option<Seq<char>>,
    pub target: Option<Seq<char>>,
}

pub open spec fn text_view(o: Option<String>) -> Option<Seq<char>> {
    match o {
        Some(s) => Some(s@),
        None => None,
    }
}

impl View for SnapshotEntry {
    type V = EntryView;

    open spec fn view(&self) -> EntryView {
        EntryView {
            path: self.path@,
            entry_type: self.entry_type,
            size: self.size,
            mode: text_view(self.mode),
            mtime: self.mtime,
            checksum: text_view(self.checksum),
            target: text_view(self.target),
        }
    }
}

/// A copy of an optional string.
pub fn clone_text(o: &Option<String>) -> (r: Option<String>)
    ensures
        text_view(r) == text_view(*o),
{
    match o {
        Some(s) => Some(s.clone()),
        None => None,
    }
}

impl SnapshotEntry {
    /// A copy of the entry.
    pub fn duplicate(&self) -> (r: SnapshotEntry)
        ensures
            r@ == self@,
    {
        SnapshotEntry {
            path: self.path.clone(),
            entry_type: self.entry_type,
            size: self.size,
            mode: clone_text(&self.mode),
            mtime: self.mtime,
            checksum: clone_text(&self.checksum),
            target: clone_text(&self.target),
        }
    }
}

/// A path that names no root: it begins with no separator and no drive.
pub open spec fn is_relative(p: Seq<char>) -> bool {
    &&& (p.len() > 0 ==> p[0] != '/' && p[0] != '\\')
    &&& (p.len() > 1 ==> p[1] != ':')
}

/// Whether the path names no root.
pub fn is_relative_path(p: &str) -> (r: bool)
    ensures
        r == is_relative(p@),
{
    let cs = chars_of(p);
    if cs.len() > 0 && (cs[0] == '/' || cs[0] == '\\') {
        return false;
    }
    if cs.len() > 1 && cs[1] == ':' {
        return false;
    }
    true
}

/// A checksum exactly for files and a link target exactly for symlinks.
pub open spec fn entry_wf(e: EntryView) -> bool {
    &&& is_relative(e.path)
    &&& (e.checksum is Some <==> e.entry_type == EntryType::File)
    &&& (e.target is Some <==> e.entry_type == EntryType::Symlink)
}

pub open spec fn entries_view(s: Seq<SnapshotEntry>) -> Seq<EntryView> {
    s.map_values(|e: SnapshotEntry| e@)
}

/// Order of characters within paths: the separator sorts before every other
/// character, so that paths order component by component.
pub open spec fn char_lt(x: char, y: char) -> bool {
    x != y && (x == '/' || (y != '/' && (x as int) < (y as int)))
}

pub open spec fn path_le_from(a: Seq<char>, b: Seq<char>, i: nat) -> bool
    decreases a.len() - i,
{
    if i >= a.len() {
        true
    } else if i >= b.len() {
        false
    } else if a[i as int] != b[i as int] {
        char_lt(a[i as int], b[i as int])
    } else {
        path_le_from(a, b, i + 1)
    }
}

/// The order of paths: component by component, each component compared
/// character by character, a prefix before its extensions.
pub open spec fn path_le(a: Seq<char>, b: Seq<char>) -> bool {
    path_le_from(a, b, 0)
}

/// The entries are listed in path order.
pub open spec fn sorted_by_path(s: Seq<EntryView>) -> bool {
    forall|i: int, j: int| 0 <= i < j < s.len() ==> path_le(#[trigger] s[i].path, #[trigger] s[j].path)
}

pub proof fn lemma_path_le_from_total(a: Seq<char>, b: Seq<char>, i: nat)
    ensures
        path_le_from(a, b, i) || path_le_from(b, a, i),
    decreases a.len() - i,
{
    if i < a.len() && i < b.len() && a[i as int] == b[i as int] {
        lemma_path_le_from_total(a, b, i + 1);
    }
}

pub proof fn lemma_path_le_from_trans(a: Seq<char>, b: Seq<char>, c: Seq<char>, i: nat)
    requires
        path_le_from(a, b, i),
        path_le_from(b, c, i),
    ensures
        path_le_from(a, c, i),
    decreases a.len() - i,
{
    if i < a.len() && i < b.len() && i < c.len() && a[i as int] == b[i as int] && b[i as int]
        == c[i as int] {
        lemma_path_le_from_trans(a, b, c, i + 1);
    }
}

pub proof fn lemma_path_le_from_refl(a: Seq<char>, i: nat)
    ensures
        path_le_from(a, a, i),
    decreases a.len() - i,
{
    if i < a.len() {
        lemma_path_le_from_refl(a, i + 1);
    }
}

pub open spec fn path_lt(a: Seq<char>, b: Seq<char>) -> bool {
    path_le(a, b) && a != b
}

pub proof fn lemma_path_le_antisym(a: Seq<char>, b: Seq<char>, i: nat)
    requires
        path_le_from(a, b, i),
        path_le_from(b, a, i),
        i <= a.len(),
        i <= b.len(),
        a.subrange(0, i as int) == b.subrange(0, i as int),
    ensures
        a == b,
    decreases a.len() - i,
{
    if i < a.len() && i < b.len() {
        assert(a[i as int] == b[i as int]);
        assert(a.subrange(0, i + 1int) =~= a.subrange(0, i as int).push(a[i as int]));
        assert(b.subrange(0, i + 1int) =~= b.subrange(0, i as int).push(b[i as int]));
        lemma_path_le_antisym(a, b, i + 1);
    } else {
        assert(a.len() == i && b.len() == i);
        assert(a =~= a.subrange(0, i as int));
        assert(b =~= b.subrange(0, i as int));
    }
}

pub proof fn lemma_path_lt_trans(a: Seq<char>, b: Seq<char>, c: Seq<char>)
    requires
        path_lt(a, b),
        path_le(b, c),
    ensures
        path_lt(a, c),
{
    lemma_path_le_from_trans(a, b, c, 0);
    if a == c {
        assert(a.subrange(0, 0) =~= b.subrange(0, 0));
        lemma_path_le_antisym(a, b, 0);
    }
}

/// Whether two character vectors are equal.
pub fn chars_eq(a: &Vec<char>, b: &Vec<char>) -> (r: bool)
    ensures
        r == (a@ == b@),
{
    if a.len() != b.len() {
        return false;
    }
    let mut i: usize = 0;
    while i < a.len()
        invariant
            a@.len() == b@.len(),
            0 <= i <= a@.len(),
            forall|j: int| 0 <= j < i ==> a@[j] == b@[j],
        decreases a@.len() - i,
    {
        if a[i] != b[i] {
            return false;
        }
        i = i + 1;
    }
    assert(a@ =~= b@);
    true
}

/// Whether `a` comes no later than `b` in path order.
pub fn path_le_exec(a: &Vec<char>, b: &Vec<char>) -> (r: bool)
    ensures
        r == path_le(a@, b@),
{
    let mut i: usize = 0;
    while i < a.len() && i < b.len()
        invariant
            0 <= i <= a@.len(),
            path_le(a@, b@) == path_le_from(a@, b@, i as nat),
        decreases a@.len() - i,
    {
        let ca = a[i];
        let cb = b[i];
        if ca != cb {
            if ca == '/' {
                return true;
            } else if cb == '/' {
                return false;
            } else {
                return ca < cb;
            }
        }
        i = i + 1;
    }
    i >= a.len()
}

/// The name under which an algorithm is configured and prefixed to digests.
pub open spec fn algorithm_name(a: ChecksumAlgorithm) -> Seq<char> {
    match a {
        ChecksumAlgorithm::XXH3_64 => "xxh3_64"@,
        ChecksumAlgorithm::Sha256 => "sha256"@,
        ChecksumAlgorithm::Blake3 => "blake3"@,
    }
}

/// The algorithm whose name is exactly `name`, if any.
pub open spec fn algorithm_named(name: Seq<char>) -> Option<ChecksumAlgorithm> {
    if name == "xxh3_64"@ {
        Some(ChecksumAlgorithm::XXH3_64)
    } else if name == "sha256"@ {
        Some(ChecksumAlgorithm::Sha256)
    } else if name == "blake3"@ {
        Some(ChecksumAlgorithm::Blake3)
    } else {
        None
    }
}

/// The message of a rejected algorithm name.
pub open spec fn invalid_algorithm_message(s: Seq<char>) -> Seq<char> {
    "Invalid checksum algorithm: "@ + s
}

impl ChecksumAlgorithm {
    /// The algorithm's name.
    pub fn name(&self) -> (r: &'static str)
        ensures
            r@ == algorithm_name(*self),
    {
        match self {
            ChecksumAlgorithm::XXH3_64 => "xxh3_64",
            ChecksumAlgorithm::Sha256 => "sha256",
            ChecksumAlgorithm::Blake3 => "blake3",
        }
    }

    /// Selects the algorithm named by `lowered` exactly; the error message
    /// quotes `given`.
    pub fn from_lowercase_name(lowered: &str, given: &str) -> (r: Result<
        ChecksumAlgorithm,
        String,
    >)
        ensures
            match algorithm_named(lowered@) {
                Some(a) => r == Ok::<ChecksumAlgorithm, String>(a),
                None => r is Err && r->Err_0@ == invalid_algorithm_message(given@),
            },
    {
        if text_eq(lowered, "xxh3_64") {
            Ok(ChecksumAlgorithm::XXH3_64)
        } else if text_eq(lowered, "sha256") {
            Ok(ChecksumAlgorithm::Sha256)
        } else if text_eq(lowered, "blake3") {
            Ok(ChecksumAlgorithm::Blake3)
        } else {
            let mut msg = String::from_str("Invalid checksum algorithm: ");
            msg.append(given);
            Err(msg)
        }
    }

    /// Selects an algorithm by name, ignoring case.
    pub fn parse(s: &str) -> (r: Result<ChecksumAlgorithm, String>)
        ensures
            match algorithm_named(lower_of(s@)) {
                Some(a) => r == Ok::<ChecksumAlgorithm, String>(a),
                None => r is Err && r->Err_0@ == invalid_algorithm_message(s@),
            },
    {
        let lowered = lowercase(s);
        Self::from_lowercase_name(lowered.as_str(), s)
    }
}

impl std::str::FromStr for ChecksumAlgorithm {
    type Err = String;

    fn from_str(s: &str) -> Result<Self, Self::Err> {
        Self::parse(s)
    }
}

/// A complete inventory of the entries under `root`.
#[derive(Debug)]
pub struct Snapshot {
    pub plumbah: PlumbahObject,
    /// Structural schema version, distinct from the tool's version.
    pub version: String,
    pub root: String,
    pub checksum_algorithm: ChecksumAlgorithm,
    pub count: usize,
    pub entries: Vec<SnapshotEntry>,
}

/// The snapshot schema version.
pub const SNAPSHOT_VERSION: &'static str = "1.0";

impl Snapshot {
    /// The count matches the entries, and every entry is well formed.
    pub open spec fn wf(&self) -> bool {
        &&& self.count == self.entries@.len()
        &&& forall|i: int| 0 <= i < self.entries@.len() ==> entry_wf(#[trigger] self.entries@[i]@)
    }
}

} // verus!
