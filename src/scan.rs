//! The scanner's decisions: how a walked object becomes an entry, how the
//! walk is configured, and how the collected results become a snapshot.
use vstd::prelude::*;

use crate::digest_stream::ContentHasher;
use crate::checksum::{hex_len, checksum_text, get_hasher, GaldiHasher};
use crate::error::{error_code, error_message, error_path, ScanError};
use crate::plumbah::{Meta, PlumbahError, PlumbahObject, Status, PLUMBAH_LEVEL, PLUMBAH_VERSION};
use crate::snapshot::{
    elapsed_ms, elapsed_ms_spec, entries_view, entry_wf, is_relative, algorithm_name, lemma_path_le_antisym, lemma_path_le_from_refl, path_le, sorted_by_path, text_view, ChecksumAlgorithm,
    EntryType, EntryView, Snapshot, SnapshotEntry, Timestamp, SNAPSHOT_VERSION,
};
use crate::sort::{kview, lemma_keyed_path_le, lemma_map_multiset, merge_sort, Keyed};
use crate::text::{
    be_bytes, chars_of, hex_text, octal_text, push_be_bytes, push_char, push_hex, push_octal,
    replace_char, to_unix_like_string,
};

verus! {

/// Everything that configures a scan.
pub struct ScanOptions {
    pub root: String,
    pub checksum_algorithm: ChecksumAlgorithm,
    pub follow_symlinks: bool,
    /// Unbounded when absent.
    pub max_depth: Option<usize>,
    /// Glob patterns of paths to leave out.
    pub exclude_patterns: Vec<String>,
    /// Advisory; enforced by the caller.
    pub timeout_ms: Option<u64>,
    /// Number of walker threads; the number of processors when absent.
    pub threads: Option<usize>,
    /// Write '/' for the platform's path separator.
    pub normalize_paths: bool,
}

/// A configured scan.
pub struct Scanner {
    pub options: ScanOptions,
}

/// What each walker thread needs to turn a walked object into an entry.
pub struct ScannerRef {
    pub root: String,
    pub checksum_algorithm: ChecksumAlgorithm,
    pub normalize_paths: bool,
}

/// What the walk observed about one object: its path relative to the root,
/// its metadata flags, size, permission bits and modification time.
pub struct EntryMetadata {
    pub path: String,
    pub is_dir: bool,
    pub is_symlink: bool,
    pub is_file: bool,
    pub len: u64,
    pub permissions: PermissionBits,
    pub mtime: Timestamp,
}

/// Permissions as the platform reports them: the POSIX mode, or the
/// Windows file attributes and read-only flag.
#[derive(Debug, Clone, Copy, PartialEq, Eq, Structural)]
pub enum PermissionBits {
    Unix(u32),
    Windows { attributes: u32, readonly: bool },
}

/// Name of the per-directory file listing further paths to leave out.
pub const IGNORE_FILE_NAME: &'static str = ".galdi_ignore";

/// Name under which snapshots declare their producer.
pub const SNAPSHOT_TOOL: &'static str = "galdi_snapshot";

/// Version of the producing tool.
pub const TOOL_VERSION: &'static str = "0.1.0";

/// Relies on `num_cpus::get`: the number of logical processors available,
/// documented to be at least 1.
#[verifier::external_body]
fn available_processors() -> (r: usize)
    ensures
        r >= 1,
{
    num_cpus::get()
}

/// The type of an object: a directory first, then a symlink, then a
/// regular file, anything else undefined.
pub open spec fn entry_type_spec(is_dir: bool, is_symlink: bool, is_file: bool) -> EntryType {
    if is_dir {
        EntryType::Directory
    } else if is_symlink {
        EntryType::Symlink
    } else if is_file {
        EntryType::File
    } else {
        EntryType::Undefined
    }
}

pub open spec fn meta_type(m: &EntryMetadata) -> EntryType {
    entry_type_spec(m.is_dir, m.is_symlink, m.is_file)
}

/// Classifies an object by its metadata flags.
pub fn entry_type_of(is_dir: bool, is_symlink: bool, is_file: bool) -> (r: EntryType)
    ensures
        r == entry_type_spec(is_dir, is_symlink, is_file),
{
    if is_dir {
        EntryType::Directory
    } else if is_symlink {
        EntryType::Symlink
    } else if is_file {
        EntryType::File
    } else {
        EntryType::Undefined
    }
}

/// The permission bits (including setuid, setgid and sticky) in octal.
pub fn format_mode(permissions: u32) -> (r: String)
    ensures
        r@ == octal_text((permissions & 0o7777u32) as nat),
{
    let mut out = String::new();
    push_octal(&mut out, permissions & 0o7777u32);
    assert(out@ =~= octal_text((permissions & 0o7777u32) as nat));
    out
}

/// The Windows attributes as eight lowercase hexadecimal digits, followed
/// by ",readonly" for read-only files.
pub open spec fn attributes_text(attributes: u32, readonly: bool) -> Seq<char> {
    hex_text(be_bytes(attributes as nat, 4)) + if readonly { ",readonly"@ } else { Seq::empty() }
}

/// The mode text of an entry.
pub open spec fn mode_text(p: PermissionBits) -> Seq<char> {
    match p {
        PermissionBits::Unix(m) => octal_text((m & 0o7777u32) as nat),
        PermissionBits::Windows { attributes, readonly } => attributes_text(attributes, readonly),
    }
}

/// The Windows attributes in hexadecimal, marked when read-only.
pub fn format_attributes(attributes: u32, readonly: bool) -> (r: String)
    ensures
        r@ == attributes_text(attributes, readonly),
{
    let mut bytes: Vec<u8> = Vec::new();
    push_be_bytes(&mut bytes, attributes as u64, 4);
    assert(bytes@ =~= be_bytes(attributes as nat, 4));
    let mut out = String::new();
    push_hex(&mut out, bytes.as_slice());
    if readonly {
        out.append(",readonly");
    } else {
        assert(out@ =~= out@ + Seq::<char>::empty());
    }
    out
}

/// The mode text for the platform's permissions.
pub fn format_permissions(p: PermissionBits) -> (r: String)
    ensures
        r@ == mode_text(p),
{
    match p {
        PermissionBits::Unix(m) => format_mode(m),
        PermissionBits::Windows { attributes, readonly } => format_attributes(attributes, readonly),
    }
}

/// The entries among the results, in order.
pub open spec fn ok_entries(items: Seq<Result<SnapshotEntry, ScanError>>) -> Seq<SnapshotEntry>
    decreases items.len(),
{
    if items.len() == 0 {
        Seq::empty()
    } else {
        match items.last() {
            Ok(e) => ok_entries(items.drop_last()).push(e),
            Err(_) => ok_entries(items.drop_last()),
        }
    }
}

/// The errors among the results, in order.
pub open spec fn scan_errors(items: Seq<Result<SnapshotEntry, ScanError>>) -> Seq<ScanError>
    decreases items.len(),
{
    if items.len() == 0 {
        Seq::empty()
    } else {
        match items.last() {
            Ok(_) => scan_errors(items.drop_last()),
            Err(e) => scan_errors(items.drop_last()).push(e),
        }
    }
}

/// The coded errors match the scan errors one for one.
pub open spec fn codes_match(coded: Seq<PlumbahError>, errs: Seq<ScanError>) -> bool {
    &&& coded.len() == errs.len()
    &&& forall|i: int|
        0 <= i < coded.len() ==> {
            &&& (#[trigger] coded[i]).code@ == error_code(errs[i])
            &&& coded[i].message@ == error_message(errs[i])
            &&& text_view(coded[i].path) == error_path(errs[i])
            &&& !coded[i].recoverable
        }
}

/// No two entries share a path.
pub open spec fn distinct_paths(s: Seq<EntryView>) -> bool {
    forall|i: int, j: int| 0 <= i < j < s.len() ==> (#[trigger] s[i]).path != (#[trigger] s[j]).path
}

/// Entries sorted by path are determined by the entries alone: two
/// snapshots built from the same entries, received in any order and so
/// from any number of walker threads, list the same entries in the same
/// order when no path occurs twice.
pub proof fn lemma_sorted_entries_unique(a: Seq<EntryView>, b: Seq<EntryView>)
    requires
        sorted_by_path(a),
        sorted_by_path(b),
        a.to_multiset() == b.to_multiset(),
        distinct_paths(a),
    ensures
        a == b,
    decreases a.len(),
{
    vstd::seq_lib::to_multiset_len(a);
    vstd::seq_lib::to_multiset_len(b);
    if a.len() == 0 {
        assert(a =~= b);
    } else {
        let a0 = a[0];
        let b0 = b[0];
        vstd::seq_lib::to_multiset_contains(a, b0);
        vstd::seq_lib::to_multiset_contains(b, a0);
        vstd::seq_lib::to_multiset_contains(a, a0);
        vstd::seq_lib::to_multiset_contains(b, b0);
        assert(a[0] == a0 && b[0] == b0);
        assert(a.contains(b0));
        assert(b.contains(a0));
        let j = choose|j: int| 0 <= j < a.len() && a[j] == b0;
        let k = choose|k: int| 0 <= k < b.len() && b[k] == a0;
        if j > 0 {
            let (x, y) = (0int, j);
            assert(0 <= x < y < a.len());
            assert(path_le(a[x].path, a[y].path));
        } else {
            lemma_path_le_from_refl(a0.path, 0);
        }
        if k > 0 {
            let (x, y) = (0int, k);
            assert(0 <= x < y < b.len());
            assert(path_le(b[x].path, b[y].path));
        } else {
            lemma_path_le_from_refl(b0.path, 0);
        }
        assert(a0.path.subrange(0, 0) =~= b0.path.subrange(0, 0));
        lemma_path_le_antisym(a0.path, b0.path, 0);
        assert(j == 0);
        let ad = a.drop_first();
        let bd = b.drop_first();
        vstd::seq_lib::to_multiset_remove(a, 0);
        vstd::seq_lib::to_multiset_remove(b, 0);
        assert(a.remove(0) =~= ad);
        assert(b.remove(0) =~= bd);
        assert forall|x: int, y: int| 0 <= x < y < ad.len() implies path_le(#[trigger] ad[x].path, #[trigger] ad[y].path) by {
            assert(ad[x] == a[x + 1] && ad[y] == a[y + 1]);
        }
        assert forall|x: int, y: int| 0 <= x < y < bd.len() implies path_le(#[trigger] bd[x].path, #[trigger] bd[y].path) by {
            assert(bd[x] == b[x + 1] && bd[y] == b[y + 1]);
        }
        assert forall|x: int, y: int| 0 <= x < y < ad.len() implies (#[trigger] ad[x]).path != (#[trigger] ad[y]).path by {
            assert(ad[x] == a[x + 1] && ad[y] == a[y + 1]);
        }
        lemma_sorted_entries_unique(ad, bd);
        assert(a0 == b0);
        assert(a.len() == b.len());
        assert forall|i: int| 0 <= i < a.len() implies a[i] == b[i] by {
            if i > 0 {
                assert(a[i] == ad[i - 1]);
                assert(b[i] == bd[i - 1]);
            }
        }
        assert(a =~= b);
    }
}

impl ScannerRef {
    /// The checksum of a file's content under the configured algorithm.
    pub fn compute_checksum(&self, content: &[u8]) -> (r: String)
        ensures
            r@ == checksum_text(self.checksum_algorithm, content@),
    {
        let hasher = get_hasher(self.checksum_algorithm);
        hasher.hash_content(content)
    }

    /// A digest in progress under the configured algorithm, to be fed a
    /// regular file's content.
    pub fn content_hasher(&self) -> (r: ContentHasher)
        ensures
            r.algorithm_spec() == self.checksum_algorithm,
            r.fed() == Seq::<u8>::empty(),
    {
        ContentHasher::new(self.checksum_algorithm)
    }

    /// The entry for a walked object, given the digest fed its content when
    /// it is a regular file and its link target when it is a symlink.
    pub fn create_entry(
        &self,
        meta: &EntryMetadata,
        content: Option<&ContentHasher>,
        link_target: Option<String>,
    ) -> (r: SnapshotEntry)
        requires
            content is Some <==> meta_type(meta) == EntryType::File,
            content is Some ==> content->Some_0.algorithm_spec() == self.checksum_algorithm,
            is_relative(meta.path@),
            link_target is Some <==> meta_type(meta) == EntryType::Symlink,
        ensures
            entry_wf(r@),
            !self.normalize_paths ==> r.path@ == meta.path@,
            self.normalize_paths ==> (r.path@ == replace_char(meta.path@, '/', '/') || r.path@
                == replace_char(meta.path@, '\\', '/')),
            r.entry_type == meta_type(meta),
            r.size == Some(meta.len),
            text_view(r.mode) == Some(mode_text(meta.permissions)),
            r.mtime == meta.mtime,
            text_view(r.checksum) == (match content {
                Some(h) => Some(checksum_text(self.checksum_algorithm, h.fed())),
                None => None::<Seq<char>>,
            }),
            r.checksum is Some ==> r.checksum->Some_0@.len() == algorithm_name(self.checksum_algorithm).len()
                + 1 + hex_len(self.checksum_algorithm),
            text_view(r.target) == text_view(link_target),
    {
        let entry_type = entry_type_of(meta.is_dir, meta.is_symlink, meta.is_file);
        let checksum = match content {
            Some(h) => Some(h.finish()),
            None => None,
        };
        let path = if self.normalize_paths {
            let p = to_unix_like_string(meta.path.as_str());
            proof {
                let m = meta.path@;
                assert(p@.len() == m.len());
                if m.len() > 0 {
                    assert(p@[0] == m[0]);
                }
                if m.len() > 1 {
                    assert(p@[1] == m[1] || p@[1] == '/');
                }
            }
            p
        } else {
            meta.path.clone()
        };
        SnapshotEntry {
            path,
            entry_type,
            size: Some(meta.len),
            mode: Some(format_permissions(meta.permissions)),
            mtime: meta.mtime,
            checksum,
            target: link_target,
        }
    }
}

impl Scanner {
    /// A scanner with the given options.
    pub fn new(options: ScanOptions) -> (r: Scanner)
        ensures
            r.options == options,
    {
        Scanner { options }
    }

    /// Number of walker threads: the configured number, else the number of
    /// available processors.
    pub fn thread_count(&self) -> (r: usize)
        ensures
            self.options.threads is Some ==> r == self.options.threads->Some_0,
            self.options.threads is None ==> r >= 1,
    {
        match self.options.threads {
            Some(n) => n,
            None => available_processors(),
        }
    }

    /// The per-thread part of the configuration.
    pub fn scanner_ref(&self) -> (r: ScannerRef)
        ensures
            r.root@ == self.options.root@,
            r.checksum_algorithm == self.options.checksum_algorithm,
            r.normalize_paths == self.options.normalize_paths,
    {
        ScannerRef {
            root: self.options.root.clone(),
            checksum_algorithm: self.options.checksum_algorithm,
            normalize_paths: self.options.normalize_paths,
        }
    }

    /// The walker's override globs: each exclusion pattern negated with a
    /// leading '!', which makes it an ignore glob.
    pub fn override_globs(&self) -> (r: Vec<String>)
        ensures
            r@.len() == self.options.exclude_patterns@.len(),
            forall|i: int|
                0 <= i < r@.len() ==> #[trigger] r@[i]@ == seq!['!'] + self.options.exclude_patterns@[i]@,
    {
        let pats = &self.options.exclude_patterns;
        let mut out: Vec<String> = Vec::new();
        let mut i: usize = 0;
        while i < pats.len()
            invariant
                0 <= i <= pats@.len(),
                out@.len() == i,
                forall|k: int| 0 <= k < i ==> #[trigger] out@[k]@ == seq!['!'] + pats@[k]@,
            decreases pats@.len() - i,
        {
            let mut g = String::new();
            push_char(&mut g, '!');
            g.append(pats[i].as_str());
            assert(g@ =~= seq!['!'] + pats@[i as int]@);
            out.push(g);
            i = i + 1;
        }
        out
    }

    /// Builds the snapshot from everything the walk produced: the entries
    /// sorted by path, the count, the status (partial when any error was
    /// met) and the coded errors, timed from `started` to `finished`.
    pub fn build_snapshot(
        &self,
        items: &Vec<Result<SnapshotEntry, ScanError>>,
        started: Timestamp,
        finished: Timestamp,
    ) -> (r: Snapshot)
        ensures
            sorted_by_path(entries_view(r.entries@)),
            r.count == r.entries@.len(),
            entries_view(r.entries@).to_multiset() == entries_view(ok_entries(items@)).to_multiset(),
            (forall|i: int| 0 <= i < ok_entries(items@).len() ==> entry_wf(#[trigger] ok_entries(items@)[i]@))
                ==> r.wf(),
            r.version@ == SNAPSHOT_VERSION@,
            r.root@ == self.options.root@,
            r.checksum_algorithm == self.options.checksum_algorithm,
            r.plumbah.version@ == PLUMBAH_VERSION@,
            r.plumbah.stream is None,
            r.plumbah.status == (if scan_errors(items@).len() == 0 { Status::Success } else { Status::Partial }),
            scan_errors(items@).len() == 0 ==> r.plumbah.errors is None,
            scan_errors(items@).len() > 0 ==> r.plumbah.errors is Some && codes_match(
                r.plumbah.errors->Some_0@,
                scan_errors(items@),
            ),
            r.plumbah.meta is Some,
            r.plumbah.meta->Some_0.tool@ == SNAPSHOT_TOOL@,
            r.plumbah.meta->Some_0.tool_version@ == TOOL_VERSION@,
            r.plumbah.meta->Some_0.idempotent,
            !r.plumbah.meta->Some_0.mutates,
            r.plumbah.meta->Some_0.safe,
            !r.plumbah.meta->Some_0.deterministic,
            r.plumbah.meta->Some_0.plumbah_level == PLUMBAH_LEVEL,
            r.plumbah.meta->Some_0.execution_time_ms == elapsed_ms_spec(started, finished),
            r.plumbah.meta->Some_0.timestamp == finished,
    {
        let mut oks: Vec<SnapshotEntry> = Vec::new();
        let mut keyed: Vec<Keyed> = Vec::new();
        let mut errors: Vec<PlumbahError> = Vec::new();
        let mut i: usize = 0;
        while i < items.len()
            invariant
                0 <= i <= items@.len(),
                entries_view(oks@) == entries_view(ok_entries(items@.subrange(0, i as int))),
                keyed@.len() == oks@.len(),
                forall|k: int|
                    0 <= k < keyed@.len() ==> (#[trigger] keyed@[k]).key@ == oks@[k].path@
                        && keyed@[k].idx == k,
                codes_match(errors@, scan_errors(items@.subrange(0, i as int))),
            decreases items@.len() - i,
        {
            proof {
                let pre = items@.subrange(0, i as int);
                let next = items@.subrange(0, i + 1);
                assert(next.drop_last() =~= pre);
                assert(next.last() == items@[i as int]);
            }
            match &items[i] {
                Ok(e) => {
                    let d = e.duplicate();
                    keyed.push(Keyed { key: chars_of(d.path.as_str()), idx: oks.len() });
                    let ghost pre_oks = oks@;
                    oks.push(d);
                    proof {
                        let next = items@.subrange(0, i + 1);
                        let pre = items@.subrange(0, i as int);
                        assert(ok_entries(next) == ok_entries(pre).push(*e));
                        assert(entries_view(oks@) =~= entries_view(pre_oks).push(e@));
                        assert(entries_view(ok_entries(pre).push(*e)) =~= entries_view(
                            ok_entries(pre),
                        ).push(e@));
                        assert(scan_errors(next) == scan_errors(pre));
                    }
                },
                Err(err) => {
                    let coded = err.to_plumbah_error();
                    errors.push(coded);
                    proof {
                        let next = items@.subrange(0, i + 1);
                        let pre = items@.subrange(0, i as int);
                        assert(ok_entries(next) == ok_entries(pre));
                        assert(scan_errors(next) == scan_errors(pre).push(*err));
                        let se = scan_errors(next);
                        assert forall|k: int| 0 <= k < errors@.len() implies {
                            &&& (#[trigger] errors@[k]).code@ == error_code(se[k])
                            &&& errors@[k].message@ == error_message(se[k])
                            &&& text_view(errors@[k].path) == error_path(se[k])
                            &&& !errors@[k].recoverable
                        } by {
                            if k < errors@.len() - 1 {
                                assert(se[k] == scan_errors(pre)[k]);
                            }
                        }
                    }
                },
            }
            i = i + 1;
        }
        proof {
            assert(items@.subrange(0, items@.len() as int) =~= items@);
        }
        let ghost keyed_v = kview(keyed@);
        let sorted = merge_sort(keyed);
        proof {
            assert forall|m: int| 0 <= m < sorted@.len() implies (#[trigger] sorted@[m]).idx < oks@.len()
                && sorted@[m].key@ == oks@[sorted@[m].idx as int].path@ by {
                let sv = kview(sorted@);
                assert(sv[m] == (sorted@[m].key@, sorted@[m].idx));
                vstd::seq_lib::to_multiset_contains(sv, sv[m]);
                assert(sv.contains(sv[m]));
                vstd::seq_lib::to_multiset_contains(keyed_v, sv[m]);
                let k = choose|k: int| 0 <= k < keyed_v.len() && keyed_v[k] == sv[m];
                assert(keyed_v[k] == (keyed@[k].key@, keyed@[k].idx));
            }
        }
        let mut entries: Vec<SnapshotEntry> = Vec::new();
        let mut j: usize = 0;
        while j < sorted.len()
            invariant
                0 <= j <= sorted@.len(),
                entries@.len() == j,
                forall|m: int|
                    0 <= m < sorted@.len() ==> (#[trigger] sorted@[m]).idx < oks@.len()
                        && sorted@[m].key@ == oks@[sorted@[m].idx as int].path@,
                forall|m: int| 0 <= m < j ==> (#[trigger] entries@[m])@ == oks@[sorted@[m].idx as int]@,
            decreases sorted@.len() - j,
        {
            let d = oks[sorted[j].idx].duplicate();
            entries.push(d);
            j = j + 1;
        }
        proof {
            let ev = entries_view(entries@);
            let sv = kview(sorted@);
            assert forall|a: int, b: int| 0 <= a < b < ev.len() implies path_le(
                #[trigger] ev[a].path,
                #[trigger] ev[b].path,
            ) by {
                assert(ev[a] == entries@[a]@ && ev[b] == entries@[b]@);
                assert(sv[a] == (sorted@[a].key@, sorted@[a].idx));
                assert(sv[b] == (sorted@[b].key@, sorted@[b].idx));
                lemma_keyed_path_le(sv[a], sv[b]);
            }
            let ov = oks@;
            let f = |p: (Seq<char>, usize)| ov[p.1 as int]@;
            assert(ev =~= sv.map_values(f));
            assert(entries_view(oks@) =~= keyed_v.map_values(f));
            lemma_map_multiset(sv, keyed_v, f);
        }
        let status = if errors.len() == 0 {
            Status::Success
        } else {
            Status::Partial
        };
        let meta = Meta::new(
            SNAPSHOT_TOOL,
            TOOL_VERSION,
            true,
            false,
            true,
            false,
            elapsed_ms(started, finished),
            finished,
        );
        let mut plumbah = PlumbahObject::new(status, meta);
        if errors.len() > 0 {
            plumbah = plumbah.with_errors(errors);
        }
        let count = entries.len();
        let r = Snapshot {
            plumbah,
            version: String::from_str(SNAPSHOT_VERSION),
            root: self.options.root.clone(),
            checksum_algorithm: self.options.checksum_algorithm,
            count,
            entries,
        };
        proof {
            let all = ok_entries(items@);
            if forall|i: int| 0 <= i < all.len() ==> entry_wf(#[trigger] all[i]@) {
                assert forall|k: int| 0 <= k < r.entries@.len() implies entry_wf(#[trigger] r.entries@[k]@) by {
                    let x = sorted@[k].idx as int;
                    assert(entries_view(oks@)[x] == entries_view(all)[x]);
                }
            }
        }
        r
    }
}

} // verus!
