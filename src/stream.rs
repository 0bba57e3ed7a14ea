//! Incremental output: one head line, then entry and error lines, then one
//! tail line carrying the counts and the final status.
use std::collections::HashMap;
use vstd::prelude::*;

use crate::plumbah::{
    Meta, PlumbahError, PlumbahObject, ProfileMetadata, Status, StreamSummary, PLUMBAH_LEVEL,
    PLUMBAH_VERSION,
};
use crate::scan::{SNAPSHOT_TOOL, TOOL_VERSION};
use crate::snapshot::{
    current_time, elapsed_ms, ChecksumAlgorithm, SnapshotEntry, Timestamp, SNAPSHOT_VERSION,
};

verus! {

/// The kinds of line a stream is made of.
#[derive(Debug, Clone, Copy, PartialEq, Eq, Structural)]
pub enum LineKind {
    Head,
    Entry,
    Error,
    Tail,
}

/// Where a stream stands: nothing written, head written, tail written.
#[derive(Debug, Clone, Copy, PartialEq, Eq, Structural)]
pub enum StreamPhase {
    Idle,
    Open,
    Closed,
}

/// The first line of a stream: the envelope marked "head" and what
/// identifies the scan.
#[derive(Debug)]
pub struct StreamHead {
    pub plumbah: PlumbahObject,
    pub version: String,
    pub root: String,
    pub checksum_algorithm: ChecksumAlgorithm,
}

/// A middle line reporting one failure: an envelope that carries just the
/// coded error, with no data.
#[derive(Debug)]
pub struct StreamErrorLine {
    pub errors: Vec<PlumbahError>,
}

/// Keeps the state of one stream: its phase, its counters and, as a ghost,
/// the kinds of the lines written so far.
pub struct StreamingOutput {
    start_time: Timestamp,
    total_entries: usize,
    error_count: usize,
    phase: StreamPhase,
    lines: Ghost<Seq<LineKind>>,
}

/// How many lines of kind `k` are in `s`.
pub open spec fn count_kind(s: Seq<LineKind>, k: LineKind) -> nat
    decreases s.len(),
{
    if s.len() == 0 {
        0
    } else {
        count_kind(s.drop_last(), k) + if s.last() == k { 1nat } else { 0nat }
    }
}

proof fn lemma_count_push(s: Seq<LineKind>, x: LineKind, k: LineKind)
    ensures
        count_kind(s.push(x), k) == count_kind(s, k) + if x == k { 1nat } else { 0nat },
{
    assert(s.push(x).drop_last() =~= s);
}

/// The stream's line-kind history is well framed for its phase: nothing
/// before the head, one head first, entry and error lines as counted, and
/// one tail last once closed.
pub open spec fn framing_wf(
    phase: StreamPhase,
    lines: Seq<LineKind>,
    total: nat,
    errors: nat,
) -> bool {
    &&& count_kind(lines, LineKind::Entry) == total
    &&& count_kind(lines, LineKind::Error) == errors
    &&& match phase {
        StreamPhase::Idle => lines.len() == 0,
        StreamPhase::Open => {
            &&& lines.len() == total + errors + 1
            &&& lines[0] == LineKind::Head
            &&& count_kind(lines, LineKind::Head) == 1
            &&& count_kind(lines, LineKind::Tail) == 0
        },
        StreamPhase::Closed => {
            &&& lines.len() == total + errors + 2
            &&& lines[0] == LineKind::Head
            &&& lines.last() == LineKind::Tail
            &&& count_kind(lines, LineKind::Head) == 1
            &&& count_kind(lines, LineKind::Tail) == 1
        },
    }
}

impl StreamingOutput {
    pub closed spec fn phase(&self) -> StreamPhase {
        self.phase
    }

    pub closed spec fn lines(&self) -> Seq<LineKind> {
        self.lines@
    }

    pub closed spec fn entries_written(&self) -> nat {
        self.total_entries as nat
    }

    pub closed spec fn errors_written(&self) -> nat {
        self.error_count as nat
    }

    pub open spec fn wf(&self) -> bool {
        &&& framing_wf(self.phase(), self.lines(), self.entries_written(), self.errors_written())
        &&& self.entries_written() <= usize::MAX
        &&& self.errors_written() <= usize::MAX
    }

    /// A stream with nothing written.
    pub fn new() -> (r: StreamingOutput)
        ensures
            r.wf(),
            r.phase() == StreamPhase::Idle,
            r.lines().len() == 0,
            r.entries_written() == 0,
            r.errors_written() == 0,
    {
        StreamingOutput {
            start_time: current_time(),
            total_entries: 0,
            error_count: 0,
            phase: StreamPhase::Idle,
            lines: Ghost(Seq::empty()),
        }
    }

    /// Number of entry lines written.
    pub fn total_entries(&self) -> (r: usize)
        ensures
            r == self.entries_written(),
    {
        self.total_entries
    }

    /// Number of error lines written.
    pub fn error_count(&self) -> (r: usize)
        ensures
            r == self.errors_written(),
    {
        self.error_count
    }

    /// Opens the stream: the head line, with the full metadata (the
    /// streaming profile declared) and what identifies the scan.
    pub fn write_head(
        &mut self,
        root: &str,
        checksum: ChecksumAlgorithm,
        deterministic: bool,
    ) -> (r: StreamHead)
        requires
            old(self).wf(),
            old(self).phase() == StreamPhase::Idle,
        ensures
            final(self).wf(),
            final(self).phase() == StreamPhase::Open,
            final(self).lines() == old(self).lines().push(LineKind::Head),
            final(self).entries_written() == 0,
            final(self).errors_written() == 0,
            r.plumbah.version@ == PLUMBAH_VERSION@,
            r.plumbah.stream is Some && r.plumbah.stream->Some_0@ == "head"@,
            r.plumbah.status == Status::Success,
            r.plumbah.errors is None,
            r.plumbah.summary is None,
            r.plumbah.meta is Some,
            r.plumbah.meta->Some_0.tool@ == SNAPSHOT_TOOL@,
            r.plumbah.meta->Some_0.tool_version@ == TOOL_VERSION@,
            r.plumbah.meta->Some_0.idempotent,
            !r.plumbah.meta->Some_0.mutates,
            r.plumbah.meta->Some_0.safe,
            r.plumbah.meta->Some_0.deterministic == deterministic,
            r.plumbah.meta->Some_0.plumbah_level == PLUMBAH_LEVEL,
            r.plumbah.meta->Some_0.profiles is Some,
            r.plumbah.meta->Some_0.profiles->Some_0@.len() == 1,
            r.plumbah.meta->Some_0.profiles->Some_0@[0].name@ == "streaming"@,
            r.plumbah.meta->Some_0.profiles->Some_0@[0].data@ == Map::<
                String,
                serde_json::Value,
            >::empty(),
            r.version@ == SNAPSHOT_VERSION@,
            r.root@ == root@,
            r.checksum_algorithm == checksum,
    {
        let meta = Meta::new(SNAPSHOT_TOOL, TOOL_VERSION, true, false, true, deterministic, 0, current_time());
        let mut profiles = Vec::new();
        profiles.push(ProfileMetadata { name: String::from_str("streaming"), data: HashMap::new() });
        let meta = meta.with_profiles(profiles);
        let mut plumbah = PlumbahObject::new(Status::Success, meta);
        plumbah.stream = Some(String::from_str("head"));
        self.phase = StreamPhase::Open;
        proof {
            lemma_count_push(self.lines@, LineKind::Head, LineKind::Entry);
            lemma_count_push(self.lines@, LineKind::Head, LineKind::Error);
            lemma_count_push(self.lines@, LineKind::Head, LineKind::Head);
            lemma_count_push(self.lines@, LineKind::Head, LineKind::Tail);
            self.lines = Ghost(self.lines@.push(LineKind::Head));
        }
        StreamHead {
            plumbah,
            version: String::from_str(SNAPSHOT_VERSION),
            root: String::from_str(root),
            checksum_algorithm: checksum,
        }
    }

    /// Records an entry line; the entry itself is written unwrapped.
    pub fn write_entry(&mut self, entry: &SnapshotEntry)
        requires
            old(self).wf(),
            old(self).phase() == StreamPhase::Open,
            old(self).entries_written() < usize::MAX,
        ensures
            final(self).wf(),
            final(self).phase() == StreamPhase::Open,
            final(self).lines() == old(self).lines().push(LineKind::Entry),
            final(self).entries_written() == old(self).entries_written() + 1,
            final(self).errors_written() == old(self).errors_written(),
    {
        self.total_entries = self.total_entries + 1;
        proof {
            lemma_count_push(self.lines@, LineKind::Entry, LineKind::Entry);
            lemma_count_push(self.lines@, LineKind::Entry, LineKind::Error);
            lemma_count_push(self.lines@, LineKind::Entry, LineKind::Head);
            lemma_count_push(self.lines@, LineKind::Entry, LineKind::Tail);
            self.lines = Ghost(self.lines@.push(LineKind::Entry));
        }
    }

    /// Records an error line and returns it: an envelope that carries just
    /// this error.
    pub fn write_error(&mut self, error: PlumbahError) -> (r: StreamErrorLine)
        requires
            old(self).wf(),
            old(self).phase() == StreamPhase::Open,
            old(self).errors_written() < usize::MAX,
        ensures
            final(self).wf(),
            final(self).phase() == StreamPhase::Open,
            final(self).lines() == old(self).lines().push(LineKind::Error),
            final(self).entries_written() == old(self).entries_written(),
            final(self).errors_written() == old(self).errors_written() + 1,
            r.errors@ == seq![error],
    {
        self.error_count = self.error_count + 1;
        proof {
            lemma_count_push(self.lines@, LineKind::Error, LineKind::Entry);
            lemma_count_push(self.lines@, LineKind::Error, LineKind::Error);
            lemma_count_push(self.lines@, LineKind::Error, LineKind::Head);
            lemma_count_push(self.lines@, LineKind::Error, LineKind::Tail);
            self.lines = Ghost(self.lines@.push(LineKind::Error));
        }
        let mut errors = Vec::new();
        errors.push(error);
        assert(errors@ =~= seq![error]);
        StreamErrorLine { errors }
    }

    /// Closes the stream: the tail line, without metadata, with the counts,
    /// the elapsed time, and a partial status when any error was written.
    /// The stream then holds the head, one line per entry and per error, and
    /// the tail.
    pub fn write_tail(&mut self) -> (r: PlumbahObject)
        requires
            old(self).wf(),
            old(self).phase() == StreamPhase::Open,
        ensures
            final(self).wf(),
            final(self).phase() == StreamPhase::Closed,
            final(self).lines() == old(self).lines().push(LineKind::Tail),
            final(self).entries_written() == old(self).entries_written(),
            final(self).errors_written() == old(self).errors_written(),
            final(self).lines().len() == old(self).entries_written() + old(self).errors_written() + 2,
            final(self).lines()[0] == LineKind::Head,
            final(self).lines().last() == LineKind::Tail,
            count_kind(final(self).lines(), LineKind::Entry) == old(self).entries_written(),
            count_kind(final(self).lines(), LineKind::Error) == old(self).errors_written(),
            r.version@ == PLUMBAH_VERSION@,
            r.stream is Some && r.stream->Some_0@ == "tail"@,
            r.status == (if old(self).errors_written() > 0 { Status::Partial } else { Status::Success }),
            r.meta is None,
            r.errors is None,
            r.summary == Some(
                StreamSummary {
                    total: old(self).entries_written() as usize,
                    processed: old(self).entries_written() as usize,
                    errors: old(self).errors_written() as usize,
                },
            ),
            r.execution_time_ms is Some,
    {
        let status = if self.error_count > 0 {
            Status::Partial
        } else {
            Status::Success
        };
        let elapsed = elapsed_ms(self.start_time, current_time());
        self.phase = StreamPhase::Closed;
        proof {
            lemma_count_push(self.lines@, LineKind::Tail, LineKind::Entry);
            lemma_count_push(self.lines@, LineKind::Tail, LineKind::Error);
            lemma_count_push(self.lines@, LineKind::Tail, LineKind::Head);
            lemma_count_push(self.lines@, LineKind::Tail, LineKind::Tail);
            self.lines = Ghost(self.lines@.push(LineKind::Tail));
        }
        PlumbahObject {
            version: String::from_str(PLUMBAH_VERSION),
            stream: Some(String::from_str("tail")),
            status,
            meta: None,
            errors: None,
            summary: Some(
                StreamSummary {
                    total: self.total_entries,
                    processed: self.total_entries,
                    errors: self.error_count,
                },
            ),
            execution_time_ms: Some(elapsed),
        }
    }

    /// Exit code of a streaming run: success whether or not entries failed,
    /// since the tail carries the error count.
    pub fn exit_code(&self) -> (r: i32)
        ensures
            r == 0,
    {
        0
    }
}

} // verus!
