//! The status envelope attached to every result: protocol version, status,
//! semantic metadata, coded errors, and the stream marker and summary.
use std::collections::HashMap;
use vstd::prelude::*;

use crate::snapshot::{current_time, Timestamp};

verus! {

#[verifier::external_type_specification]
#[verifier::external_body]
pub struct ExJsonValue(serde_json::Value);

/// The envelope protocol version.
pub const PLUMBAH_VERSION: &'static str = "1.0";

/// The metadata level every envelope declares.
pub const PLUMBAH_LEVEL: u8 = 2;

/// Overall outcome of an operation.
#[derive(Debug, Clone, Copy, PartialEq, Eq, Structural)]
pub enum Status {
    Success,
    Error,
    Partial,
}

/// Process exit code of a status: 0 success, 1 failure, 2 partial success.
pub open spec fn status_exit_code(s: Status) -> i32 {
    match s {
        Status::Success => 0,
        Status::Error => 1,
        Status::Partial => 2,
    }
}

impl Status {
    /// The process exit code for this status.
    pub fn exit_code(&self) -> (r: i32)
        ensures
            r == status_exit_code(*self),
    {
        match self {
            Status::Success => 0,
            Status::Error => 1,
            Status::Partial => 2,
        }
    }

    /// The lowercase name of the status.
    pub fn name(&self) -> (r: &'static str)
        ensures
            r@ == (match *self {
                Status::Success => "ok"@,
                Status::Error => "error"@,
                Status::Partial => "partial"@,
            }),
    {
        match self {
            Status::Success => "ok",
            Status::Error => "error",
            Status::Partial => "partial",
        }
    }
}

/// Counts carried by the last line of a stream.
#[derive(Debug, Clone, Copy, PartialEq, Eq, Structural)]
pub struct StreamSummary {
    pub total: usize,
    pub processed: usize,
    pub errors: usize,
}

/// A named profile with free-form data.
#[derive(Debug)]
pub struct ProfileMetadata {
    pub name: String,
    pub data: HashMap<String, serde_json::Value>,
}

/// Semantic metadata of an invocation.
#[derive(Debug)]
pub struct Meta {
    /// Safe to retry without side effects.
    pub idempotent: bool,
    /// Mutates external state.
    pub mutates: bool,
    /// Non-destructive.
    pub safe: bool,
    /// Same inputs give the same output.
    pub deterministic: bool,
    pub plumbah_level: u8,
    pub execution_time_ms: u64,
    pub tool: String,
    pub tool_version: String,
    pub extra: HashMap<String, serde_json::Value>,
    pub timestamp: Timestamp,
    pub profiles: Option<Vec<ProfileMetadata>>,
}

/// A coded error: a stable upper-case identifier, a message and the path it
/// concerns, if any.
#[derive(Debug)]
pub struct PlumbahError {
    pub code: String,
    pub message: String,
    pub path: Option<String>,
    pub recoverable: bool,
    pub context: Option<HashMap<String, serde_json::Value>>,
}

/// The envelope itself.
#[derive(Debug)]
pub struct PlumbahObject {
    pub version: String,
    /// "head" or "tail" on the framing lines of a stream.
    pub stream: Option<String>,
    pub status: Status,
    pub meta: Option<Meta>,
    pub errors: Option<Vec<PlumbahError>>,
    pub summary: Option<StreamSummary>,
    pub execution_time_ms: Option<u64>,
}

/// Relies on `serde_json::Value::from` for a vector of strings: a JSON array.
#[verifier::external_body]
fn json_string_list(items: Vec<String>) -> serde_json::Value {
    serde_json::Value::from(items)
}

impl Meta {
    /// Metadata with the given flags, tool identity, timing and time stamp,
    /// at the current level, with no extra fields and no profiles.
    pub fn new(
        tool: &str,
        tool_version: &str,
        idempotent: bool,
        mutates: bool,
        safe: bool,
        deterministic: bool,
        execution_time_ms: u64,
        timestamp: Timestamp,
    ) -> (r: Meta)
        ensures
            r.tool@ == tool@,
            r.tool_version@ == tool_version@,
            r.idempotent == idempotent,
            r.mutates == mutates,
            r.safe == safe,
            r.deterministic == deterministic,
            r.plumbah_level == PLUMBAH_LEVEL,
            r.execution_time_ms == execution_time_ms,
            r.timestamp == timestamp,
            r.extra@ == Map::<String, serde_json::Value>::empty(),
            r.profiles is None,
    {
        Meta {
            idempotent,
            mutates,
            safe,
            deterministic,
            plumbah_level: PLUMBAH_LEVEL,
            execution_time_ms,
            tool: String::from_str(tool),
            tool_version: String::from_str(tool_version),
            extra: HashMap::new(),
            timestamp,
            profiles: None,
        }
    }

    /// The same metadata carrying `profiles`.
    pub fn with_profiles(self, profiles: Vec<ProfileMetadata>) -> (r: Meta)
        ensures
            r == (Meta { profiles: Some(profiles), ..self }),
    {
        Meta { profiles: Some(profiles), ..self }
    }

    /// The same metadata carrying the single profile that declares the
    /// output's dependence on the file system.
    pub fn with_default_profiles(self) -> (r: Meta)
        ensures
            r.profiles is Some,
            r.profiles->Some_0@.len() == 1,
            r.profiles->Some_0@[0].name@ == "_determinism"@,
            r == (Meta { profiles: r.profiles, ..self }),
    {
        let mut data = HashMap::new();
        let mut deps = Vec::new();
        deps.push(String::from_str("file_system"));
        data.insert(String::from_str("depends_on"), json_string_list(deps));
        let profile = ProfileMetadata { name: String::from_str("_determinism"), data };
        let mut profiles = Vec::new();
        profiles.push(profile);
        self.with_profiles(profiles)
    }
}

impl PlumbahObject {
    /// An envelope of the current version with the given status and
    /// metadata, and nothing else.
    pub fn new(status: Status, meta: Meta) -> (r: PlumbahObject)
        ensures
            r.version@ == PLUMBAH_VERSION@,
            r.stream is None,
            r.status == status,
            r.meta == Some(meta),
            r.errors is None,
            r.summary is None,
            r.execution_time_ms is None,
    {
        PlumbahObject {
            version: String::from_str(PLUMBAH_VERSION),
            stream: None,
            status,
            meta: Some(meta),
            errors: None,
            summary: None,
            execution_time_ms: None,
        }
    }

    /// The envelope of an operation that produced nothing usable: status
    /// Error, the tool's declared semantics with the default profile, and
    /// this one coded error.
    pub fn failure(tool: &str, tool_version: &str, error: PlumbahError) -> (r: PlumbahObject)
        ensures
            r.version@ == PLUMBAH_VERSION@,
            r.stream is None,
            r.status == Status::Error,
            r.errors is Some && r.errors->Some_0@ == seq![error],
            r.summary is None,
            r.execution_time_ms is None,
            r.meta is Some,
            r.meta->Some_0.tool@ == tool@,
            r.meta->Some_0.tool_version@ == tool_version@,
            r.meta->Some_0.idempotent,
            !r.meta->Some_0.mutates,
            r.meta->Some_0.safe,
            r.meta->Some_0.deterministic,
            r.meta->Some_0.plumbah_level == PLUMBAH_LEVEL,
            r.meta->Some_0.execution_time_ms == 0,
            r.meta->Some_0.profiles is Some,
    {
        let meta = Meta::new(tool, tool_version, true, false, true, true, 0, current_time())
            .with_default_profiles();
        let mut errors = Vec::new();
        errors.push(error);
        assert(errors@ =~= seq![error]);
        PlumbahObject::new(Status::Error, meta).with_errors(errors)
    }

    /// The envelope that answers a request for the tool's semantics alone,
    /// without performing the operation: status Ok, the declared flags and
    /// the default profile.
    pub fn introspection(tool: &str, tool_version: &str) -> (r: PlumbahObject)
        ensures
            r.version@ == PLUMBAH_VERSION@,
            r.stream is None,
            r.status == Status::Success,
            r.errors is None,
            r.summary is None,
            r.execution_time_ms is None,
            r.meta is Some,
            r.meta->Some_0.tool@ == tool@,
            r.meta->Some_0.tool_version@ == tool_version@,
            r.meta->Some_0.idempotent,
            !r.meta->Some_0.mutates,
            r.meta->Some_0.safe,
            r.meta->Some_0.deterministic,
            r.meta->Some_0.plumbah_level == PLUMBAH_LEVEL,
            r.meta->Some_0.profiles is Some,
    {
        let meta = Meta::new(tool, tool_version, true, false, true, true, 0, current_time())
            .with_default_profiles();
        PlumbahObject::new(Status::Success, meta)
    }

    /// The same envelope carrying `errors`.
    pub fn with_errors(self, errors: Vec<PlumbahError>) -> (r: PlumbahObject)
        ensures
            r == (PlumbahObject { errors: Some(errors), ..self }),
    {
        PlumbahObject { errors: Some(errors), ..self }
    }
}

} // verus!
