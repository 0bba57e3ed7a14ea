//! Per-entry scan failures and their coded form.
use vstd::prelude::*;

use crate::plumbah::PlumbahError;
use crate::snapshot::text_view;

verus! {

/// A failure met while scanning one path. I/O failures carry the
/// underlying error's message.
#[derive(Debug, Clone)]
pub enum ScanError {
    PathNotFound(String),
    PermissionDenied(String),
    Io(String),
    SymlinkLoop(String),
}

#[verifier::external_type_specification]
#[verifier::external_body]
pub struct ExStripPrefixError(std::path::StripPrefixError);

/// Relies on the `Display` of `std::path::StripPrefixError`: its message.
/// Nothing is promised of the text.
#[verifier::external_body]
fn strip_prefix_message(e: &std::path::StripPrefixError) -> String {
    e.to_string()
}

/// The stable code of an error.
pub open spec fn error_code(e: ScanError) -> Seq<char> {
    match e {
        ScanError::PathNotFound(_) => "PATH_NOT_FOUND"@,
        ScanError::PermissionDenied(_) => "PERMISSION_DENIED"@,
        ScanError::Io(_) => "IO_ERROR"@,
        ScanError::SymlinkLoop(_) => "SYMLINK_LOOP"@,
    }
}

/// The human-readable message of an error.
pub open spec fn error_message(e: ScanError) -> Seq<char> {
    match e {
        ScanError::PathNotFound(p) => "Path not found: "@ + p@,
        ScanError::PermissionDenied(p) => "Permission denied: "@ + p@,
        ScanError::Io(m) => m@,
        ScanError::SymlinkLoop(p) => "Symlink loop detected at: "@ + p@,
    }
}

/// The path an error concerns; none for generic I/O failures.
pub open spec fn error_path(e: ScanError) -> Option<Seq<char>> {
    match e {
        ScanError::PathNotFound(p) => Some(p@),
        ScanError::PermissionDenied(p) => Some(p@),
        ScanError::Io(_) => None,
        ScanError::SymlinkLoop(p) => Some(p@),
    }
}

impl ScanError {
    /// The I/O failure for a walked path that does not lie under the root,
    /// carrying the failure's message.
    pub fn from_strip_prefix(err: &std::path::StripPrefixError) -> (r: ScanError)
        ensures
            r is Io,
    {
        ScanError::Io(strip_prefix_message(err))
    }

    /// The error's message.
    pub fn message(&self) -> (r: String)
        ensures
            r@ == error_message(*self),
    {
        match self {
            ScanError::PathNotFound(p) => {
                let mut m = String::from_str("Path not found: ");
                m.append(p.as_str());
                m
            },
            ScanError::PermissionDenied(p) => {
                let mut m = String::from_str("Permission denied: ");
                m.append(p.as_str());
                m
            },
            ScanError::Io(msg) => msg.clone(),
            ScanError::SymlinkLoop(p) => {
                let mut m = String::from_str("Symlink loop detected at: ");
                m.append(p.as_str());
                m
            },
        }
    }

    /// The coded form of the error: its code, message and path, not
    /// recoverable, without context.
    pub fn to_plumbah_error(&self) -> (r: PlumbahError)
        ensures
            r.code@ == error_code(*self),
            r.message@ == error_message(*self),
            text_view(r.path) == error_path(*self),
            !r.recoverable,
            r.context is None,
    {
        let code = match self {
            ScanError::PathNotFound(_) => "PATH_NOT_FOUND",
            ScanError::PermissionDenied(_) => "PERMISSION_DENIED",
            ScanError::Io(_) => "IO_ERROR",
            ScanError::SymlinkLoop(_) => "SYMLINK_LOOP",
        };
        let path = match self {
            ScanError::PathNotFound(p) => Some(p.clone()),
            ScanError::PermissionDenied(p) => Some(p.clone()),
            ScanError::Io(_) => None,
            ScanError::SymlinkLoop(p) => Some(p.clone()),
        };
        PlumbahError {
            code: String::from_str(code),
            message: self.message(),
            path,
            recoverable: false,
            context: None,
        }
    }
}

} // verus!
