//! Structured errors carried in IPC responses, with their CLI exit codes.
use vstd::prelude::*;

verus! {

/// Error categories for IPC responses.
#[derive(Debug, Clone, Copy, PartialEq, Eq, Structural)]
pub enum VeloErrorKind {
    /// Resource not found (file, entry, workspace).
    NotFound,
    /// Permission denied (UID mismatch, access control).
    PermissionDenied,
    /// Invalid path (traversal, malformed).
    InvalidPath,
    /// Workspace not registered.
    WorkspaceNotRegistered,
    /// Ingest operation failed.
    IngestFailed,
    /// I/O error (disk, network).
    IoError,
    /// Lock acquisition failed.
    LockFailed,
    /// Internal server error.
    Internal,
}

/// CLI exit code of an error kind (Unix conventions: 1 general, 2 not
/// found, 22 invalid argument, 77 permission denied, 78 lock failure,
/// 79 ingest failure).
pub open spec fn exit_code_of(kind: VeloErrorKind) -> i32 {
    match kind {
        VeloErrorKind::NotFound => 2,
        VeloErrorKind::WorkspaceNotRegistered => 2,
        VeloErrorKind::InvalidPath => 22,
        VeloErrorKind::PermissionDenied => 77,
        VeloErrorKind::LockFailed => 78,
        VeloErrorKind::IngestFailed => 79,
        VeloErrorKind::IoError => 1,
        VeloErrorKind::Internal => 1,
    }
}

/// Name of an error kind, as its debug rendering spells it.
pub open spec fn kind_name_spec(kind: VeloErrorKind) -> Seq<char> {
    match kind {
        VeloErrorKind::NotFound => "NotFound"@,
        VeloErrorKind::PermissionDenied => "PermissionDenied"@,
        VeloErrorKind::InvalidPath => "InvalidPath"@,
        VeloErrorKind::WorkspaceNotRegistered => "WorkspaceNotRegistered"@,
        VeloErrorKind::IngestFailed => "IngestFailed"@,
        VeloErrorKind::IoError => "IoError"@,
        VeloErrorKind::LockFailed => "LockFailed"@,
        VeloErrorKind::Internal => "Internal"@,
    }
}

impl VeloErrorKind {
    /// Name of this error kind.
    pub fn name(&self) -> (s: &'static str)
        ensures
            s@ == kind_name_spec(*self),
    {
        match self {
            VeloErrorKind::NotFound => "NotFound",
            VeloErrorKind::PermissionDenied => "PermissionDenied",
            VeloErrorKind::InvalidPath => "InvalidPath",
            VeloErrorKind::WorkspaceNotRegistered => "WorkspaceNotRegistered",
            VeloErrorKind::IngestFailed => "IngestFailed",
            VeloErrorKind::IoError => "IoError",
            VeloErrorKind::LockFailed => "LockFailed",
            VeloErrorKind::Internal => "Internal",
        }
    }
}

/// Structured error for IPC responses.
#[derive(Debug, Clone)]
pub struct VeloError {
    /// Error category.
    pub kind: VeloErrorKind,
    /// Human-readable message.
    pub message: String,
    /// Optional path the error is about.
    pub path: Option<String>,
}

/// Rendering of an error: `Kind: message`, followed by ` (path: p)` when a path is set.
pub open spec fn describe_spec(e: VeloError) -> Seq<char> {
    match e.path {
        Some(p) => kind_name_spec(e.kind) + ": "@ + e.message@ + " (path: "@ + p@ + ")"@,
        None => kind_name_spec(e.kind) + ": "@ + e.message@,
    }
}

impl VeloError {
    /// A new error without a path.
    pub fn new(kind: VeloErrorKind, message: &str) -> (e: Self)
        ensures
            e.kind == kind,
            e.message@ == message@,
            e.path is None,
    {
        VeloError { kind, message: String::from_str(message), path: None }
    }

    /// A new error about `path`.
    pub fn with_path(kind: VeloErrorKind, message: &str, path: &str) -> (e: Self)
        ensures
            e.kind == kind,
            e.message@ == message@,
            e.path is Some && e.path.unwrap()@ == path@,
    {
        VeloError { kind, message: String::from_str(message), path: Some(String::from_str(path)) }
    }

    /// A `NotFound` error.
    pub fn not_found(message: &str) -> (e: Self)
        ensures
            e.kind == VeloErrorKind::NotFound,
            e.message@ == message@,
            e.path is None,
    {
        Self::new(VeloErrorKind::NotFound, message)
    }

    /// A `PermissionDenied` error.
    pub fn permission_denied(message: &str) -> (e: Self)
        ensures
            e.kind == VeloErrorKind::PermissionDenied,
            e.message@ == message@,
            e.path is None,
    {
        Self::new(VeloErrorKind::PermissionDenied, message)
    }

    /// An `InvalidPath` error.
    pub fn invalid_path(message: &str) -> (e: Self)
        ensures
            e.kind == VeloErrorKind::InvalidPath,
            e.message@ == message@,
            e.path is None,
    {
        Self::new(VeloErrorKind::InvalidPath, message)
    }

    /// The error for a workspace that was never registered.
    pub fn workspace_not_registered() -> (e: Self)
        ensures
            e.kind == VeloErrorKind::WorkspaceNotRegistered,
            e.message@ == "Workspace not registered"@,
            e.path is None,
    {
        Self::new(VeloErrorKind::WorkspaceNotRegistered, "Workspace not registered")
    }

    /// An `IoError` error.
    pub fn io_error(message: &str) -> (e: Self)
        ensures
            e.kind == VeloErrorKind::IoError,
            e.message@ == message@,
            e.path is None,
    {
        Self::new(VeloErrorKind::IoError, message)
    }

    /// An `Internal` error.
    pub fn internal(message: &str) -> (e: Self)
        ensures
            e.kind == VeloErrorKind::Internal,
            e.message@ == message@,
            e.path is None,
    {
        Self::new(VeloErrorKind::Internal, message)
    }

    /// The same error, now about `path`.
    pub fn set_path(self, path: &str) -> (e: Self)
        ensures
            e.kind == self.kind,
            e.message == self.message,
            e.path is Some && e.path.unwrap()@ == path@,
    {
        let mut e = self;
        e.path = Some(String::from_str(path));
        e
    }

    /// CLI exit code for this error's kind.
    pub fn exit_code(&self) -> (c: i32)
        ensures
            c == exit_code_of(self.kind),
    {
        match self.kind {
            VeloErrorKind::NotFound => 2,
            VeloErrorKind::WorkspaceNotRegistered => 2,
            VeloErrorKind::InvalidPath => 22,
            VeloErrorKind::PermissionDenied => 77,
            VeloErrorKind::LockFailed => 78,
            VeloErrorKind::IngestFailed => 79,
            VeloErrorKind::IoError => 1,
            VeloErrorKind::Internal => 1,
        }
    }

    /// Human-readable rendering: `Kind: message` or `Kind: message (path: p)`.
    pub fn describe(&self) -> (s: String)
        ensures
            s@ == describe_spec(*self),
    {
        let head = String::from_str(self.kind.name()).concat(": ").concat(self.message.as_str());
        match &self.path {
            Some(p) => head.concat(" (path: ").concat(p.as_str()).concat(")"),
            None => head,
        }
    }
}

} // verus!
