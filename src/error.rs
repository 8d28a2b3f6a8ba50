use vstd::prelude::*;

verus! {

/// The closed set of failures that the engine reports.
#[derive(Debug, Clone, PartialEq, Eq)]
pub enum MawError {
    /// A filesystem or network read or write failed.
    Io(String),
    /// Malformed input: bad quoting, a value that does not parse as its column type.
    BadRecord(String),
    /// Two column types that cannot be reconciled without stringifying conflicts.
    SchemaConflict(String),
    /// Bytes that cannot be decoded under the chosen encoding.
    Encoding(String),
    /// A contradiction in the configuration, or no inputs discovered.
    InvalidInput(String),
    /// A corrupt or incompatible state file.
    State(String),
    /// The run was cancelled.
    Cancelled,
}

/// Which kind of failure an error is, without its message.
#[derive(Debug, Clone, Copy, PartialEq, Eq, Structural)]
pub enum ErrorKind {
    Io,
    BadRecord,
    SchemaConflict,
    Encoding,
    InvalidInput,
    State,
    Cancelled,
}

impl MawError {
    pub open spec fn kind_spec(&self) -> ErrorKind {
        match self {
            MawError::Io(_) => ErrorKind::Io,
            MawError::BadRecord(_) => ErrorKind::BadRecord,
            MawError::SchemaConflict(_) => ErrorKind::SchemaConflict,
            MawError::Encoding(_) => ErrorKind::Encoding,
            MawError::InvalidInput(_) => ErrorKind::InvalidInput,
            MawError::State(_) => ErrorKind::State,
            MawError::Cancelled => ErrorKind::Cancelled,
        }
    }

    pub fn kind(&self) -> (r: ErrorKind)
        ensures
            r == self.kind_spec(),
    {
        match self {
            MawError::Io(_) => ErrorKind::Io,
            MawError::BadRecord(_) => ErrorKind::BadRecord,
            MawError::SchemaConflict(_) => ErrorKind::SchemaConflict,
            MawError::Encoding(_) => ErrorKind::Encoding,
            MawError::InvalidInput(_) => ErrorKind::InvalidInput,
            MawError::State(_) => ErrorKind::State,
            MawError::Cancelled => ErrorKind::Cancelled,
        }
    }

    /// The process exit code for this error.
    pub fn exit_code(&self) -> (r: i32)
        ensures
            r == exit_code_of(self.kind_spec()),
    {
        match self {
            MawError::InvalidInput(_) => 1,
            MawError::BadRecord(_) | MawError::SchemaConflict(_) | MawError::Encoding(_) => 2,
            MawError::Io(_) | MawError::State(_) => 3,
            MawError::Cancelled => 130,
        }
    }
}

/// Exit codes: 1 for configuration errors, 2 for data errors (records,
/// schemas, encodings), 3 for I/O and state files, 130 when cancelled.
pub open spec fn exit_code_of(k: ErrorKind) -> i32 {
    match k {
        ErrorKind::InvalidInput => 1,
        ErrorKind::BadRecord | ErrorKind::SchemaConflict | ErrorKind::Encoding => 2,
        ErrorKind::Io | ErrorKind::State => 3,
        ErrorKind::Cancelled => 130,
    }
}

} // verus!
