//! The closed set of failures a run can meet, with structured context:
//! the offending input's name and the underlying cause. Formatting the
//! user-visible message is done here; raising the condition is the
//! caller's affair.

use vstd::prelude::*;

verus! {

/// Why an input could not be opened.
#[derive(Clone, Copy, Debug, PartialEq, Eq, Structural)]
pub enum OpenCause {
    NotFound,
    PermissionDenied,
    IsDirectory,
    Other,
}

/// A failure of one utility run.
#[derive(Debug)]
pub enum UtilError {
    /// The named input could not be opened.
    Open { name: String, cause: OpenCause },
    /// A read from the named input failed after it was opened.
    Io { name: String },
    /// The configuration was rejected before the run started.
    Config,
}

/// The text describing an open failure's cause.
pub open spec fn cause_text_spec(c: OpenCause) -> Seq<char> {
    match c {
        OpenCause::NotFound => "No such file or directory"@,
        OpenCause::PermissionDenied => "Permission denied"@,
        OpenCause::IsDirectory => "Is a directory"@,
        OpenCause::Other => "cannot be opened"@,
    }
}

/// Describe an open failure's cause.
pub fn cause_text(c: &OpenCause) -> (r: String)
    ensures
        r@ == cause_text_spec(*c),
{
    match c {
        OpenCause::NotFound => "No such file or directory".to_owned(),
        OpenCause::PermissionDenied => "Permission denied".to_owned(),
        OpenCause::IsDirectory => "Is a directory".to_owned(),
        OpenCause::Other => "cannot be opened".to_owned(),
    }
}

/// The user-visible message for a failure: the offending input's name,
/// a separating colon, and the cause.
pub open spec fn message_spec(e: UtilError) -> Seq<char> {
    match e {
        UtilError::Open { name, cause } => name@ + ": "@ + cause_text_spec(cause),
        UtilError::Io { name } => name@ + ": "@ + "read failed"@,
        UtilError::Config => "invalid configuration"@,
    }
}

impl UtilError {
    /// Format the user-visible message for this failure.
    pub fn message(&self) -> (r: String)
        ensures
            r@ == message_spec(*self),
    {
        match self {
            UtilError::Open { name, cause } => {
                let mut r = name.clone();
                r.append(": ");
                r.append(cause_text(cause).as_str());
                r
            },
            UtilError::Io { name } => {
                let mut r = name.clone();
                r.append(": ");
                r.append("read failed");
                r
            },
            UtilError::Config => "invalid configuration".to_owned(),
        }
    }
}

} // verus!
