//! The typed rejections that the resolver and the tools return, and the
//! shaping of operating-system error text.

use vstd::prelude::*;

verus! {

use crate::util::{dec_rep, u64_to_string};

/// A typed failure of a filesystem operation.  Each variant carries the
/// caller-supplied path it is about, for display.
#[derive(Debug)]
pub enum FsError {
    /// The path (or its nearest existing ancestor) lies outside every
    /// sandbox root, or a raw path held a rejected traversal component.
    PathDenied { path: String },
    /// Neither the target nor a usable ancestor could be located.
    NotFound { path: String },
    /// The target exists and is contained but is not a regular file.
    NotAFile { path: String },
    /// The target exists and is contained but is not a directory.
    NotADirectory { path: String },
    /// The file exceeds the configured read ceiling.
    FileTooLarge { path: String, size: u64, max: u64 },
    /// The file holds null bytes near its start.
    BinaryFile { path: String },
    /// An operating-system error, carried as its display text.
    IoError { message: String },
    /// A glob pattern failed to compile.
    PatternError { message: String },
    /// A text replacement could not be applied.
    EditFailed { path: String, reason: String },
}

impl FsError {
    /// The display text of this rejection.
    pub open spec fn spec_message(&self) -> Seq<char> {
        match self {
            FsError::PathDenied { path } => ("Access denied: ")@ + path@,
            FsError::NotFound { path } => ("Not found: ")@ + path@,
            FsError::NotAFile { path } => ("Not a file: ")@ + path@,
            FsError::NotADirectory { path } => ("Not a directory: ")@ + path@,
            FsError::FileTooLarge { path, size, max } => ("File too large: ")@ + path@ + (" (")@
                + dec_rep(size as int) + (" bytes, max ")@ + dec_rep(max as int) + (" bytes)")@,
            FsError::BinaryFile { path } => ("Binary file detected: ")@ + path@
                + (". Use get_file_info to inspect its metadata.")@,
            FsError::IoError { message } => message@,
            FsError::PatternError { message } => ("Invalid pattern: ")@ + message@,
            FsError::EditFailed { path, reason } => ("Edit failed on ")@ + path@ + (": ")@
                + reason@,
        }
    }

    /// Renders the rejection as its user-facing message.
    pub fn message(&self) -> (r: String)
        ensures
            r@ == self.spec_message(),
    {
        match self {
            FsError::PathDenied { path } => String::from_str("Access denied: ").concat(
                path.as_str(),
            ),
            FsError::NotFound { path } => String::from_str("Not found: ").concat(path.as_str()),
            FsError::NotAFile { path } => String::from_str("Not a file: ").concat(path.as_str()),
            FsError::NotADirectory { path } => String::from_str("Not a directory: ").concat(
                path.as_str(),
            ),
            FsError::FileTooLarge { path, size, max } => {
                let s = String::from_str("File too large: ").concat(path.as_str()).concat(
                    " (",
                ).concat(u64_to_string(*size).as_str()).concat(" bytes, max ").concat(
                    u64_to_string(*max).as_str(),
                ).concat(" bytes)");
                proof {
                    assert(s@ =~= self.spec_message());
                }
                s
            },
            FsError::BinaryFile { path } => {
                let s = String::from_str("Binary file detected: ").concat(path.as_str()).concat(
                    ". Use get_file_info to inspect its metadata.",
                );
                proof {
                    assert(s@ =~= self.spec_message());
                }
                s
            },
            FsError::IoError { message } => message.clone(),
            FsError::PatternError { message } => String::from_str("Invalid pattern: ").concat(
                message.as_str(),
            ),
            FsError::EditFailed { path, reason } => {
                let s = String::from_str("Edit failed on ").concat(path.as_str()).concat(
                    ": ",
                ).concat(reason.as_str());
                proof {
                    assert(s@ =~= self.spec_message());
                }
                s
            },
        }
    }
}

/// A failed operating-system call, reduced to the two facts the library
/// reads from it: whether the system refused permission, and its display
/// text.
pub struct IoFailure {
    pub permission_denied: bool,
    pub message: String,
}

/// Converts an I/O failure to a user-friendly message string.
/// Distinguishes OS-level "Permission denied" from the sandbox's own
/// `PathDenied`.
pub fn io_error_message(err: &IoFailure, path: &str) -> (r: String)
    ensures
        err.permission_denied ==> r@ == ("Permission denied by operating system: ")@ + path@,
        !err.permission_denied ==> r@ == err.message@,
{
    if err.permission_denied {
        String::from_str("Permission denied by operating system: ").concat(path)
    } else {
        err.message.clone()
    }
}

} // verus!
