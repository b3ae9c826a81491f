//! The errors a sorting run can surface.

use vstd::prelude::*;
use vstd::string::StringExecFns;

verus! {

/// A failure of one sorting run.  None of these is retried internally;
/// every one is surfaced to the caller as a distinct failure.
#[derive(Debug)]
pub enum SortError {
    /// The source directory does not exist; checked before any traversal.
    SourceRootMissing {
        /// The missing directory.
        path: String,
    },
    /// A visited entry's metadata could not be read; the run aborts, since
    /// silently skipping the entry would make the plan misleading.
    MetadataUnavailable {
        /// The entry whose metadata was unreadable.
        path: String,
    },
    /// The requested timestamp kind is not available for a file (notably
    /// creation time on platforms that do not expose it), or the timestamp
    /// cannot be represented as a calendar date; the run aborts.
    TimestampKindUnsupported {
        /// The file whose timestamp was unavailable.
        path: String,
    },
    /// The configured date format cannot be rendered; the run aborts.
    DateFormatInvalid {
        /// The file whose name was being rendered.
        path: String,
    },
    /// The configuration payload could not be parsed.
    ConfigParseError,
    /// A rename failed; the rest of the batch is abandoned, and renames
    /// already made are not rolled back.
    RenameFailed {
        /// The source of the failed rename.
        source: String,
        /// The destination of the failed rename.
        destination: String,
    },
}

/// The error shown when the user tries to sort with a source or target
/// directory that does not exist.
#[derive(Clone, Debug)]
pub struct PathDoesNotExistError {
    /// The path that does not exist.
    pub path: String,
}

impl PathDoesNotExistError {
    /// The error message: `Error: "<path>" does not exist.`
    pub fn message(&self) -> (r: String)
        ensures
            r@ == "Error: \""@ + self.path@ + "\" does not exist."@,
    {
        let mut s = String::from_str("Error: \"");
        s.append(self.path.as_str());
        s.append("\" does not exist.");
        s
    }
}

} // verus!
