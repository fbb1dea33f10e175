//! The two error stages: `OSError` wraps what failed together with a
//! one-line description of the operation; `explain` turns it into an
//! `Error` carrying a fuller text, built from probe results the caller
//! gathered (whether paths exist, what kind of user runs this).

use vstd::prelude::*;
use vstd::string::StringExecFns;
use crate::remount::{RemountError, remount_error_text};

verus! {

/// What failed underneath an operation.
#[derive(Debug)]
pub enum MountError {
    /// An operating-system call failed; holds the caller's description.
    Io(String),
    /// Planning a remount failed.
    Remount(RemountError),
}

/// The text a `MountError` presents: for a remount failure, its message.
pub open spec fn mount_error_text(e: MountError) -> Seq<char> {
    match e {
        MountError::Io(m) => m@,
        MountError::Remount(re) => remount_error_text(re),
    }
}

/// A raw operation failure: what failed, and the one-line description of
/// the operation that failed.
#[derive(Debug)]
pub struct OSError {
    /// What failed.
    pub error: MountError,
    /// The operation's description.
    pub operation: String,
}

/// A failure explained: the operation's description, the failure's
/// message, and the explanation text assembled from it and the probe
/// results.
#[derive(Debug)]
pub struct Error {
    /// The operation's description.
    pub operation: String,
    /// The failure's message.
    pub message: String,
    /// The assembled explanation.
    pub explanation: String,
}

impl OSError {
    /// Wrap a remount planning failure.
    pub fn from_remount(err: RemountError, operation: String) -> (r: OSError)
        ensures
            r.error matches MountError::Remount(e) && e == err,
            r.operation == operation,
    {
        OSError { error: MountError::Remount(err), operation }
    }

    /// Wrap an operating-system failure already rendered as text.
    pub fn from_io(msg: String, operation: String) -> (r: OSError)
        ensures
            r.error matches MountError::Io(m) && m == msg,
            r.operation == operation,
    {
        OSError { error: MountError::Io(msg), operation }
    }

    /// Attach the probe results to the failure: an I/O failure keeps the
    /// probe text as its explanation; any other remount failure prefixes
    /// the probe text with its own message.
    pub fn explain(self, probes: String) -> (r: Error)
        ensures
            r.operation == self.operation,
            match self.error {
                MountError::Io(m) => r.message == m && r.explanation == probes,
                MountError::Remount(re) => match re {
                    RemountError::Io(m) => r.message == m && r.explanation == probes,
                    _ => r.message@ == remount_error_text(re) && r.explanation@
                        == remount_error_text(re) + ", "@ + probes@,
                },
            },
    {
        match self.error {
            MountError::Io(m) => Error { operation: self.operation, message: m, explanation: probes },
            MountError::Remount(re) => match re {
                RemountError::Io(m) => Error {
                    operation: self.operation,
                    message: m,
                    explanation: probes,
                },
                re => {
                    let msg = re.message();
                    let mut text = msg.clone();
                    text.append(", ");
                    text.append(probes.as_str());
                    Error { operation: self.operation, message: msg, explanation: text }
                },
            },
        }
    }
}

impl OSError {
    /// The raw failure on one line: the operation and what failed.
    pub fn to_text(&self) -> (r: String)
        ensures
            r@ == self.operation@ + ": "@ + mount_error_text(self.error),
    {
        let mut s = self.operation.clone();
        s.append(": ");
        let m = match &self.error {
            MountError::Io(m) => m.clone(),
            MountError::Remount(re) => re.message(),
        };
        s.append(m.as_str());
        proof {
            assert(s@ =~= self.operation@ + ": "@ + mount_error_text(self.error));
        }
        s
    }
}

impl Error {
    /// The whole failure on one line: the operation, the message, and the
    /// explanation in parentheses.
    pub fn to_text(&self) -> (r: String)
        ensures
            r@ == self.operation@ + ": "@ + self.message@ + " ("@ + self.explanation@ + ")"@,
    {
        let mut s = self.operation.clone();
        s.append(": ");
        s.append(self.message.as_str());
        s.append(" (");
        s.append(self.explanation.as_str());
        s.append(")");
        proof {
            assert(s@ =~= self.operation@ + ": "@ + self.message@ + " ("@ + self.explanation@
                + ")"@);
        }
        s
    }
}

} // verus!
