//! Errors of the VM layer.

use crate::backend::VmState;
use crate::text::{cat2, cat3, cat4, cat5, decimal_str, owned};
use vstd::prelude::*;
use vstd::string::StringExecFns;

verus! {

#[derive(Debug)]
pub enum Error {
    InvalidSpec(String),
    FileNotFound(String),
    Backend { backend: String, message: String },
    BackendUnavailable(String, String),
    Timeout { expected: VmState, actual: VmState, timeout_secs: u64 },
    /// A failure of the operating system, in its own words.
    Io(String),
}

/// An error as its mathematical content.
pub enum ErrorView {
    InvalidSpec(Seq<char>),
    FileNotFound(Seq<char>),
    Backend { backend: Seq<char>, message: Seq<char> },
    BackendUnavailable(Seq<char>, Seq<char>),
    Timeout { expected: VmState, actual: VmState, timeout_secs: u64 },
    Io(Seq<char>),
}

impl View for Error {
    type V = ErrorView;

    open spec fn view(&self) -> ErrorView {
        match self {
            Error::InvalidSpec(s) => ErrorView::InvalidSpec(s@),
            Error::FileNotFound(p) => ErrorView::FileNotFound(p@),
            Error::Backend { backend, message } => ErrorView::Backend {
                backend: backend@,
                message: message@,
            },
            Error::BackendUnavailable(b, m) => ErrorView::BackendUnavailable(b@, m@),
            Error::Timeout { expected, actual, timeout_secs } => ErrorView::Timeout {
                expected: *expected,
                actual: *actual,
                timeout_secs: *timeout_secs,
            },
            Error::Io(s) => ErrorView::Io(s@),
        }
    }
}

impl ErrorView {
    /// What the user reads.
    pub open spec fn text(self) -> Seq<char> {
        match self {
            ErrorView::InvalidSpec(s) => "invalid VM spec: "@ + s,
            ErrorView::FileNotFound(p) => "file not found: "@ + p,
            ErrorView::Backend { backend, message } => "backend `"@ + backend + "` failed: "@
                + message,
            ErrorView::BackendUnavailable(b, m) => "backend `"@ + b
                + "` is not available on this host: "@ + m,
            ErrorView::Timeout { expected, actual, timeout_secs } => "VM did not reach state "@
                + expected.text() + " within "@ + crate::text::decimal(timeout_secs as nat)
                + "s (state: "@ + actual.text() + ")"@,
            ErrorView::Io(s) => s,
        }
    }
}

impl Error {
    /// A failure of the named backend.
    pub fn backend(backend: &str, message: &str) -> (e: Error)
        ensures
            e@ == (ErrorView::Backend { backend: backend@, message: message@ }),
    {
        Error::Backend { backend: owned(backend), message: owned(message) }
    }

    /// What the user reads.
    pub fn message(&self) -> (s: String)
        ensures
            s@ == self@.text(),
    {
        match self {
            Error::InvalidSpec(s) => cat2("invalid VM spec: ", s.as_str()),
            Error::FileNotFound(p) => cat2("file not found: ", p.as_str()),
            Error::Backend { backend, message } => cat4(
                "backend `",
                backend.as_str(),
                "` failed: ",
                message.as_str(),
            ),
            Error::BackendUnavailable(b, m) => cat4(
                "backend `",
                b.as_str(),
                "` is not available on this host: ",
                m.as_str(),
            ),
            Error::Timeout { expected, actual, timeout_secs } => {
                let secs: String = decimal_str(*timeout_secs);
                let mut s: String = cat5(
                    "VM did not reach state ",
                    expected.name(),
                    " within ",
                    secs.as_str(),
                    "s (state: ",
                );
                s.append(actual.name());
                s.append(")");
                s
            },
            Error::Io(s) => owned(s.as_str()),
        }
    }
}

} // verus!
