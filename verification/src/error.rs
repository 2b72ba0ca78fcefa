//! One error type mapping onto the exit-code table. Every command path
//! funnels through it so exit codes stay consistent.

use vstd::prelude::*;
use crate::text::{dec_nat, push_dec_u64, push_str};

verus! {

/// Errors carrying their exit code.
///
/// | code | meaning |
/// |------|---------|
/// | 1 | unexpected error, or apply/discard ended in `errored` |
/// | 2 | usage error (including unresolvable workspace) |
/// | 3 | authentication/authorization failure |
/// | 4 | run, workspace, or plan not found |
/// | 6 | apply refused: run not confirmable (state, policy, queue) |
#[derive(Debug)]
pub enum Error {
    /// Exit 2 — usage error, including an unresolvable workspace.
    Usage(String),
    /// Exit 3 — authentication or authorization failure.
    Auth(String),
    /// Exit 4 — run, workspace, or plan not found.
    NotFound(String),
    /// Exit 6 — action refused: run not confirmable (state, policy, queue).
    Refused(String),
    /// API error carrying the HTTP status and the error detail from the
    /// response body. Never built from request headers, so the
    /// Authorization header cannot appear in `detail`.
    Api { status: u16, detail: String },
    /// Exit 1 — anything unexpected.
    Other(String),
}

/// The exit code an API error with this HTTP status maps to.
pub open spec fn api_exit_code(status: u16) -> i32 {
    if status == 401 || status == 403 {
        3
    } else if status == 404 {
        4
    } else if status == 409 {
        6
    } else {
        1
    }
}

/// The exit code of an error.
pub open spec fn spec_exit_code(e: Error) -> i32 {
    match e {
        Error::Usage(_) => 2,
        Error::Auth(_) => 3,
        Error::NotFound(_) => 4,
        Error::Refused(_) => 6,
        Error::Api { status, .. } => api_exit_code(status),
        Error::Other(_) => 1,
    }
}

/// The text an error is shown as: `HTTP <status>: <detail>` for API
/// errors, the carried message otherwise.
pub open spec fn spec_message(e: Error) -> Seq<char> {
    match e {
        Error::Usage(m) => m@,
        Error::Auth(m) => m@,
        Error::NotFound(m) => m@,
        Error::Refused(m) => m@,
        Error::Api { status, detail } => "HTTP "@ + dec_nat(status as nat) + ": "@ + detail@,
        Error::Other(m) => m@,
    }
}

impl Error {
    /// Build an API error from a response status and the error detail
    /// taken from the response. Callers pass only response-derived text,
    /// never request headers.
    pub fn api(status: u16, detail: &str) -> (e: Error)
        ensures
            e matches Error::Api { status: s, detail: d } && s == status && d@ == detail@,
    {
        Error::Api { status, detail: detail.to_owned() }
    }

    /// The exit code for this error.
    pub fn exit_code(&self) -> (code: i32)
        ensures
            code == spec_exit_code(*self),
    {
        match self {
            Error::Usage(_) => 2,
            Error::Auth(_) => 3,
            Error::NotFound(_) => 4,
            Error::Refused(_) => 6,
            Error::Api { status, .. } => {
                if *status == 401 || *status == 403 {
                    3
                } else if *status == 404 {
                    4
                } else if *status == 409 {
                    6
                } else {
                    1
                }
            },
            Error::Other(_) => 1,
        }
    }

    /// The message this error is shown as.
    pub fn message(&self) -> (m: String)
        ensures
            m@ == spec_message(*self),
    {
        match self {
            Error::Usage(m) => m.clone(),
            Error::Auth(m) => m.clone(),
            Error::NotFound(m) => m.clone(),
            Error::Refused(m) => m.clone(),
            Error::Api { status, detail } => {
                let mut s = String::new();
                push_str(&mut s, "HTTP ");
                push_dec_u64(&mut s, *status as u64);
                push_str(&mut s, ": ");
                push_str(&mut s, detail.as_str());
                s
            },
            Error::Other(m) => m.clone(),
        }
    }
}

} // verus!
