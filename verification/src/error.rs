//! The error kinds shared by the services.
use vstd::prelude::*;
use vstd::string::*;
use crate::text::concat2;

verus! {

/// An error of one of five kinds, each with a human-readable detail.
#[derive(Debug)]
pub enum AfsError {
    NotFound(String),
    AlreadyExists(String),
    PermissionDenied(String),
    InvalidArgument(String),
    Internal(String),
}

impl AfsError {
    /// What `message` renders: a prefix naming the kind, then the detail.
    pub open spec fn spec_message(&self) -> Seq<char> {
        match self {
            AfsError::NotFound(m) => "not found: "@ + m@,
            AfsError::AlreadyExists(m) => "already exists: "@ + m@,
            AfsError::PermissionDenied(m) => "permission denied: "@ + m@,
            AfsError::InvalidArgument(m) => "invalid argument: "@ + m@,
            AfsError::Internal(m) => "internal error: "@ + m@,
        }
    }

    /// The human-readable rendering of the error.
    pub fn message(&self) -> (r: String)
        ensures
            r@ == self.spec_message(),
    {
        match self {
            AfsError::NotFound(m) => concat2("not found: ", m.as_str()),
            AfsError::AlreadyExists(m) => concat2("already exists: ", m.as_str()),
            AfsError::PermissionDenied(m) => concat2("permission denied: ", m.as_str()),
            AfsError::InvalidArgument(m) => concat2("invalid argument: ", m.as_str()),
            AfsError::Internal(m) => concat2("internal error: ", m.as_str()),
        }
    }
}

} // verus!
