//! The ways in which an operation on a share fails.

use vstd::prelude::*;
use vstd::string::StringExecFns;

verus! {

/// Why an operation on a share failed.
#[derive(Debug, Clone, Copy, PartialEq, Eq, Structural)]
pub enum ShareError {
    /// A share with that id is already published.
    AlreadyExists,
    /// No share with that id is published.
    NotFound,
    /// The secret presented is not the share's secret.
    InvalidSecret,
    /// The store could not take or give what was asked.
    StorageError,
    /// A stored or received item does not have the shape of an item.
    MalformedPayload,
}

impl ShareError {
    /// The words that describe the failure.
    pub open spec fn message_of(self) -> Seq<char> {
        match self {
            ShareError::AlreadyExists => "Share already exists"@,
            ShareError::NotFound => "Share not found"@,
            ShareError::InvalidSecret => "Share secret invalid"@,
            ShareError::StorageError => "Share storage failed"@,
            ShareError::MalformedPayload => "Share payload malformed"@,
        }
    }

    /// Describes the failure in words.
    pub fn message(&self) -> (text: String)
        ensures
            text@ == self.message_of(),
    {
        match self {
            ShareError::AlreadyExists => String::from_str("Share already exists"),
            ShareError::NotFound => String::from_str("Share not found"),
            ShareError::InvalidSecret => String::from_str("Share secret invalid"),
            ShareError::StorageError => String::from_str("Share storage failed"),
            ShareError::MalformedPayload => String::from_str("Share payload malformed"),
        }
    }
}

} // verus!
