//! Errors reported to the callers of the command layer.

use vstd::prelude::*;

verus! {

#[derive(Debug, Clone, Copy, PartialEq, Eq, Structural)]
pub enum ApiError {
    PermissionDenied,
    InvalidSignal,
    NotFound,
    Internal,
}

impl ApiError {
    pub open spec fn text(&self) -> Seq<char> {
        match self {
            ApiError::PermissionDenied => "permission denied"@,
            ApiError::InvalidSignal => "invalid signal"@,
            ApiError::NotFound => "process not found"@,
            ApiError::Internal => "internal error"@,
        }
    }

    pub fn message(&self) -> (r: String)
        ensures
            r@ == self.text(),
    {
        match self {
            ApiError::PermissionDenied => "permission denied".to_owned(),
            ApiError::InvalidSignal => "invalid signal".to_owned(),
            ApiError::NotFound => "process not found".to_owned(),
            ApiError::Internal => "internal error".to_owned(),
        }
    }
}

/// The error text handed to the user interface.
pub fn map_api_error(error: ApiError) -> (r: String)
    ensures
        r@ == error.text(),
{
    error.message()
}

} // verus!
