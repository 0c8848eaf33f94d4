//! Outcome codes handed to the boundary layer.

use vstd::prelude::*;

verus! {

/// The response classes the engine can ask the boundary to send.
#[derive(Clone, Copy, Debug, PartialEq, Eq, Structural)]
pub enum StatusCode {
    Success,
    Created,
    NoContent,
    BadRequest,
    Unauthorized,
    Forbidden,
    NotFound,
    PayloadTooLarge,
    InternalServerError,
}

impl StatusCode {
    /// The numeric HTTP status of each class.
    pub open spec fn code(self) -> u16 {
        match self {
            StatusCode::Success => 200,
            StatusCode::Created => 201,
            StatusCode::NoContent => 204,
            StatusCode::BadRequest => 400,
            StatusCode::Unauthorized => 401,
            StatusCode::Forbidden => 403,
            StatusCode::NotFound => 404,
            StatusCode::PayloadTooLarge => 413,
            StatusCode::InternalServerError => 500,
        }
    }

    pub fn as_u16(self) -> (code: u16)
        ensures
            code == self.code(),
    {
        match self {
            StatusCode::Success => 200,
            StatusCode::Created => 201,
            StatusCode::NoContent => 204,
            StatusCode::BadRequest => 400,
            StatusCode::Unauthorized => 401,
            StatusCode::Forbidden => 403,
            StatusCode::NotFound => 404,
            StatusCode::PayloadTooLarge => 413,
            StatusCode::InternalServerError => 500,
        }
    }

    /// Whether the class reports success.
    pub fn is_success(self) -> (yes: bool)
        ensures
            yes == (200 <= self.code() < 300),
    {
        match self {
            StatusCode::Success | StatusCode::Created | StatusCode::NoContent => true,
            _ => false,
        }
    }
}

/// The outcome of a single-statement delete, from the number of rows it
/// removed: none removed reads as an absent row.
pub fn deletion_status(rows_affected: u64) -> (status: StatusCode)
    ensures
        status == if rows_affected > 0 {
            StatusCode::NoContent
        } else {
            StatusCode::NotFound
        },
{
    if rows_affected > 0 {
        StatusCode::NoContent
    } else {
        StatusCode::NotFound
    }
}

} // verus!
