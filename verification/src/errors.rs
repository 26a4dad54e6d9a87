use vstd::prelude::*;

verus! {

/// Error classification reported to callers of the ledger's request paths.
///
/// `NotFound` answers for an unknown account, `UnprocessableEntity` for a
/// request that validation or the overdraft limit rejected, and
/// `InternalServerError` for an internal fault.
#[derive(Debug, Clone, Copy, PartialEq, Eq, Structural)]
pub enum ApiError {
    NotFound,
    InternalServerError,
    UnprocessableEntity,
}

impl ApiError {
    pub fn not_found() -> (r: Self)
        ensures
            r == ApiError::NotFound,
    {
        ApiError::NotFound
    }

    pub fn internal_server_error() -> (r: Self)
        ensures
            r == ApiError::InternalServerError,
    {
        ApiError::InternalServerError
    }

    pub fn unprocessable_entity() -> (r: Self)
        ensures
            r == ApiError::UnprocessableEntity,
    {
        ApiError::UnprocessableEntity
    }

    /// The HTTP status code that stands for this error at the boundary.
    pub fn status_code(&self) -> (code: u16)
        ensures
            code == (match self {
                ApiError::NotFound => 404u16,
                ApiError::InternalServerError => 500u16,
                ApiError::UnprocessableEntity => 422u16,
            }),
    {
        match self {
            ApiError::NotFound => 404,
            ApiError::InternalServerError => 500,
            ApiError::UnprocessableEntity => 422,
        }
    }

    /// The short text that names this error in a rendered message.
    pub fn label(&self) -> (s: &'static str)
        ensures
            *self == ApiError::NotFound ==> s@ == "NOT_FOUND"@,
            *self == ApiError::InternalServerError ==> s@ == "INTERNAL_SERVER_ERROR"@,
            *self == ApiError::UnprocessableEntity ==> s@ == "UNPROCESSABLE_ENTITY"@,
    {
        match self {
            ApiError::NotFound => "NOT_FOUND",
            ApiError::InternalServerError => "INTERNAL_SERVER_ERROR",
            ApiError::UnprocessableEntity => "UNPROCESSABLE_ENTITY",
        }
    }
}

} // verus!
