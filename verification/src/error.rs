use vstd::prelude::*;
use vstd::string::StringExecFns;

verus! {

/// An error classification that carries an optional message for the caller.
#[derive(Debug, PartialEq, Eq)]
pub enum ApiError {
    NotFound(Option<String>),
    InternalServerError(Option<String>),
    BadRequest(Option<String>),
}

/// The characters of an optional message; an absent message reads as empty.
pub open spec fn msg_chars(m: Option<String>) -> Seq<char> {
    match m {
        Some(s) => s@,
        None => Seq::empty(),
    }
}

impl ApiError {
    pub fn not_found(msg: String) -> (r: Self)
        ensures
            r == ApiError::NotFound(Some(msg)),
    {
        ApiError::NotFound(Some(msg))
    }

    pub fn internal_server_error(msg: String) -> (r: Self)
        ensures
            r == ApiError::InternalServerError(Some(msg)),
    {
        ApiError::InternalServerError(Some(msg))
    }

    pub fn bad_request(msg: String) -> (r: Self)
        ensures
            r == ApiError::BadRequest(Some(msg)),
    {
        ApiError::BadRequest(Some(msg))
    }

    /// The HTTP status code that stands for this error at the boundary.
    pub fn status_code(&self) -> (code: u16)
        ensures
            code == (match self {
                ApiError::NotFound(_) => 404u16,
                ApiError::InternalServerError(_) => 500u16,
                ApiError::BadRequest(_) => 400u16,
            }),
    {
        match self {
            ApiError::NotFound(_) => 404,
            ApiError::InternalServerError(_) => 500,
            ApiError::BadRequest(_) => 400,
        }
    }

    /// The short text that names this error in a rendered message.
    pub fn label(&self) -> (s: &'static str)
        ensures
            (self matches ApiError::NotFound(_)) ==> s@ == "NOT_FOUND"@,
            (self matches ApiError::InternalServerError(_)) ==> s@ == "INTERNAL_SERVER_ERROR"@,
            (self matches ApiError::BadRequest(_)) ==> s@ == "BAD_REQUEST"@,
    {
        match self {
            ApiError::NotFound(_) => "NOT_FOUND",
            ApiError::InternalServerError(_) => "INTERNAL_SERVER_ERROR",
            ApiError::BadRequest(_) => "BAD_REQUEST",
        }
    }

    /// The rendered message: the label, a separating `": "`, and the carried
    /// text, which reads as empty when absent.
    pub fn render(&self) -> (r: String)
        ensures
            (match self {
                ApiError::NotFound(m) => r@ == "NOT_FOUND"@ + ": "@ + msg_chars(*m),
                ApiError::InternalServerError(m) => r@ == "INTERNAL_SERVER_ERROR"@ + ": "@ + msg_chars(*m),
                ApiError::BadRequest(m) => r@ == "BAD_REQUEST"@ + ": "@ + msg_chars(*m),
            }),
    {
        let label = self.label();
        let msg: &str = match self {
            ApiError::NotFound(Some(s)) => s.as_str(),
            ApiError::InternalServerError(Some(s)) => s.as_str(),
            ApiError::BadRequest(Some(s)) => s.as_str(),
            _ => "",
        };
        let with_sep = String::from_str(label).concat(": ");
        let rendered = with_sep.concat(msg);
        proof {
            reveal_strlit("");
            assert(rendered@ =~= label@ + ": "@ + msg@);
        }
        rendered
    }
}

} // verus!
