use vstd::prelude::*;

verus! {

/// What a store operation or a request can fail with.
#[derive(Debug)]
pub enum AppError {
    /// The id is already taken.
    Conflict(String),
    /// No such workflow.
    NotFound(String),
    /// The request is malformed.
    BadRequest(String),
    /// The caller is not authenticated.
    Unauthorized(String),
    /// An unexpected failure.
    Internal(String),
}

impl AppError {
    /// The HTTP status that answers this error.
    pub fn status_code(&self) -> (r: u16)
        ensures
            r == match self {
                AppError::Conflict(_) => 409u16,
                AppError::NotFound(_) => 404u16,
                AppError::BadRequest(_) => 400u16,
                AppError::Unauthorized(_) => 401u16,
                AppError::Internal(_) => 500u16,
            },
    {
        match self {
            AppError::Conflict(_) => 409,
            AppError::NotFound(_) => 404,
            AppError::BadRequest(_) => 400,
            AppError::Unauthorized(_) => 401,
            AppError::Internal(_) => 500,
        }
    }

    /// The text of the HTTP answer: the status reason, then the detail.
    pub fn response_text(&self) -> (r: String)
        ensures
            r@ == match self {
                AppError::Conflict(m) => "Conflict: "@ + m@,
                AppError::NotFound(m) => "Not Found: "@ + m@,
                AppError::BadRequest(m) => "Bad Request: "@ + m@,
                AppError::Unauthorized(m) => "Unauthorized: "@ + m@,
                AppError::Internal(m) => "Internal Server Error: "@ + m@,
            },
    {
        match self {
            AppError::Conflict(m) => String::from_str("Conflict: ").concat(m.as_str()),
            AppError::NotFound(m) => String::from_str("Not Found: ").concat(m.as_str()),
            AppError::BadRequest(m) => String::from_str("Bad Request: ").concat(m.as_str()),
            AppError::Unauthorized(m) => String::from_str("Unauthorized: ").concat(m.as_str()),
            AppError::Internal(m) => String::from_str("Internal Server Error: ").concat(m.as_str()),
        }
    }

    /// The error as one line of text.
    pub fn to_string(&self) -> (r: String)
        ensures
            r@ == match self {
                AppError::Conflict(m) => "Conflict: "@ + m@,
                AppError::NotFound(m) => "Not Found: "@ + m@,
                AppError::BadRequest(m) => "Bad Request: "@ + m@,
                AppError::Unauthorized(m) => "Unauthorized: "@ + m@,
                AppError::Internal(m) => "Internal Error: "@ + m@,
            },
    {
        match self {
            AppError::Internal(m) => String::from_str("Internal Error: ").concat(m.as_str()),
            _ => self.response_text(),
        }
    }
}

} // verus!
