//! Error taxonomy shared by all handlers, and its mapping to HTTP status
//! codes and the JSON error envelope.

use vstd::prelude::*;
use vstd::string::StringExecFns;

verus! {

/// The error taxonomy: every failure a handler can surface is one of these.
#[derive(Debug, Clone, PartialEq, Eq)]
pub enum AppError {
    /// An underlying storage failure (message carries the cause).
    DatabaseError(String),
    /// The requested record does not exist.
    NotFoundError(String),
    /// The request body failed validation.
    ValidationError(String),
    /// An unexpected internal failure.
    InternalError(String),
    /// The request lacked valid credentials.
    UnauthorizedError(String),
    /// The authenticated principal may not perform the action.
    ForbiddenError(String),
    /// The request was malformed.
    BadRequestError(String),
}

impl AppError {
    /// The HTTP status code this error maps to.
    pub fn status_code(&self) -> (code: u16)
        ensures
            code == self.spec_status_code(),
    {
        match self {
            AppError::DatabaseError(_) => 500,
            AppError::NotFoundError(_) => 404,
            AppError::ValidationError(_) => 400,
            AppError::InternalError(_) => 500,
            AppError::UnauthorizedError(_) => 401,
            AppError::ForbiddenError(_) => 403,
            AppError::BadRequestError(_) => 400,
        }
    }

    pub open spec fn spec_status_code(&self) -> u16 {
        match self {
            AppError::DatabaseError(_) => 500,
            AppError::NotFoundError(_) => 404,
            AppError::ValidationError(_) => 400,
            AppError::InternalError(_) => 500,
            AppError::UnauthorizedError(_) => 401,
            AppError::ForbiddenError(_) => 403,
            AppError::BadRequestError(_) => 400,
        }
    }

    /// The message carried by the error.
    pub fn message(&self) -> (m: &String)
        ensures
            m@ == self.spec_message(),
    {
        match self {
            AppError::DatabaseError(m) => m,
            AppError::NotFoundError(m) => m,
            AppError::ValidationError(m) => m,
            AppError::InternalError(m) => m,
            AppError::UnauthorizedError(m) => m,
            AppError::ForbiddenError(m) => m,
            AppError::BadRequestError(m) => m,
        }
    }

    pub open spec fn spec_message(&self) -> Seq<char> {
        match self {
            AppError::DatabaseError(m) => m@,
            AppError::NotFoundError(m) => m@,
            AppError::ValidationError(m) => m@,
            AppError::InternalError(m) => m@,
            AppError::UnauthorizedError(m) => m@,
            AppError::ForbiddenError(m) => m@,
            AppError::BadRequestError(m) => m@,
        }
    }

    /// The user-visible rendering: the kind's prefix followed by the text.
    pub open spec fn spec_rendered(&self) -> Seq<char> {
        match self {
            AppError::DatabaseError(m) => "Database error: "@ + m@,
            AppError::NotFoundError(m) => "Not found: "@ + m@,
            AppError::ValidationError(m) => "Validation error: "@ + m@,
            AppError::InternalError(m) => "Internal server error: "@ + m@,
            AppError::UnauthorizedError(m) => "Unauthorized: "@ + m@,
            AppError::ForbiddenError(m) => "Forbidden: "@ + m@,
            AppError::BadRequestError(m) => "Bad request: "@ + m@,
        }
    }

    /// Renders the error for a response body.
    pub fn rendered(&self) -> (r: String)
        ensures
            r@ == self.spec_rendered(),
    {
        let mut out = String::new();
        match self {
            AppError::DatabaseError(m) => {
                out.append("Database error: ");
                out.append(m.as_str());
            },
            AppError::NotFoundError(m) => {
                out.append("Not found: ");
                out.append(m.as_str());
            },
            AppError::ValidationError(m) => {
                out.append("Validation error: ");
                out.append(m.as_str());
            },
            AppError::InternalError(m) => {
                out.append("Internal server error: ");
                out.append(m.as_str());
            },
            AppError::UnauthorizedError(m) => {
                out.append("Unauthorized: ");
                out.append(m.as_str());
            },
            AppError::ForbiddenError(m) => {
                out.append("Forbidden: ");
                out.append(m.as_str());
            },
            AppError::BadRequestError(m) => {
                out.append("Bad request: ");
                out.append(m.as_str());
            },
        }
        out
    }
}

/// The JSON error envelope every failed request is shaped into:
/// `{ success: false, message, error_code }`.
pub struct ErrorResponse {
    pub success: bool,
    pub message: String,
    pub error_code: u16,
}

impl ErrorResponse {
    /// Builds the envelope for an error: `success` is always false, the
    /// message is the error's rendering, and the code is its HTTP status.
    pub fn of_error(err: &AppError) -> (r: ErrorResponse)
        ensures
            !r.success,
            r.message@ == err.spec_rendered(),
            r.error_code == err.spec_status_code(),
    {
        ErrorResponse {
            success: false,
            message: err.rendered(),
            error_code: err.status_code(),
        }
    }
}

pub type AppResult<T> = Result<T, AppError>;

} // verus!
