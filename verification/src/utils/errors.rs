//! Errors that reach the caller of the HTTP layer, and how each is reported.

use vstd::prelude::*;
use std::collections::HashMap;

verus! {

/// Why a request was turned down.
#[derive(Debug)]
pub enum AppError {
    ValidationError(HashMap<String, Vec<String>>),
    NotFound(String),
    Unauthorized(String),
    Forbidden(String),
    Conflict(String),
    BadRequest(String),
    UnsupportedMediaType(String),
    PayloadTooLarge(String),
    InternalServerError(String),
}

/// The HTTP status under which an error is reported.
pub open spec fn status_of(error: AppError) -> u16 {
    match error {
        AppError::ValidationError(_) => 400,
        AppError::NotFound(_) => 404,
        AppError::Unauthorized(_) => 401,
        AppError::Forbidden(_) => 403,
        AppError::Conflict(_) => 409,
        AppError::BadRequest(_) => 400,
        AppError::UnsupportedMediaType(_) => 415,
        AppError::PayloadTooLarge(_) => 413,
        AppError::InternalServerError(_) => 500,
    }
}

/// The code by which an error is named in the body of the answer.
pub open spec fn type_of(error: AppError) -> Seq<char> {
    match error {
        AppError::ValidationError(_) => "VALIDATION_ERROR"@,
        AppError::NotFound(_) => "NOT_FOUND"@,
        AppError::Unauthorized(_) => "UNAUTHORIZED"@,
        AppError::Forbidden(_) => "FORBIDDEN"@,
        AppError::Conflict(_) => "CONFLICT"@,
        AppError::BadRequest(_) => "BAD_REQUEST"@,
        AppError::UnsupportedMediaType(_) => "UNSUPPORTED_MEDIA_TYPE"@,
        AppError::PayloadTooLarge(_) => "PAYLOAD_TOO_LARGE"@,
        AppError::InternalServerError(_) => "INTERNAL_SERVER_ERROR"@,
    }
}

/// The message of an error: its own, and a fixed one for failed validation.
pub open spec fn message_of(error: AppError) -> Seq<char> {
    match error {
        AppError::ValidationError(_) => "Validation failed"@,
        AppError::NotFound(m) => m@,
        AppError::Unauthorized(m) => m@,
        AppError::Forbidden(m) => m@,
        AppError::Conflict(m) => m@,
        AppError::BadRequest(m) => m@,
        AppError::UnsupportedMediaType(m) => m@,
        AppError::PayloadTooLarge(m) => m@,
        AppError::InternalServerError(m) => m@,
    }
}

impl AppError {
    /// The HTTP status under which the error is reported.
    pub fn status_code(&self) -> (code: u16)
        ensures
            code == status_of(*self),
    {
        match self {
            AppError::ValidationError(_) => 400,
            AppError::NotFound(_) => 404,
            AppError::Unauthorized(_) => 401,
            AppError::Forbidden(_) => 403,
            AppError::Conflict(_) => 409,
            AppError::BadRequest(_) => 400,
            AppError::UnsupportedMediaType(_) => 415,
            AppError::PayloadTooLarge(_) => 413,
            AppError::InternalServerError(_) => 500,
        }
    }

    /// The code by which the error is named in the body of the answer.
    pub fn error_type(&self) -> (code: &'static str)
        ensures
            code@ == type_of(*self),
    {
        match self {
            AppError::ValidationError(_) => "VALIDATION_ERROR",
            AppError::NotFound(_) => "NOT_FOUND",
            AppError::Unauthorized(_) => "UNAUTHORIZED",
            AppError::Forbidden(_) => "FORBIDDEN",
            AppError::Conflict(_) => "CONFLICT",
            AppError::BadRequest(_) => "BAD_REQUEST",
            AppError::UnsupportedMediaType(_) => "UNSUPPORTED_MEDIA_TYPE",
            AppError::PayloadTooLarge(_) => "PAYLOAD_TOO_LARGE",
            AppError::InternalServerError(_) => "INTERNAL_SERVER_ERROR",
        }
    }

    /// The message of the error.
    pub fn message(&self) -> (text: String)
        ensures
            text@ == message_of(*self),
    {
        match self {
            AppError::ValidationError(_) => "Validation failed".to_owned(),
            AppError::NotFound(m) => m.clone(),
            AppError::Unauthorized(m) => m.clone(),
            AppError::Forbidden(m) => m.clone(),
            AppError::Conflict(m) => m.clone(),
            AppError::BadRequest(m) => m.clone(),
            AppError::UnsupportedMediaType(m) => m.clone(),
            AppError::PayloadTooLarge(m) => m.clone(),
            AppError::InternalServerError(m) => m.clone(),
        }
    }

    /// The messages of failed validation, field by field; no other error
    /// carries any.
    pub fn details(&self) -> (r: Option<&HashMap<String, Vec<String>>>)
        ensures
            match r {
                Some(fields) => *self == AppError::ValidationError(*fields),
                None => !(*self is ValidationError),
            },
    {
        match self {
            AppError::ValidationError(fields) => Some(fields),
            _ => None,
        }
    }
}

} // verus!
