//! Why a request fails, and how that is answered.

use vstd::prelude::*;

verus! {

/// Why a request fails.
#[derive(Debug)]
pub enum ServiceError {
    /// Something went wrong here. What it was is not told.
    InternalServerError(String),
    /// Something is wrong with the request.
    BadRequest(String),
    /// The request needs somebody who is logged in and may make it.
    Unauthorized,
}

/// The body of an answer, sent as JSON.
#[derive(Debug)]
pub enum ErrorBody {
    /// A text.
    Text(String),
    /// An object with a text under `error`.
    Error(String),
}

/// The answer to a request that fails.
#[derive(Debug)]
pub struct ErrorResponse {
    pub status: u16,
    pub body: ErrorBody,
}

impl ServiceError {
    /// What the error is called.
    pub fn message(&self) -> (r: String)
        ensures
            r@ == match *self {
                ServiceError::InternalServerError(_) => "Internal Server Error"@,
                ServiceError::BadRequest(_) => "BadRequest"@,
                ServiceError::Unauthorized => "Unauthorized"@,
            },
    {
        match self {
            ServiceError::InternalServerError(_) => "Internal Server Error".to_owned(),
            ServiceError::BadRequest(_) => "BadRequest".to_owned(),
            ServiceError::Unauthorized => "Unauthorized".to_owned(),
        }
    }

    /// How the error is answered.
    pub fn error_response(&self) -> (r: ErrorResponse)
        ensures
            match *self {
                ServiceError::InternalServerError(_) => r.status == 500 && (
                r.body matches ErrorBody::Text(text) && text@
                    == "Internal Server Error, Please try later"@),
                ServiceError::BadRequest(message) => r.status == 400 && (
                r.body matches ErrorBody::Text(text) && text@ == message@),
                ServiceError::Unauthorized => r.status == 401 && (
                r.body matches ErrorBody::Error(text) && text@ == "unauthorized"@),
            },
    {
        match self {
            ServiceError::InternalServerError(_) => ErrorResponse {
                status: 500,
                body: ErrorBody::Text("Internal Server Error, Please try later".to_owned()),
            },
            ServiceError::BadRequest(message) => ErrorResponse {
                status: 400,
                body: ErrorBody::Text(message.clone()),
            },
            ServiceError::Unauthorized => ErrorResponse {
                status: 401,
                body: ErrorBody::Error("unauthorized".to_owned()),
            },
        }
    }
}

} // verus!
