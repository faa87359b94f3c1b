//! The request-time error taxonomy: a closed set of failure kinds, each with
//! a status code, a stable machine-readable code and a public-safe message,
//! and the total conversion into the uniform wire body.

use vstd::prelude::*;

verus! {

/// Closed taxonomy of request-time failures. Only `Internal` carries a
/// server-generated correlation id.
#[derive(Clone, Debug)]
pub enum AppError {
    BadRequest { message: String },
    NotFound,
    Unauthorized,
    Forbidden,
    Conflict { message: String },
    Internal { error_id: String },
}

/// Wire body of an error response; `error_id` is present exactly for
/// internal errors.
#[derive(Clone, Debug)]
pub struct ErrorResponse {
    pub code: String,
    pub message: String,
    pub error_id: Option<String>,
}

pub open spec fn is_hex_lower(c: char) -> bool {
    ('0' <= c && c <= '9') || ('a' <= c && c <= 'f')
}

/// The hyphenated textual form of a unique identifier: 36 characters,
/// hyphens at positions 8, 13, 18 and 23, lowercase hex elsewhere.
pub open spec fn is_uuid_text(s: Seq<char>) -> bool {
    s.len() == 36 && forall|i: int|
        0 <= i < 36 ==> (if i == 8 || i == 13 || i == 18 || i == 23 {
            s[i] == '-'
        } else {
            is_hex_lower(s[i])
        })
}

/// Relies on uuid::Uuid::new_v4 and its Display impl: a fresh random
/// version-4 identifier, rendered as 36 hyphenated lowercase hex characters.
#[verifier::external_body]
pub(crate) fn fresh_uuid_string() -> (r: String)
    ensures
        is_uuid_text(r@),
{
    uuid::Uuid::new_v4().to_string()
}

impl AppError {
    /// An internal error's correlation id has the identifier shape.
    pub open spec fn wf(self) -> bool {
        match self {
            AppError::Internal { error_id } => is_uuid_text(error_id@),
            _ => true,
        }
    }

    /// Status mapping of the taxonomy table.
    pub open spec fn spec_status(self) -> u16 {
        match self {
            AppError::BadRequest { .. } => 400,
            AppError::NotFound => 404,
            AppError::Unauthorized => 401,
            AppError::Forbidden => 403,
            AppError::Conflict { .. } => 409,
            AppError::Internal { .. } => 500,
        }
    }

    /// Stable machine-readable code of each kind.
    pub open spec fn spec_code(self) -> Seq<char> {
        match self {
            AppError::BadRequest { .. } => "bad_request"@,
            AppError::NotFound => "not_found"@,
            AppError::Unauthorized => "unauthorized"@,
            AppError::Forbidden => "forbidden"@,
            AppError::Conflict { .. } => "conflict"@,
            AppError::Internal { .. } => "internal"@,
        }
    }

    /// Public-safe message: caller-supplied text verbatim for bad requests
    /// and conflicts, a fixed generic text otherwise; internal detail never
    /// leaves the process.
    pub open spec fn spec_public_message(self) -> Seq<char> {
        match self {
            AppError::BadRequest { message } => message@,
            AppError::NotFound => "Not found"@,
            AppError::Unauthorized => "Unauthorized"@,
            AppError::Forbidden => "Forbidden"@,
            AppError::Conflict { message } => message@,
            AppError::Internal { .. } => "Internal server error"@,
        }
    }

    /// The correlation id the wire body must carry, present exactly for
    /// internal errors.
    pub open spec fn spec_error_id(self) -> Option<Seq<char>> {
        match self {
            AppError::Internal { error_id } => Some(error_id@),
            _ => None,
        }
    }

    pub fn bad_request(message: &str) -> (r: AppError)
        ensures
            r matches AppError::BadRequest { message: m } && m@ == message@,
            r.wf(),
    {
        AppError::BadRequest { message: message.to_owned() }
    }

    /// A fresh internal error: the correlation id is generated here, once
    /// per error value.
    pub fn internal() -> (r: AppError)
        ensures
            r is Internal,
            r.wf(),
    {
        AppError::Internal { error_id: fresh_uuid_string() }
    }

    pub fn status_code(&self) -> (r: u16)
        ensures
            r == self.spec_status(),
    {
        match self {
            AppError::BadRequest { .. } => 400,
            AppError::NotFound => 404,
            AppError::Unauthorized => 401,
            AppError::Forbidden => 403,
            AppError::Conflict { .. } => 409,
            AppError::Internal { .. } => 500,
        }
    }

    pub fn error_code(&self) -> (r: &'static str)
        ensures
            r@ == self.spec_code(),
    {
        match self {
            AppError::BadRequest { .. } => "bad_request",
            AppError::NotFound => "not_found",
            AppError::Unauthorized => "unauthorized",
            AppError::Forbidden => "forbidden",
            AppError::Conflict { .. } => "conflict",
            AppError::Internal { .. } => "internal",
        }
    }

    pub fn public_message(&self) -> (r: String)
        ensures
            r@ == self.spec_public_message(),
    {
        match self {
            AppError::BadRequest { message } => message.clone(),
            AppError::NotFound => "Not found".to_owned(),
            AppError::Unauthorized => "Unauthorized".to_owned(),
            AppError::Forbidden => "Forbidden".to_owned(),
            AppError::Conflict { message } => message.clone(),
            AppError::Internal { .. } => "Internal server error".to_owned(),
        }
    }

    /// Total, pure conversion into the wire body.
    pub fn to_response(&self) -> (r: ErrorResponse)
        ensures
            response_matches(*self, r),
    {
        let error_id = match self {
            AppError::Internal { error_id } => Some(error_id.clone()),
            _ => None,
        };
        ErrorResponse {
            code: self.error_code().to_owned(),
            message: self.public_message(),
            error_id,
        }
    }
}

/// What the wire body of an error must look like: code, message and
/// correlation id are all functions of the error value alone.
pub open spec fn response_matches(e: AppError, r: ErrorResponse) -> bool {
    &&& r.code@ == e.spec_code()
    &&& r.message@ == e.spec_public_message()
    &&& (match (r.error_id, e.spec_error_id()) {
        (Some(a), Some(b)) => a@ == b,
        (None, None) => true,
        _ => false,
    })
}

/// The conversion is total over the closed taxonomy: every kind maps to a
/// status from the table with its stable code, and a correlation id is
/// present exactly for internal errors.
pub proof fn lemma_taxonomy_total(e: AppError, r: ErrorResponse)
    requires
        response_matches(e, r),
    ensures
        e matches AppError::BadRequest { .. } ==> e.spec_status() == 400 && r.code@
            == "bad_request"@,
        e is NotFound ==> e.spec_status() == 404 && r.code@ == "not_found"@,
        e is Unauthorized ==> e.spec_status() == 401 && r.code@ == "unauthorized"@,
        e is Forbidden ==> e.spec_status() == 403 && r.code@ == "forbidden"@,
        e matches AppError::Conflict { .. } ==> e.spec_status() == 409 && r.code@ == "conflict"@,
        e matches AppError::Internal { .. } ==> e.spec_status() == 500 && r.code@ == "internal"@,
        r.error_id is Some <==> e is Internal,
{
}

/// Converting the same error twice yields identical bodies: the correlation
/// id lives in the error value, not in the conversion.
pub proof fn lemma_conversion_deterministic(e: AppError, r1: ErrorResponse, r2: ErrorResponse)
    requires
        response_matches(e, r1),
        response_matches(e, r2),
    ensures
        r1.code@ == r2.code@,
        r1.message@ == r2.message@,
        r1.error_id is Some <==> r2.error_id is Some,
        r1.error_id matches Some(a) ==> (r2.error_id matches Some(b) && a@ == b@),
{
}

} // verus!
