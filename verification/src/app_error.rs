//! The error value every fallible operation of the library returns.
use vstd::prelude::*;
use crate::json::{JsonValue, is_empty_object};
use crate::text::owned;

verus! {

/// An application error: a stable code, a category, a message, whether a
/// retry may succeed, and structured details.
#[derive(Debug)]
pub struct AppError {
    pub schema_version: u32,
    pub code: String,
    pub category: String,
    pub message: String,
    pub retryable: bool,
    pub details: JsonValue,
}

pub type AppResult<T> = Result<T, AppError>;

impl AppError {
    pub fn new(code: &str, category: &str, message: &str, retryable: bool, details: JsonValue) -> (r:
        Self)
        ensures
            r.schema_version == 1,
            r.code@ == code@,
            r.category@ == category@,
            r.message@ == message@,
            r.retryable == retryable,
            r.details == details,
    {
        AppError {
            schema_version: 1,
            code: owned(code),
            category: owned(category),
            message: owned(message),
            retryable,
            details,
        }
    }

    pub fn internal(message: &str) -> (r: Self)
        ensures
            r.schema_version == 1,
            r.code@ == "KC_INTERNAL_ERROR"@,
            r.category@ == "internal"@,
            r.message@ == message@,
            !r.retryable,
            is_empty_object(r.details),
    {
        Self::new("KC_INTERNAL_ERROR", "internal", message, false, JsonValue::Object(Vec::new()))
    }
}

} // verus!
