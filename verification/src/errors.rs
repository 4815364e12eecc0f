//! Categorized application errors: a code naming the failure class, a short
//! message, and an optional detail string.

use vstd::prelude::*;

verus! {

/// The failure classes that operations report.
#[derive(Debug, Clone, Copy, PartialEq, Eq, Structural)]
pub enum ErrorCode {
    NetworkError,
    InterfaceError,
    SpoofingError,
    SystemError,
    PermissionError,
    ConfigurationError,
    UnknownError,
}

/// A categorized error: `(category, message, detail)`.
#[derive(Debug, Clone)]
pub struct AppError {
    pub code: ErrorCode,
    pub message: String,
    pub details: Option<String>,
}

/// The fixed tag that each error code prints as.
pub open spec fn spec_code_str(c: ErrorCode) -> Seq<char> {
    match c {
        ErrorCode::NetworkError => "NETWORK_ERROR"@,
        ErrorCode::InterfaceError => "INTERFACE_ERROR"@,
        ErrorCode::SpoofingError => "SPOOFING_ERROR"@,
        ErrorCode::SystemError => "SYSTEM_ERROR"@,
        ErrorCode::PermissionError => "PERMISSION_ERROR"@,
        ErrorCode::ConfigurationError => "CONFIG_ERROR"@,
        ErrorCode::UnknownError => "UNKNOWN_ERROR"@,
    }
}

/// The display form of an error: `[TAG] message`.
pub open spec fn spec_error_display(e: AppError) -> Seq<char> {
    seq!['['] + spec_code_str(e.code) + seq![']', ' '] + e.message@
}

impl ErrorCode {
    /// The tag this code prints as.
    pub fn code_str(&self) -> (r: String)
        ensures
            r@ == spec_code_str(*self),
    {
        match self {
            ErrorCode::NetworkError => String::from_str("NETWORK_ERROR"),
            ErrorCode::InterfaceError => String::from_str("INTERFACE_ERROR"),
            ErrorCode::SpoofingError => String::from_str("SPOOFING_ERROR"),
            ErrorCode::SystemError => String::from_str("SYSTEM_ERROR"),
            ErrorCode::PermissionError => String::from_str("PERMISSION_ERROR"),
            ErrorCode::ConfigurationError => String::from_str("CONFIG_ERROR"),
            ErrorCode::UnknownError => String::from_str("UNKNOWN_ERROR"),
        }
    }
}

impl AppError {
    /// The display form `[TAG] message`.
    pub fn display_string(&self) -> (r: String)
        ensures
            r@ == spec_error_display(*self),
    {
        proof {
            reveal_strlit("[");
            reveal_strlit("] ");
        }
        let mut s = String::from_str("[");
        let tag = self.code.code_str();
        s.append(tag.as_str());
        s.append("] ");
        s.append(self.message.as_str());
        proof {
            assert(s@ =~= spec_error_display(*self));
        }
        s
    }
}

/// Creates a new categorized error from a code, a message and optional detail.
pub fn new_error(code: ErrorCode, message: &str, details: Option<&str>) -> (r: AppError)
    ensures
        r.code == code,
        r.message@ == message@,
        match (r.details, details) {
            (Some(rd), Some(d)) => rd@ == d@,
            (None, None) => true,
            _ => false,
        },
{
    let owned_details = match details {
        Some(d) => Some(String::from_str(d)),
        None => None,
    };
    AppError { code, message: String::from_str(message), details: owned_details }
}

/// Wraps a plain error string as an uncategorized error.
pub fn from_string(error_str: String) -> (r: AppError)
    ensures
        r.code == ErrorCode::UnknownError,
        r.message@ == error_str@,
        r.details is None,
{
    new_error(ErrorCode::UnknownError, error_str.as_str(), None)
}

/// A network-category error.
pub fn network_error(message: &str, details: Option<&str>) -> (r: AppError)
    ensures
        r.code == ErrorCode::NetworkError,
        r.message@ == message@,
        match (r.details, details) {
            (Some(rd), Some(d)) => rd@ == d@,
            (None, None) => true,
            _ => false,
        },
{
    new_error(ErrorCode::NetworkError, message, details)
}

/// An interface-category error.
pub fn interface_error(message: &str, details: Option<&str>) -> (r: AppError)
    ensures
        r.code == ErrorCode::InterfaceError,
        r.message@ == message@,
        match (r.details, details) {
            (Some(rd), Some(d)) => rd@ == d@,
            (None, None) => true,
            _ => false,
        },
{
    new_error(ErrorCode::InterfaceError, message, details)
}

/// A spoofing-category error.
pub fn spoofing_error(message: &str, details: Option<&str>) -> (r: AppError)
    ensures
        r.code == ErrorCode::SpoofingError,
        r.message@ == message@,
        match (r.details, details) {
            (Some(rd), Some(d)) => rd@ == d@,
            (None, None) => true,
            _ => false,
        },
{
    new_error(ErrorCode::SpoofingError, message, details)
}

/// A system-category error.
pub fn system_error(message: &str, details: Option<&str>) -> (r: AppError)
    ensures
        r.code == ErrorCode::SystemError,
        r.message@ == message@,
        match (r.details, details) {
            (Some(rd), Some(d)) => rd@ == d@,
            (None, None) => true,
            _ => false,
        },
{
    new_error(ErrorCode::SystemError, message, details)
}

/// A permission-category error.
pub fn permission_error(message: &str, details: Option<&str>) -> (r: AppError)
    ensures
        r.code == ErrorCode::PermissionError,
        r.message@ == message@,
        match (r.details, details) {
            (Some(rd), Some(d)) => rd@ == d@,
            (None, None) => true,
            _ => false,
        },
{
    new_error(ErrorCode::PermissionError, message, details)
}

/// A configuration-category error.
pub fn config_error(message: &str, details: Option<&str>) -> (r: AppError)
    ensures
        r.code == ErrorCode::ConfigurationError,
        r.message@ == message@,
        match (r.details, details) {
            (Some(rd), Some(d)) => rd@ == d@,
            (None, None) => true,
            _ => false,
        },
{
    new_error(ErrorCode::ConfigurationError, message, details)
}

/// Flattens an error to a plain string: `message: details`, or the message
/// alone when there is no detail.
pub fn to_string_error(error: AppError) -> (r: String)
    ensures
        match error.details {
            Some(d) => r@ == error.message@ + ": "@ + d@,
            None => r@ == error.message@,
        },
{
    match error.details {
        Some(details) => {
            let mut s = error.message;
            s.append(": ");
            s.append(details.as_str());
            s
        },
        None => error.message,
    }
}

} // verus!
