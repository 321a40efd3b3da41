//! The errors that the library reports.
use vstd::prelude::*;

use crate::strings::owned;

verus! {

/// The kind of a failure, for callers that decide on it.
#[derive(Debug, Clone, Copy, PartialEq, Eq, Structural)]
pub enum ErrorCode {
    InvalidRegex,
    InvalidRequest,
    PermissionDenied,
    WriteFailed,
    InternalError,
}

/// The stable name of an error code.
pub open spec fn code_name(code: ErrorCode) -> Seq<char> {
    match code {
        ErrorCode::InvalidRegex => "invalid_regex"@,
        ErrorCode::InvalidRequest => "invalid_request"@,
        ErrorCode::PermissionDenied => "permission_denied"@,
        ErrorCode::WriteFailed => "write_failed"@,
        ErrorCode::InternalError => "internal_error"@,
    }
}

impl ErrorCode {
    /// The stable name of the code, as it appears in a response.
    pub fn as_str(self) -> (r: &'static str)
        ensures
            r@ == code_name(self),
    {
        match self {
            ErrorCode::InvalidRegex => "invalid_regex",
            ErrorCode::InvalidRequest => "invalid_request",
            ErrorCode::PermissionDenied => "permission_denied",
            ErrorCode::WriteFailed => "write_failed",
            ErrorCode::InternalError => "internal_error",
        }
    }
}

/// An error with a hint that tells the user what to do about it.
#[derive(Debug, Clone, PartialEq, Eq)]
pub struct RipsedError {
    pub code: ErrorCode,
    pub message: String,
    pub hint: String,
    /// The operation of the request that failed, where there is one.
    pub operation_index: Option<usize>,
    /// The offending pattern, where there is one.
    pub pattern: Option<String>,
    /// The file concerned, where there is one.
    pub path: Option<String>,
}

/// What a [`RipsedError`] says.
#[verifier::ext_equal]
pub struct ErrorView {
    pub code: ErrorCode,
    pub message: Seq<char>,
    pub hint: Seq<char>,
    pub operation_index: Option<usize>,
    pub pattern: Option<Seq<char>>,
    pub path: Option<Seq<char>>,
}

/// The view of an optional string.
pub open spec fn opt_view(o: Option<String>) -> Option<Seq<char>> {
    match o {
        Some(s) => Some(s@),
        None => None,
    }
}

impl View for RipsedError {
    type V = ErrorView;

    open spec fn view(&self) -> ErrorView {
        ErrorView {
            code: self.code,
            message: self.message@,
            hint: self.hint@,
            operation_index: self.operation_index,
            pattern: opt_view(self.pattern),
            path: opt_view(self.path),
        }
    }
}

/// A request that cannot be carried out.
pub open spec fn invalid_request_error(message: Seq<char>, hint: Seq<char>) -> ErrorView {
    ErrorView {
        code: ErrorCode::InvalidRequest,
        message,
        hint,
        operation_index: None,
        pattern: None,
        path: None,
    }
}

/// A pattern that does not compile.
pub open spec fn invalid_regex_error(index: usize, pattern: Seq<char>, detail: Seq<char>) -> ErrorView {
    ErrorView {
        code: ErrorCode::InvalidRegex,
        message: "Regex pattern failed to compile: "@ + detail + "."@,
        hint: "Check the regex syntax of '"@ + pattern + "'."@,
        operation_index: Some(index),
        pattern: Some(pattern),
        path: None,
    }
}

/// A file that could not be written.
pub open spec fn write_failed_error(path: Seq<char>, detail: Seq<char>) -> ErrorView {
    ErrorView {
        code: ErrorCode::WriteFailed,
        message: "Failed to write '"@ + path + "': "@ + detail,
        hint: "Check that the file and its directory are writable."@,
        operation_index: None,
        pattern: None,
        path: Some(path),
    }
}

/// A file that may not be read.
pub open spec fn permission_denied_error(path: Seq<char>) -> ErrorView {
    ErrorView {
        code: ErrorCode::PermissionDenied,
        message: "Permission denied: '"@ + path + "'"@,
        hint: "Check the permissions of '"@ + path + "'."@,
        operation_index: None,
        pattern: None,
        path: Some(path),
    }
}

/// A failure outside the request itself.
pub open spec fn internal_error_view(message: Seq<char>) -> ErrorView {
    ErrorView {
        code: ErrorCode::InternalError,
        message,
        hint: "This is an internal failure; run the request again."@,
        operation_index: None,
        pattern: None,
        path: None,
    }
}

impl RipsedError {
    /// An error in the request itself.
    pub fn invalid_request(message: &str, hint: &str) -> (e: RipsedError)
        ensures
            e@ == invalid_request_error(message@, hint@),
    {
        RipsedError {
            code: ErrorCode::InvalidRequest,
            message: owned(message),
            hint: owned(hint),
            operation_index: None,
            pattern: None,
            path: None,
        }
    }

    /// A pattern that the regex engine rejects, with the engine's own words.
    pub fn invalid_regex(index: usize, pattern: &str, detail: &str) -> (e: RipsedError)
        ensures
            e@ == invalid_regex_error(index, pattern@, detail@),
    {
        let mut message = owned("Regex pattern failed to compile: ");
        message.append(detail);
        message.append(".");
        let mut hint = owned("Check the regex syntax of '");
        hint.append(pattern);
        hint.append("'.");
        RipsedError {
            code: ErrorCode::InvalidRegex,
            message,
            hint,
            operation_index: Some(index),
            pattern: Some(owned(pattern)),
            path: None,
        }
    }

    /// A file that could not be written.
    pub fn write_failed(path: &str, detail: &str) -> (e: RipsedError)
        ensures
            e@ == write_failed_error(path@, detail@),
    {
        let mut message = owned("Failed to write '");
        message.append(path);
        message.append("': ");
        message.append(detail);
        RipsedError {
            code: ErrorCode::WriteFailed,
            message,
            hint: owned("Check that the file and its directory are writable."),
            operation_index: None,
            pattern: None,
            path: Some(owned(path)),
        }
    }

    /// A file that may not be read.
    pub fn permission_denied(path: &str) -> (e: RipsedError)
        ensures
            e@ == permission_denied_error(path@),
    {
        let mut message = owned("Permission denied: '");
        message.append(path);
        message.append("'");
        let mut hint = owned("Check the permissions of '");
        hint.append(path);
        hint.append("'.");
        RipsedError {
            code: ErrorCode::PermissionDenied,
            message,
            hint,
            operation_index: None,
            pattern: None,
            path: Some(owned(path)),
        }
    }

    /// A failure outside the request itself.
    pub fn internal_error(message: &str) -> (e: RipsedError)
        ensures
            e@ == internal_error_view(message@),
    {
        RipsedError {
            code: ErrorCode::InternalError,
            message: owned(message),
            hint: owned("This is an internal failure; run the request again."),
            operation_index: None,
            pattern: None,
            path: None,
        }
    }

    /// The text shown to a user: the message, and the hint on a line of its own.
    pub fn display(&self) -> (r: String)
        ensures
            r@ == self@.message + "\n  hint: "@ + self@.hint,
    {
        let mut out = self.message.clone();
        out.append("\n  hint: ");
        out.append(self.hint.as_str());
        out
    }
}

} // verus!
