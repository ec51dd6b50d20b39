use vstd::prelude::*;

verus! {

/// Machine-readable error categories reported to the front end.
#[derive(Clone, Copy, Debug, PartialEq, Eq, Structural)]
pub enum ErrorCode {
    PathNotFound,
    PermissionDenied,
    FileInUse,
    TargetAlreadyExists,
    RecycleBinUnavailable,
    DefaultAppOpenFailed,
    TerminalUnavailable,
    PropertiesOpenFailed,
    CacheUnwritable,
    TestRootEscape,
    ConfirmationRequired,
    NotImplemented,
    InternalError,
}

/// An error with a code, a human-readable message, a retry hint and an
/// optional hint about refreshing the view.
#[derive(Clone, Debug)]
pub struct AppError {
    pub code: ErrorCode,
    pub message: String,
    pub retryable: bool,
    pub refresh_suggestion: Option<String>,
}

/// The kinds of I/O failure the library tells apart.
#[derive(Clone, Copy, Debug, PartialEq, Eq, Structural)]
pub enum IoErrorKind {
    NotFound,
    PermissionDenied,
    Other,
}

/// The error code of an I/O failure: a missing path, a refused access, or
/// an internal error for anything else.
pub open spec fn io_code(kind: IoErrorKind) -> ErrorCode {
    match kind {
        IoErrorKind::NotFound => ErrorCode::PathNotFound,
        IoErrorKind::PermissionDenied => ErrorCode::PermissionDenied,
        IoErrorKind::Other => ErrorCode::InternalError,
    }
}

/// The error code of an I/O failure (see `io_code`).
pub fn io_error_code(kind: IoErrorKind) -> (r: ErrorCode)
    ensures
        r == io_code(kind),
{
    match kind {
        IoErrorKind::NotFound => ErrorCode::PathNotFound,
        IoErrorKind::PermissionDenied => ErrorCode::PermissionDenied,
        IoErrorKind::Other => ErrorCode::InternalError,
    }
}

/// An error as `AppError::new(code, msg)` makes it.
pub open spec fn is_plain_error(e: AppError, code: ErrorCode, msg: Seq<char>) -> bool {
    e.code == code && e.message@ == msg && !e.retryable && e.refresh_suggestion.is_none()
}

impl AppError {
    /// An exact copy.
    pub fn duplicate(&self) -> (e: AppError)
        ensures
            e == *self,
    {
        AppError {
            code: self.code,
            message: self.message.clone(),
            retryable: self.retryable,
            refresh_suggestion: crate::text::clone_opt_string(&self.refresh_suggestion),
        }
    }

    /// A non-retryable error without refresh hint.
    pub fn new(code: ErrorCode, message: String) -> (e: AppError)
        ensures
            e.code == code,
            e.message@ == message@,
            !e.retryable,
            e.refresh_suggestion.is_none(),
    {
        AppError { code, message, retryable: false, refresh_suggestion: None }
    }

    /// The same error with its retry flag replaced.
    pub fn with_retryable(self, retryable: bool) -> (e: AppError)
        ensures
            e.code == self.code,
            e.message@ == self.message@,
            e.retryable == retryable,
            e.refresh_suggestion == self.refresh_suggestion,
    {
        let mut e = self;
        e.retryable = retryable;
        e
    }

    /// The same error with a refresh hint attached.
    pub fn with_refresh(self, suggestion: String) -> (e: AppError)
        ensures
            e.code == self.code,
            e.message@ == self.message@,
            e.retryable == self.retryable,
            e.refresh_suggestion matches Some(s) && s@ == suggestion@,
    {
        let mut e = self;
        e.refresh_suggestion = Some(suggestion);
        e
    }

    /// The error returned when a dangerous command arrives without a
    /// confirmation token; it is retryable.
    pub fn confirmation_required() -> (e: AppError)
        ensures
            e.code == ErrorCode::ConfirmationRequired,
            e.message@ == "此操作需要确认"@,
            e.retryable,
            e.refresh_suggestion.is_none(),
    {
        AppError {
            code: ErrorCode::ConfirmationRequired,
            message: String::from_str("此操作需要确认"),
            retryable: true,
            refresh_suggestion: None,
        }
    }

    /// The error returned by commands that are not implemented yet.
    pub fn not_implemented() -> (e: AppError)
        ensures
            e.code == ErrorCode::NotImplemented,
            e.message@ == "此功能尚未实现"@,
            !e.retryable,
            e.refresh_suggestion.is_none(),
    {
        AppError {
            code: ErrorCode::NotImplemented,
            message: String::from_str("此功能尚未实现"),
            retryable: false,
            refresh_suggestion: None,
        }
    }
}

} // verus!
