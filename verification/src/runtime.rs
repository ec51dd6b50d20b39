use vstd::prelude::*;
use crate::error::{is_plain_error, AppError, ErrorCode};
use crate::text::str_eq;

verus! {

/// The guard that dangerous commands pass first. The environment is read by
/// the caller: `RUSTFILES_TEST_MODE` and `RUSTFILES_TEST_ROOT`.
pub struct RuntimeGuard;

/// Test mode is on exactly when `RUSTFILES_TEST_MODE` is `1`.
pub open spec fn test_mode_on(value: Option<Seq<char>>) -> bool {
    value == Some("1"@)
}

/// What the guard answers for a test-mode flag and a test root: a test mode
/// without root, or a root without test mode, is a broken configuration.
pub open spec fn guard_verdict(test_mode: bool, has_test_root: bool) -> Option<Seq<char>> {
    if test_mode && !has_test_root {
        Some("RUSTFILES_TEST_MODE=1 但 RUSTFILES_TEST_ROOT 未设置，测试环境配置不完整"@)
    } else if !test_mode && has_test_root {
        Some("RUSTFILES_TEST_ROOT 已设置但 RUSTFILES_TEST_MODE≠1，测试环境配置矛盾"@)
    } else {
        None
    }
}

impl RuntimeGuard {
    /// Whether the value of `RUSTFILES_TEST_MODE` turns test mode on.
    pub fn is_test_mode(value: Option<&str>) -> (r: bool)
        ensures
            r == test_mode_on(
                match value {
                    Some(v) => Some(v@),
                    None => None,
                },
            ),
    {
        match value {
            Some(v) => str_eq(v, "1"),
            None => false,
        }
    }

    /// Refuses a dangerous command when the test configuration is
    /// inconsistent (see `guard_verdict`); production (neither set) and a
    /// complete test setup (both set) pass.
    pub fn guard_dangerous_operation(test_mode: bool, test_root: Option<&str>) -> (r: Result<(), AppError>)
        ensures
            match guard_verdict(test_mode, test_root is Some) {
                Some(msg) => r matches Err(e) && is_plain_error(e, ErrorCode::InternalError, msg),
                None => r is Ok,
            },
    {
        match (test_mode, test_root) {
            (true, None) => Err(
                AppError::new(
                    ErrorCode::InternalError,
                    String::from_str(
                        "RUSTFILES_TEST_MODE=1 但 RUSTFILES_TEST_ROOT 未设置，测试环境配置不完整",
                    ),
                ),
            ),
            (false, Some(_)) => Err(
                AppError::new(
                    ErrorCode::InternalError,
                    String::from_str(
                        "RUSTFILES_TEST_ROOT 已设置但 RUSTFILES_TEST_MODE≠1，测试环境配置矛盾",
                    ),
                ),
            ),
            _ => Ok(()),
        }
    }

    /// A dangerous command needs a confirmation token; without one it gets
    /// the retryable `ConfirmationRequired` error.
    pub fn check_confirmation(confirmation_token: Option<String>) -> (r: Result<(), AppError>)
        ensures
            confirmation_token is Some ==> r is Ok,
            confirmation_token is None ==> (r matches Err(e) && e.code
                == ErrorCode::ConfirmationRequired && e.message@ == "此操作需要确认"@ && e.retryable
                && e.refresh_suggestion is None),
    {
        match confirmation_token {
            Some(_) => Ok(()),
            None => Err(AppError::confirmation_required()),
        }
    }
}

} // verus!
