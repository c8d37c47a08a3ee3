//! Session handle objects: a persistent portal session exported at
//! `/org/freedesktop/portal/desktop/session/<sender>/<token>`.

use vstd::prelude::*;
use crate::xdp_app_info::AppInfo;
use crate::xdp_request::{
    build_checked_path, build_handle_path, extract_token, handle_path, handle_path_result, opt_value, sanitize_sender, sanitized,
    token_result, OptionValue,
};
use crate::xdp_error::XdpResult;
use crate::text::string_views;

verus! {

/// Object path under which session handles are exported.
const SESSION_BASE_PATH: &'static str = "/org/freedesktop/portal/desktop/session";

/// The object path prefix of session handles.
pub open spec fn session_base_path() -> Seq<char> {
    "/org/freedesktop/portal/desktop/session"@
}

/// A handle for a persistent portal session.
#[derive(Debug, Clone, PartialEq, Eq)]
pub struct SessionHandle {
    /// Full D-Bus object path of the session handle.
    pub path: String,
    /// The token component of the path.
    pub token: String,
    /// The caller's unique bus name.
    pub sender: String,
    /// Resolved application info for the caller.
    pub app_info: AppInfo,
    /// Creation time in milliseconds since epoch.
    pub created_ms: u64,
    /// Whether the session has been closed.
    pub is_closed: bool,
    /// Close reason, if closed.
    pub reason: Option<u32>,
}

impl SessionHandle {
    /// Creates an open session handle for `sender` at the path built from
    /// the sanitized sender and `token`.
    pub fn new(sender: &str, token: String, app_info: AppInfo, created_ms: u64) -> (r: SessionHandle)
        ensures
            r.path@ == handle_path(session_base_path(), sender@, token@),
            r.token@ == token@,
            r.sender@ == sender@,
            r.app_info == app_info,
            r.created_ms == created_ms,
            !r.is_closed,
            r.reason is None,
    {
        let path = build_handle_path(SESSION_BASE_PATH, sender, token.as_str());
        SessionHandle {
            path,
            token,
            sender: String::from_str(sender),
            app_info,
            created_ms,
            is_closed: false,
            reason: None,
        }
    }

    /// Returns the sanitized sender component used in the path.
    pub fn sanitized_sender(&self) -> (r: String)
        ensures
            r@ == sanitized(self.sender@),
    {
        sanitize_sender(self.sender.as_str())
    }
}

/// Validates `token` and builds the session path of `sender`, refusing a
/// path among `claimed_paths`.
pub fn build_session_path(sender: &str, token: &str, claimed_paths: &Vec<String>) -> (r: XdpResult<String>)
    ensures
        handle_path_result(session_base_path(), "Session"@, sender@, token@, string_views(claimed_paths@), r),
{
    build_checked_path(SESSION_BASE_PATH, "Session", sender, token, claimed_paths)
}

/// The session token given as the `session_handle_token` option, whose
/// value is `value` (`None` when the option is absent): `Ok(None)` when
/// absent, so that the caller generates one, the token when valid, else
/// `InvalidArgument`.
pub fn extract_session_token(value: Option<&OptionValue>) -> (r: XdpResult<Option<String>>)
    ensures
        token_result(opt_value(value), "session_handle_token"@, r),
{
    extract_token(value, "session_handle_token")
}

} // verus!
