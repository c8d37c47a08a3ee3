//! Request handle objects: a pending portal operation exported at
//! `/org/freedesktop/portal/desktop/request/<sender>/<token>`, where the
//! caller's unique name has `:` and `.` replaced with `_`.

use vstd::prelude::*;
use crate::http_text::str_chars;
use crate::text::chars_to_string;
use crate::xdp_app_info::AppInfo;
use crate::xdp_error::{PortalError, XdpResult};
use crate::xdp_portal_config::contains_str;
use crate::text::string_views;

verus! {

broadcast use vstd::seq::group_seq_axioms;

/// Object path under which request handles are exported.
pub const REQUEST_BASE_PATH: &'static str = "/org/freedesktop/portal/desktop/request";

/// `sender` with `:` and `.` replaced by `_`.
pub open spec fn sanitized(sender: Seq<char>) -> Seq<char> {
    sender.map_values(|c: char| if c == ':' || c == '.' { '_' } else { c })
}

/// `base`, the sanitized `sender` and `token`, joined with `/`.
pub open spec fn handle_path(base: Seq<char>, sender: Seq<char>, token: Seq<char>) -> Seq<char> {
    base + "/"@ + sanitized(sender) + "/"@ + token
}

/// Sanitizes a sender name for use in an object path: replaces `:` and
/// `.` with `_`.
pub fn sanitize_sender(sender: &str) -> (r: String)
    ensures
        r@ == sanitized(sender@),
{
    let cs = str_chars(sender);
    let mut out: Vec<char> = Vec::new();
    let mut i: usize = 0;
    while i < cs.len()
        invariant
            cs@ == sender@,
            i <= cs@.len(),
            out@ == sanitized(cs@.subrange(0, i as int)),
        decreases cs@.len() - i,
    {
        let c = cs[i];
        if c == ':' || c == '.' {
            out.push('_');
        } else {
            out.push(c);
        }
        i = i + 1;
        proof {
            assert(out@ =~= sanitized(cs@.subrange(0, i as int)));
        }
    }
    proof {
        assert(cs@.subrange(0, cs@.len() as int) =~= cs@);
    }
    chars_to_string(out.as_slice())
}

/// `base/<sanitized sender>/token`.
pub(crate) fn build_handle_path(base: &str, sender: &str, token: &str) -> (r: String)
    ensures
        r@ == handle_path(base@, sender@, token@),
{
    let sanitized = sanitize_sender(sender);
    let mut path = String::from_str(base);
    path.append("/");
    path.append(sanitized.as_str());
    path.append("/");
    path.append(token);
    path
}

/// A handle for a portal request that returns a request object path.
#[derive(Debug, Clone, PartialEq, Eq)]
pub struct RequestHandle {
    /// Full D-Bus object path of the request handle.
    pub path: String,
    /// The token component of the path.
    pub token: String,
    /// The caller's unique bus name.
    pub sender: String,
    /// Resolved application info for the caller.
    pub app_info: AppInfo,
    /// Creation time in milliseconds since epoch.
    pub created_ms: u64,
    /// Whether the request has been closed or completed.
    pub is_closed: bool,
    /// Optional implementation request path for forwarding Close.
    pub impl_request_path: Option<String>,
}

impl RequestHandle {
    /// Creates an open request handle for `sender` at the path built from
    /// the sanitized sender and `token`.
    pub fn new(sender: &str, token: String, app_info: AppInfo, created_ms: u64) -> (r: RequestHandle)
        ensures
            r.path@ == handle_path(REQUEST_BASE_PATH@, sender@, token@),
            r.token@ == token@,
            r.sender@ == sender@,
            r.app_info == app_info,
            r.created_ms == created_ms,
            !r.is_closed,
            r.impl_request_path is None,
    {
        let path = build_handle_path(REQUEST_BASE_PATH, sender, token.as_str());
        RequestHandle {
            path,
            token,
            sender: String::from_str(sender),
            app_info,
            created_ms,
            is_closed: false,
            impl_request_path: None,
        }
    }

    /// Returns the sanitized sender component used in the path.
    pub fn sanitized_sender(&self) -> (r: String)
        ensures
            r@ == sanitized(self.sender@),
    {
        sanitize_sender(self.sender.as_str())
    }
}

/// A character allowed in a handle token: an ASCII letter, digit or `_`.
pub open spec fn token_char(c: char) -> bool {
    ('a' <= c && c <= 'z') || ('A' <= c && c <= 'Z') || ('0' <= c && c <= '9') || c == '_'
}

/// A handle token is one element of an object path: non-empty, made of
/// ASCII letters, digits and `_`.
pub open spec fn valid_token(t: Seq<char>) -> bool {
    t.len() > 0 && forall|i: int| 0 <= i < t.len() ==> token_char(#[trigger] t[i])
}

/// Whether `token` can name a request or session handle.
pub fn is_valid_token(token: &str) -> (r: bool)
    ensures
        r == valid_token(token@),
{
    let cs = str_chars(token);
    if cs.len() == 0 {
        return false;
    }
    let mut i: usize = 0;
    while i < cs.len()
        invariant
            cs@ == token@,
            i <= cs@.len(),
            forall|j: int| 0 <= j < i ==> token_char(#[trigger] cs@[j]),
        decreases cs@.len() - i,
    {
        let c = cs[i];
        if !(('a' <= c && c <= 'z') || ('A' <= c && c <= 'Z') || ('0' <= c && c <= '9') || c == '_') {
            return false;
        }
        i = i + 1;
    }
    true
}

/// Why a handle path cannot be built: an invalid token, or a path that is
/// already claimed (`kind` names the handle).
pub open spec fn handle_path_result(
    base: Seq<char>,
    kind: Seq<char>,
    sender: Seq<char>,
    token: Seq<char>,
    claimed: Seq<Seq<char>>,
    r: XdpResult<String>,
) -> bool {
    let path = handle_path(base, sender, token);
    if !valid_token(token) {
        r matches Err(PortalError::InvalidArgument(m)) && m@ == "Invalid token: "@ + token
    } else if claimed.contains(path) {
        r matches Err(PortalError::Exists(m)) && m@ == kind + " path already claimed: "@ + path
    } else {
        r matches Ok(p) && p@ == path
    }
}

/// `base/<sanitized sender>/token` after checking the token and that no
/// claimed path is taken.
pub(crate) fn build_checked_path(
    base: &str,
    kind: &str,
    sender: &str,
    token: &str,
    claimed_paths: &Vec<String>,
) -> (r: XdpResult<String>)
    ensures
        handle_path_result(base@, kind@, sender@, token@, string_views(claimed_paths@), r),
{
    if !is_valid_token(token) {
        let mut m = String::from_str("Invalid token: ");
        m.append(token);
        return Err(PortalError::InvalidArgument(m));
    }
    let path = build_handle_path(base, sender, token);
    if contains_str(claimed_paths, path.as_str()) {
        let mut m = String::from_str(kind);
        m.append(" path already claimed: ");
        m.append(path.as_str());
        return Err(PortalError::Exists(m));
    }
    Ok(path)
}

/// Validates `token` and builds the request path of `sender`, refusing a
/// path among `claimed_paths`.
pub fn build_request_path(sender: &str, token: &str, claimed_paths: &Vec<String>) -> (r: XdpResult<String>)
    ensures
        handle_path_result(REQUEST_BASE_PATH@, "Request"@, sender@, token@, string_views(claimed_paths@), r),
{
    build_checked_path(REQUEST_BASE_PATH, "Request", sender, token, claimed_paths)
}

/// A value of the `options` dictionary that a method receives, as far as
/// token extraction tells them apart.
#[derive(Debug, Clone, PartialEq, Eq)]
pub enum OptionValue {
    /// A string (`s`).
    Str(String),
    /// A boolean (`b`).
    Bool(bool),
    /// An unsigned 32-bit integer (`u`).
    U32(u32),
    /// An object path (`o`).
    ObjectPath(String),
}

/// What extracting the token held under the option `key` gives for the
/// value `value` found there: `Ok(None)` when the option is absent (the
/// caller then generates a token), the token when it is a valid one, and
/// `InvalidArgument` otherwise.
pub open spec fn token_result(value: Option<OptionValue>, key: Seq<char>, r: XdpResult<Option<String>>) -> bool {
    match value {
        None => r matches Ok(None),
        Some(OptionValue::Str(t)) => if valid_token(t@) {
            r matches Ok(Some(s)) && s@ == t@
        } else {
            r matches Err(PortalError::InvalidArgument(m)) && m@ == "Invalid "@ + key + ": "@ + t@
        },
        Some(_) => r matches Err(PortalError::InvalidArgument(m)) && m@ == key + " must be a string"@,
    }
}

/// The value an optional reference points at.
pub open spec fn opt_value(value: Option<&OptionValue>) -> Option<OptionValue> {
    match value {
        Some(v) => Some(*v),
        None => None,
    }
}

/// Reads the token held under the option `key`, given what the options
/// hold there.
pub(crate) fn extract_token(value: Option<&OptionValue>, key: &str) -> (r: XdpResult<Option<String>>)
    ensures
        token_result(opt_value(value), key@, r),
{
    match value {
        None => Ok(None),
        Some(OptionValue::Str(token)) => {
            if is_valid_token(token.as_str()) {
                Ok(Some(token.clone()))
            } else {
                let mut m = String::from_str("Invalid ");
                m.append(key);
                m.append(": ");
                m.append(token.as_str());
                Err(PortalError::InvalidArgument(m))
            }
        },
        Some(_) => {
            let mut m = String::from_str(key);
            m.append(" must be a string");
            Err(PortalError::InvalidArgument(m))
        },
    }
}

/// The request token given as the `handle_token` option, whose value is
/// `value` (`None` when the option is absent): `Ok(None)` when absent, so
/// that the caller generates one, the token when valid, else
/// `InvalidArgument`.
pub fn extract_handle_token(value: Option<&OptionValue>) -> (r: XdpResult<Option<String>>)
    ensures
        token_result(opt_value(value), "handle_token"@, r),
{
    extract_token(value, "handle_token")
}

} // verus!
