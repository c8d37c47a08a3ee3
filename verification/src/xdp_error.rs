//! Errors of the desktop portal in the `org.freedesktop.portal.Error` domain.

use vstd::prelude::*;
use crate::header_map::str_eq;

verus! {

/// A portal-level failure with an `org.freedesktop.portal.Error.*` error
/// code and a human readable message.
#[derive(Clone, Debug, PartialEq, Eq)]
pub enum PortalError {
    /// `org.freedesktop.portal.Error.Failed`: an unspecified failure.
    Failed(String),
    /// `org.freedesktop.portal.Error.InvalidArgument`: an argument failed
    /// validation.
    InvalidArgument(String),
    /// `org.freedesktop.portal.Error.NotFound`: a referenced object does not
    /// exist.
    NotFound(String),
    /// `org.freedesktop.portal.Error.Exists`: the object already exists.
    Exists(String),
    /// `org.freedesktop.portal.Error.NotAllowed`: the operation is not
    /// permitted.
    NotAllowed(String),
    /// `org.freedesktop.portal.Error.Cancelled`: the operation was cancelled.
    Cancelled(String),
    /// `org.freedesktop.portal.Error.WindowDestroyed`: the parent window went
    /// away.
    WindowDestroyed(String),
}

/// Result type of portal operations.
pub type XdpResult<T> = Result<T, PortalError>;

/// The D-Bus error name of each error code.
pub open spec fn error_name(e: PortalError) -> Seq<char> {
    match e {
        PortalError::Failed(_) => "org.freedesktop.portal.Error.Failed"@,
        PortalError::InvalidArgument(_) => "org.freedesktop.portal.Error.InvalidArgument"@,
        PortalError::NotFound(_) => "org.freedesktop.portal.Error.NotFound"@,
        PortalError::Exists(_) => "org.freedesktop.portal.Error.Exists"@,
        PortalError::NotAllowed(_) => "org.freedesktop.portal.Error.NotAllowed"@,
        PortalError::Cancelled(_) => "org.freedesktop.portal.Error.Cancelled"@,
        PortalError::WindowDestroyed(_) => "org.freedesktop.portal.Error.WindowDestroyed"@,
    }
}

/// The message an error carries.
pub open spec fn error_message(e: PortalError) -> Seq<char> {
    match e {
        PortalError::Failed(m) => m@,
        PortalError::InvalidArgument(m) => m@,
        PortalError::NotFound(m) => m@,
        PortalError::Exists(m) => m@,
        PortalError::NotAllowed(m) => m@,
        PortalError::Cancelled(m) => m@,
        PortalError::WindowDestroyed(m) => m@,
    }
}

/// Two errors have the same code (variant).
pub open spec fn same_code(a: PortalError, b: PortalError) -> bool {
    match (a, b) {
        (PortalError::Failed(_), PortalError::Failed(_)) => true,
        (PortalError::InvalidArgument(_), PortalError::InvalidArgument(_)) => true,
        (PortalError::NotFound(_), PortalError::NotFound(_)) => true,
        (PortalError::Exists(_), PortalError::Exists(_)) => true,
        (PortalError::NotAllowed(_), PortalError::NotAllowed(_)) => true,
        (PortalError::Cancelled(_), PortalError::Cancelled(_)) => true,
        (PortalError::WindowDestroyed(_), PortalError::WindowDestroyed(_)) => true,
        _ => false,
    }
}

/// `name` is one of the portal error names.
pub open spec fn is_portal_error_name(name: Seq<char>) -> bool {
    exists|e: PortalError| #[trigger] error_name(e) == name
}

/// The seven error names are pairwise distinct.
proof fn lemma_names_distinct(a: PortalError, b: PortalError)
    ensures
        error_name(a) == error_name(b) ==> same_code(a, b),
{
    reveal_strlit("org.freedesktop.portal.Error.Failed");
    reveal_strlit("org.freedesktop.portal.Error.InvalidArgument");
    reveal_strlit("org.freedesktop.portal.Error.NotFound");
    reveal_strlit("org.freedesktop.portal.Error.Exists");
    reveal_strlit("org.freedesktop.portal.Error.NotAllowed");
    reveal_strlit("org.freedesktop.portal.Error.Cancelled");
    reveal_strlit("org.freedesktop.portal.Error.WindowDestroyed");
    if error_name(a) == error_name(b) && !same_code(a, b) {
        assert(error_name(a)[29] == error_name(b)[29]);
        assert(error_name(a).len() == error_name(b).len());
        assert(error_name(a)[30] == error_name(b)[30]);
    }
}

/// Looking an error up by its own name gives back its code, with the new
/// message.
pub proof fn lemma_from_name_round_trip(e: PortalError, message: String)
    ensures
        from_name_spec(error_name(e), message) matches Some(f) && same_code(f, e) && error_message(f) == message@,
{
    let n = error_name(e);
    let f = from_name_spec(n, message);
    lemma_names_distinct(e, PortalError::Failed(message));
    lemma_names_distinct(e, PortalError::InvalidArgument(message));
    lemma_names_distinct(e, PortalError::NotFound(message));
    lemma_names_distinct(e, PortalError::Exists(message));
    lemma_names_distinct(e, PortalError::NotAllowed(message));
    lemma_names_distinct(e, PortalError::Cancelled(message));
    lemma_names_distinct(e, PortalError::WindowDestroyed(message));
}

/// The error `from_name` builds for `name` and `message`.
pub open spec fn from_name_spec(name: Seq<char>, message: String) -> Option<PortalError> {
    if name == "org.freedesktop.portal.Error.Failed"@ {
        Some(PortalError::Failed(message))
    } else if name == "org.freedesktop.portal.Error.InvalidArgument"@ {
        Some(PortalError::InvalidArgument(message))
    } else if name == "org.freedesktop.portal.Error.NotFound"@ {
        Some(PortalError::NotFound(message))
    } else if name == "org.freedesktop.portal.Error.Exists"@ {
        Some(PortalError::Exists(message))
    } else if name == "org.freedesktop.portal.Error.NotAllowed"@ {
        Some(PortalError::NotAllowed(message))
    } else if name == "org.freedesktop.portal.Error.Cancelled"@ {
        Some(PortalError::Cancelled(message))
    } else if name == "org.freedesktop.portal.Error.WindowDestroyed"@ {
        Some(PortalError::WindowDestroyed(message))
    } else {
        None
    }
}

impl PortalError {
    /// The D-Bus error name registered for this code, e.g.
    /// `org.freedesktop.portal.Error.Failed`.
    pub fn name(&self) -> (r: &'static str)
        ensures
            r@ == error_name(*self),
    {
        match self {
            PortalError::Failed(_) => "org.freedesktop.portal.Error.Failed",
            PortalError::InvalidArgument(_) => "org.freedesktop.portal.Error.InvalidArgument",
            PortalError::NotFound(_) => "org.freedesktop.portal.Error.NotFound",
            PortalError::Exists(_) => "org.freedesktop.portal.Error.Exists",
            PortalError::NotAllowed(_) => "org.freedesktop.portal.Error.NotAllowed",
            PortalError::Cancelled(_) => "org.freedesktop.portal.Error.Cancelled",
            PortalError::WindowDestroyed(_) => "org.freedesktop.portal.Error.WindowDestroyed",
        }
    }

    /// The human readable message attached to the error.
    pub fn message(&self) -> (r: &str)
        ensures
            r@ == error_message(*self),
    {
        match self {
            PortalError::Failed(m) => m.as_str(),
            PortalError::InvalidArgument(m) => m.as_str(),
            PortalError::NotFound(m) => m.as_str(),
            PortalError::Exists(m) => m.as_str(),
            PortalError::NotAllowed(m) => m.as_str(),
            PortalError::Cancelled(m) => m.as_str(),
            PortalError::WindowDestroyed(m) => m.as_str(),
        }
    }

    /// Builds an error from a D-Bus error `name` and `message`; `None` when
    /// `name` is not in the portal error domain.
    pub fn from_name(name: &str, message: String) -> (r: Option<PortalError>)
        ensures
            r == from_name_spec(name@, message),
            r matches Some(e) ==> error_name(e) == name@ && error_message(e) == message@,
            r is None <==> !is_portal_error_name(name@),
    {
        let r = if str_eq(name, "org.freedesktop.portal.Error.Failed") {
            Some(PortalError::Failed(message))
        } else if str_eq(name, "org.freedesktop.portal.Error.InvalidArgument") {
            Some(PortalError::InvalidArgument(message))
        } else if str_eq(name, "org.freedesktop.portal.Error.NotFound") {
            Some(PortalError::NotFound(message))
        } else if str_eq(name, "org.freedesktop.portal.Error.Exists") {
            Some(PortalError::Exists(message))
        } else if str_eq(name, "org.freedesktop.portal.Error.NotAllowed") {
            Some(PortalError::NotAllowed(message))
        } else if str_eq(name, "org.freedesktop.portal.Error.Cancelled") {
            Some(PortalError::Cancelled(message))
        } else if str_eq(name, "org.freedesktop.portal.Error.WindowDestroyed") {
            Some(PortalError::WindowDestroyed(message))
        } else {
            None
        };
        proof {
            if r is Some {
                assert(error_name(r->Some_0) == name@);
            }
            if r is None && is_portal_error_name(name@) {
                let e = choose|e: PortalError| #[trigger] error_name(e) == name@;
                match e {
                    PortalError::Failed(_) => {},
                    PortalError::InvalidArgument(_) => {},
                    PortalError::NotFound(_) => {},
                    PortalError::Exists(_) => {},
                    PortalError::NotAllowed(_) => {},
                    PortalError::Cancelled(_) => {},
                    PortalError::WindowDestroyed(_) => {},
                }
            }
        }
        r
    }

    /// `name: message`, the text form of the error.
    pub fn to_display_string(&self) -> (s: String)
        ensures
            s@ == error_name(*self) + ": "@ + error_message(*self),
    {
        let mut s = String::from_str(self.name());
        s.append(": ");
        s.append(self.message());
        s
    }
}

} // verus!
