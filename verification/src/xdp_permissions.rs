//! Tri-state permissions as kept in the permission store.
//!
//! The store keeps a permission as a list of strings; a single `"yes"`,
//! `"no"` or `"ask"` entry is a usable value, anything else reads as unset.

use vstd::prelude::*;
use crate::header_map::str_eq;

verus! {

/// PermissionStore bus name.
pub const PERMISSION_STORE_DBUS_NAME: &'static str = "org.freedesktop.impl.portal.PermissionStore";

/// PermissionStore object path.
pub const PERMISSION_STORE_DBUS_PATH: &'static str = "/org/freedesktop/impl/portal/PermissionStore";

/// PermissionStore interface name.
pub const PERMISSION_STORE_INTERFACE: &'static str = "org.freedesktop.impl.portal.PermissionStore";

/// A stored permission.
#[derive(Debug, Clone, Copy, PartialEq, Eq, Structural)]
pub enum Permission {
    /// No stored permission, or a stored entry with an unusable format;
    /// portals treat it like an unset preference.
    Unset,
    /// The permission is denied.
    No,
    /// The permission is granted.
    Yes,
    /// The user is asked before granting the permission.
    Ask,
}

impl Default for Permission {
    fn default() -> (p: Permission)
        ensures
            p == Permission::Unset,
    {
        Permission::Unset
    }
}

/// The permission a stored list stands for.
pub open spec fn tristate_of(permissions: Seq<Seq<char>>) -> Permission {
    if permissions.len() != 1 {
        Permission::Unset
    } else if permissions[0] == "yes"@ {
        Permission::Yes
    } else if permissions[0] == "no"@ {
        Permission::No
    } else if permissions[0] == "ask"@ {
        Permission::Ask
    } else {
        Permission::Unset
    }
}

/// The list stored for a permission (none for `Unset`).
pub open spec fn stored_of(permission: Permission) -> Option<Seq<Seq<char>>> {
    match permission {
        Permission::Unset => None,
        Permission::No => Some(seq!["no"@]),
        Permission::Yes => Some(seq!["yes"@]),
        Permission::Ask => Some(seq!["ask"@]),
    }
}

/// Reads a stored permission list.
pub fn to_tristate(permissions: &[String]) -> (p: Permission)
    ensures
        p == tristate_of(permissions@.map_values(|s: String| s@)),
{
    if permissions.len() != 1 {
        return Permission::Unset;
    }
    let first = permissions[0].as_str();
    if str_eq(first, "yes") {
        Permission::Yes
    } else if str_eq(first, "no") {
        Permission::No
    } else if str_eq(first, "ask") {
        Permission::Ask
    } else {
        Permission::Unset
    }
}

/// The list to store for a permission; `None` for `Unset`.
pub fn from_tristate(permission: Permission) -> (r: Option<Vec<String>>)
    ensures
        match r {
            Some(v) => stored_of(permission) == Some(v@.map_values(|s: String| s@)),
            None => stored_of(permission) is None,
        },
{
    let word = match permission {
        Permission::Unset => {
            return None;
        },
        Permission::No => "no",
        Permission::Yes => "yes",
        Permission::Ask => "ask",
    };
    let mut v: Vec<String> = Vec::new();
    v.push(String::from_str(word));
    proof {
        assert(v@.map_values(|s: String| s@) =~= seq![word@]);
    }
    Some(v)
}

/// Storing a usable permission and reading it back gives it again.
pub proof fn lemma_tristate_round_trip(permission: Permission)
    requires
        permission != Permission::Unset,
    ensures
        stored_of(permission) matches Some(list) && tristate_of(list) == permission,
{
    reveal_strlit("yes");
    reveal_strlit("no");
    reveal_strlit("ask");
    assert("yes"@.len() != "no"@.len());
    assert("yes"@[0] != "ask"@[0]);
    assert("no"@.len() != "ask"@.len());
}

} // verus!
