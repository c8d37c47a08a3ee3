use codevar_wsocket::xdp_permissions::{Permission, from_tristate, to_tristate};

#[test]
fn converts_between_permission_tristates() {
    assert_eq!(to_tristate(&[String::from("yes")]), Permission::Yes);
    assert_eq!(to_tristate(&[String::from("no")]), Permission::No);
    assert_eq!(to_tristate(&[String::from("ask")]), Permission::Ask);
    assert_eq!(to_tristate(&[]), Permission::Unset);
    assert_eq!(
        to_tristate(&[String::from("yes"), String::from("no")]),
        Permission::Unset
    );
    assert_eq!(to_tristate(&[String::from("YES")]), Permission::Unset);
    assert_eq!(to_tristate(&[String::from("")]), Permission::Unset);

    assert_eq!(from_tristate(Permission::Unset), None);
    for permission in [Permission::Yes, Permission::No, Permission::Ask] {
        let stored = from_tristate(permission).unwrap();
        assert_eq!(to_tristate(&stored), permission);
    }
}

#[test]
fn default_permission_is_unset() {
    assert_eq!(Permission::default(), Permission::Unset);
    assert_eq!(from_tristate(Permission::Yes), Some(vec![String::from("yes")]));
    assert_eq!(from_tristate(Permission::No), Some(vec![String::from("no")]));
    assert_eq!(from_tristate(Permission::Ask), Some(vec![String::from("ask")]));
}
