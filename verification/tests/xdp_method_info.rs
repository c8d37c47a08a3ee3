use codevar_wsocket::xdp_method_info::{all, count, find};
use std::collections::BTreeSet;

// unwrap() is safe here: the tests look up entries that are
// pinned by the generated table.

#[test]
fn table_is_grouped_by_interface() {
    let table = all();
    assert_eq!(count(), table.len());
    assert!(!table.is_empty());
    let mut seen: BTreeSet<&str> = BTreeSet::new();
    let mut previous: Option<&str> = None;
    for info in &table {
        if previous != Some(info.interface) {
            assert!(
                seen.insert(info.interface),
                "interface {} is not contiguous",
                info.interface
            );
        }
        previous = Some(info.interface);
    }
    assert!(seen.contains("org.freedesktop.portal.Account"));
    assert!(seen.contains("org.freedesktop.host.portal.Registry"));
}

#[test]
fn finds_request_bearing_and_option_methods() {
    let info = find("org.freedesktop.portal.Account", "GetUserInformation").unwrap();
    assert!(info.uses_request);
    assert_eq!(info.option_arg, 1);

    let info =
        find("org.freedesktop.portal.DynamicLauncher", "PrepareInstall").unwrap();
    assert!(info.uses_request);
    assert_eq!(info.option_arg, 3);

    let info =
        find("org.freedesktop.portal.Notification", "AddNotification").unwrap();
    assert!(!info.uses_request);
    assert_eq!(info.option_arg, -1);

    let info = find("org.freedesktop.host.portal.Registry", "Register").unwrap();
    assert!(!info.uses_request);
    assert_eq!(info.option_arg, 1);
}

#[test]
fn returns_none_for_unknown_pairs() {
    assert!(find("org.freedesktop.portal.Account", "NoSuchMethod").is_none());
    assert!(find("org.freedesktop.portal.NoSuch", "OpenFile").is_none());
    assert!(find("", "").is_none());
}

#[test]
fn table_has_one_hundred_fifteen_methods() {
    assert_eq!(count(), 115);
    let first = all()[0];
    assert_eq!(first.interface, "org.freedesktop.portal.Account");
    assert_eq!(first.method, "GetUserInformation");
}

#[test]
fn find_gives_the_first_entry_with_both_names() {
    let table = all();
    for entry in table.iter() {
        let first = table
            .iter()
            .find(|e| e.interface == entry.interface && e.method == entry.method)
            .copied();
        assert_eq!(find(entry.interface, entry.method), first);
    }
}
