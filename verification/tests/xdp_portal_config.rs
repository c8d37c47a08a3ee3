use codevar_wsocket::xdp_portal_config::{
    PortalConfig, PortalImpl, PortalPreference, PreferredConfig, sort_impls, validate_xdg_desktop,
};

const IFACE: &str = "org.freedesktop.impl.portal.FileChooser";

fn impl_with(source: &str, interfaces: &[&str], use_in: &[&str]) -> PortalImpl {
    PortalImpl {
        source: String::from(source),
        dbus_name: format!("org.freedesktop.impl.portal.desktop.{source}"),
        interfaces: interfaces.iter().map(|i| String::from(*i)).collect(),
        use_in: use_in.iter().map(|i| String::from(*i)).collect(),
    }
}

fn preference(interface: &str, portals: &[&str]) -> PortalPreference {
    PortalPreference {
        interface: String::from(interface),
        portals: portals.iter().map(|p| String::from(*p)).collect(),
    }
}

#[test]
fn sorts_impls_by_use_in_then_source() {
    let mut impls = Vec::from([
        impl_with("aaa", &[IFACE], &[]),
        impl_with("zzz", &[IFACE], &["GNOME"]),
        impl_with("mmm", &[IFACE], &["gnome"]),
    ]);
    sort_impls(&mut impls, &[String::from("gnome")]);
    assert_eq!(impls[0].source, "mmm");
    assert_eq!(impls[1].source, "zzz");
    assert_eq!(impls[2].source, "aaa");

    let mut impls = Vec::from([impl_with("b", &[], &[]), impl_with("a", &[], &[])]);
    sort_impls(&mut impls, &[String::from("gnome")]);
    assert_eq!(impls[0].source, "a");
}

#[test]
fn find_follows_the_config_chain() {
    let impls = Vec::from([
        impl_with("gtk", &[IFACE, "org.freedesktop.impl.portal.Settings"], &["GNOME"]),
        impl_with("wlr", &["org.freedesktop.impl.portal.Screenshot"], &["wlroots"]),
        impl_with("other", &[IFACE], &[]),
    ]);

    let config = PortalConfig::from_parts(
        Vec::from([String::from("gnome")]),
        impls.clone(),
        Vec::from([PreferredConfig {
            interfaces: Vec::from([
                preference(IFACE, &["other"]),
                preference("org.freedesktop.impl.portal.Screenshot", &["wlr"]),
            ]),
            default_portal: Some(preference("default", &["gtk"])),
        }]),
    );
    assert_eq!(config.find(IFACE).unwrap().source, "other");
    assert_eq!(config.find("org.freedesktop.impl.portal.Screenshot").unwrap().source, "wlr");
    assert_eq!(config.find("org.freedesktop.impl.portal.Settings").unwrap().source, "gtk");

    let none_config = PortalConfig::from_parts(
        Vec::from([String::from("gnome")]),
        impls.clone(),
        Vec::from([PreferredConfig {
            interfaces: Vec::from([preference(IFACE, &["none"])]),
            default_portal: None,
        }]),
    );
    assert!(none_config.find(IFACE).is_none());

    let wildcard = PortalConfig::from_parts(
        Vec::from([String::from("gnome")]),
        impls.clone(),
        Vec::from([PreferredConfig {
            interfaces: Vec::from([preference(IFACE, &["missing", "*"])]),
            default_portal: None,
        }]),
    );
    assert_eq!(wildcard.find(IFACE).unwrap().source, "gtk");

    let no_config = PortalConfig::from_parts(Vec::from([String::from("gnome")]), impls, vec![]);
    assert_eq!(no_config.find(IFACE).unwrap().source, "gtk");
}

#[test]
fn find_falls_back_to_use_in_and_gtk() {
    let impls = Vec::from([impl_with("kde", &[IFACE], &["KDE"]), impl_with("gtk", &[IFACE], &[])]);
    let config = PortalConfig::from_parts(Vec::from([String::from("kde")]), impls, vec![]);
    assert_eq!(config.find(IFACE).unwrap().source, "kde");

    let impls = Vec::from([
        impl_with("wlr", &["org.freedesktop.impl.portal.Screenshot"], &[]),
        impl_with("gtk", &[IFACE], &[]),
    ]);
    let config = PortalConfig::from_parts(Vec::from([String::from("gnome")]), impls, vec![]);
    assert_eq!(config.find(IFACE).unwrap().source, "gtk");
    assert!(config.find("org.freedesktop.impl.portal.Email").is_none());
}

#[test]
fn find_all_collects_backends_and_deduplicates() {
    let impls = Vec::from([
        impl_with("gtk", &[IFACE], &["GNOME"]),
        impl_with("wlr", &[IFACE], &[]),
        impl_with("third", &[IFACE], &[]),
    ]);
    let config = PortalConfig::from_parts(
        Vec::from([String::from("gnome")]),
        impls.clone(),
        Vec::from([PreferredConfig {
            interfaces: Vec::from([preference(IFACE, &["wlr", "*", "wlr"])]),
            default_portal: None,
        }]),
    );
    let all = config.find_all(IFACE);
    let sources: Vec<&str> = all.iter().map(|entry| entry.source.as_str()).collect();
    assert_eq!(sources, Vec::from(["wlr", "gtk", "third"]));

    let config = PortalConfig::from_parts(
        Vec::from([String::from("gnome")]),
        impls,
        Vec::from([PreferredConfig {
            interfaces: Vec::from([preference(IFACE, &["none"])]),
            default_portal: None,
        }]),
    );
    assert!(config.find_all(IFACE).is_empty());
}

#[test]
fn validates_desktop_elements() {
    assert!(validate_xdg_desktop("GNOME"));
    assert!(validate_xdg_desktop("X-Cinnamon"));
    assert!(validate_xdg_desktop("ubuntu"));
    assert!(!validate_xdg_desktop(""));
    assert!(!validate_xdg_desktop("has space"));
    assert!(!validate_xdg_desktop("has/slash"));
}

#[test]
fn default_entry_disables_unlisted_interfaces() {
    let config = PreferredConfig {
        interfaces: Vec::from([preference(IFACE, &["gtk"])]),
        default_portal: Some(preference("default", &["none"])),
    };
    assert!(!config.prefers_none(IFACE));
    assert!(config.prefers_none("org.freedesktop.impl.portal.Email"));
    assert_eq!(config.preference(IFACE).unwrap().portals, Vec::from([String::from("gtk")]));
    assert!(config.preference("org.freedesktop.impl.portal.Email").is_none());
    assert!(PreferredConfig::default().interfaces.is_empty());
}

#[test]
fn sort_keeps_equal_entries_in_order() {
    let mut first = impl_with("same", &[IFACE], &[]);
    first.dbus_name = String::from("first.name");
    let mut second = impl_with("same", &[], &[]);
    second.dbus_name = String::from("second.name");
    let mut impls = Vec::from([first, impl_with("early", &[], &["x"]), second]);
    sort_impls(&mut impls, &[String::from("x")]);
    let names: Vec<&str> = impls.iter().map(|i| i.dbus_name.as_str()).collect();
    assert_eq!(names, Vec::from(["org.freedesktop.impl.portal.desktop.early", "first.name", "second.name"]));
}

#[test]
fn find_all_uses_use_in_then_gtk() {
    let impls = Vec::from([
        impl_with("a", &[IFACE], &["kde"]),
        impl_with("gtk", &[IFACE], &[]),
        impl_with("b", &[IFACE], &["KDE", "gnome"]),
    ]);
    let config = PortalConfig::from_parts(
        Vec::from([String::from("gnome"), String::from("kde")]),
        impls.clone(),
        vec![],
    );
    let sources: Vec<&str> = config.find_all(IFACE).iter().map(|e| e.source.as_str()).collect();
    assert_eq!(sources, Vec::from(["b", "b", "a"]));

    let config = PortalConfig::from_parts(Vec::from([String::from("xfce")]), impls, vec![]);
    let sources: Vec<&str> = config.find_all(IFACE).iter().map(|e| e.source.as_str()).collect();
    assert_eq!(sources, Vec::from(["gtk"]));
    assert_eq!(config.current_desktops(), &[String::from("xfce")]);
    assert_eq!(config.impls().len(), 3);
    assert!(config.configs().is_empty());
}

#[test]
fn find_all_starts_with_what_find_resolves() {
    let impls = Vec::from([
        impl_with("gtk", &[IFACE], &["GNOME"]),
        impl_with("wlr", &[IFACE], &[]),
        impl_with("third", &[IFACE], &[]),
    ]);
    let config = PortalConfig::from_parts(
        Vec::from([String::from("gnome")]),
        impls.clone(),
        Vec::from([PreferredConfig {
            interfaces: Vec::from([preference(IFACE, &["wlr", "*", "wlr"])]),
            default_portal: None,
        }]),
    );
    let all = config.find_all(IFACE);
    assert_eq!(all.first().map(|entry| entry.source.as_str()), config.find(IFACE).map(|entry| entry.source.as_str()));
    assert_eq!(all[0].source, "wlr");

    let config = PortalConfig::from_parts(Vec::from([String::from("kde")]), impls, Vec::new());
    let all = config.find_all(IFACE);
    assert_eq!(all.len(), 1);
    assert_eq!(all[0].source, "gtk");
    assert_eq!(config.find(IFACE).unwrap().source, "gtk");

    let config = PortalConfig::from_parts(
        Vec::from([String::from("kde")]),
        Vec::from([impl_with("wlr", &[IFACE], &[])]),
        Vec::new(),
    );
    assert!(config.find_all(IFACE).is_empty());
    assert!(config.find(IFACE).is_none());
}
