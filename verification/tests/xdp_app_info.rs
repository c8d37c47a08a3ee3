use codevar_wsocket::xdp_error::PortalError;
use codevar_wsocket::xdp_app_info::{
    decide_path_for_fd, fd_target, FdPath, O_NOFOLLOW, O_PATH, O_RDONLY, O_RDWR, S_IFDIR, S_IFREG,
    AppInfo, AppInfoFlags, AppInfoKind, FlatpakInfo, FlatpakPaths, UsbQueryType, UsbRule, flatpak_remap_path, usb_query_from_string,
    usb_rule_from_string, validate_hex_uint16,
};

#[test]
fn parses_usb_queries() {
    assert_eq!(validate_hex_uint16("03", 2), Some(3));
    assert_eq!(validate_hex_uint16("ffff", 4), Some(0xffff));
    assert_eq!(validate_hex_uint16("FFFF", 4), Some(0xffff));
    assert_eq!(validate_hex_uint16("0000", 4), None, "zero is invalid");
    assert_eq!(validate_hex_uint16("10000", 4), None, "wrong length");
    assert_eq!(validate_hex_uint16("12", 4), None, "wrong length");
    assert_eq!(validate_hex_uint16("gg", 2), None, "not hex");
    assert_eq!(validate_hex_uint16("", 2), None);

    assert_eq!(usb_rule_from_string("all"), Some(UsbRule::All));
    assert_eq!(usb_rule_from_string("all:x"), None);
    assert_eq!(
        usb_rule_from_string("cls:03:01"),
        Some(UsbRule::Class {
            class: 3,
            subclass: Some(1)
        })
    );
    assert_eq!(
        usb_rule_from_string("cls:03:*"),
        Some(UsbRule::Class {
            class: 3,
            subclass: None
        })
    );
    assert_eq!(usb_rule_from_string("cls:zz:01"), None);
    assert_eq!(usb_rule_from_string("cls:03"), None);
    assert_eq!(
        usb_rule_from_string("dev:1234"),
        Some(UsbRule::Device { product: 0x1234 })
    );
    assert_eq!(
        usb_rule_from_string("vnd:abcd"),
        Some(UsbRule::Vendor { vendor: 0xabcd })
    );
    assert_eq!(usb_rule_from_string("dev:12"), None, "needs four digits");
    assert_eq!(usb_rule_from_string("dev:1234:extra"), None, "too long");
    assert_eq!(usb_rule_from_string("bogus"), None);
    assert_eq!(usb_rule_from_string(""), None);

    let query = usb_query_from_string(UsbQueryType::Enumerable, "all+dev:0001").unwrap();
    assert_eq!(
        query.rules,
        Vec::from([UsbRule::All, UsbRule::Device { product: 1 }])
    );
    assert_eq!(usb_query_from_string(UsbQueryType::Hidden, "dev:0001+"), None);
    assert_eq!(usb_query_from_string(UsbQueryType::Hidden, ""), None);
}


#[test]
fn flags_contain_their_bits() {
    let both = AppInfoFlags::has_network().union(AppInfoFlags::supports_opath());
    assert!(both.contains(AppInfoFlags::has_network()));
    assert!(both.contains(AppInfoFlags::supports_opath()));
    assert!(!both.contains(AppInfoFlags::require_gappinfo()));
    assert!(AppInfoFlags(0).contains(AppInfoFlags(0)));
    assert_eq!(both, AppInfoFlags(3));
}

#[test]
fn hex_values_above_sixteen_bits_are_rejected() {
    assert_eq!(validate_hex_uint16("10000", 5), None);
    assert_eq!(validate_hex_uint16("0fFf", 4), Some(0x0fff));
    assert_eq!(validate_hex_uint16("é1", 2), None);
    assert_eq!(validate_hex_uint16("+1", 2), None);
}

#[test]
fn builds_host_and_registered_app_infos() {
    let host = AppInfo::host("s");
    assert_eq!(host.kind(), AppInfoKind::Host);
    assert!(host.is_host());
    assert_eq!(host.id(), "");
    assert_eq!(host.app_display_name(), None);
    assert_eq!(host.engine_display_name(), "XdpAppInfoHost");
    assert!(host.has_network());
    assert!(host.flags().contains(AppInfoFlags::supports_opath()));
    assert!(!host.flags().contains(AppInfoFlags::require_gappinfo()));
    let queries = host.usb_queries().unwrap();
    assert_eq!(queries.len(), 1);
    assert_eq!(queries[0].query_type, UsbQueryType::Enumerable);
    assert_eq!(queries[0].rules, Vec::from([UsbRule::All]));

    let registered = AppInfo::host_registered("s", "org.example.App");
    assert_eq!(registered.id(), "org.example.App");
    assert_eq!(registered.app_display_name(), Some("org.example.App"));
    assert!(registered.flags().contains(AppInfoFlags::require_gappinfo()));
}

#[test]
fn builds_snap_app_infos_from_environ() {
    let snap = AppInfo::from_snap_environ("s", b"SNAP_NAME=calibre\0SNAP_DESKTOP_FILE=x.desktop\0").unwrap();
    assert_eq!(snap.kind(), AppInfoKind::Snap);
    assert_eq!(snap.id(), "snap.calibre");
    assert_eq!(snap.engine(), Some("io.snapcraft"));
    assert_eq!(snap.engine_display_name(), "io.snapcraft");
    assert_eq!(snap.desktop_file(), Some("x.desktop"));
    assert!(!snap.has_network());
    assert!(!snap.flags().contains(AppInfoFlags::supports_opath()));
    assert_eq!(snap.usb_queries(), None);

    let networked = AppInfo::from_snap_environ("s", b"SNAP_NAME=calibre\0SNAP_HAS_NETWORK_STATUS=true\0").unwrap();
    assert!(networked.has_network());

    assert_eq!(AppInfo::from_snap_environ("s", b"PATH=/usr/bin\0"), None);
    assert_eq!(AppInfo::from_snap_environ("s", b"SNAP_NAME=\0"), None);
    assert_eq!(AppInfo::from_snap_environ("s", b""), None);
}

#[test]
fn host_and_snap_sub_app_ids() {
    let host = AppInfo::host_registered("s", "org.example.App");
    assert!(host.is_valid_sub_app_id("anything"));
    let snap = AppInfo::from_snap_environ("s", b"SNAP_NAME=foo\0").unwrap();
    assert!(!snap.is_valid_sub_app_id("snap.foo.bar"));
    assert_eq!(snap.sender(), "s");
    assert_eq!(snap.instance(), None);
}

#[test]
fn snap_environment_keys_need_exact_prefixes() {
    let snap = AppInfo::from_snap_environ(
        "s",
        b"XSNAP_NAME=wrong\0SNAP_NAME=right\0SNAP_DESKTOP_FILE=\0SNAP_HAS_NETWORK_STATUS=truex",
    )
    .unwrap();
    assert_eq!(snap.id(), "snap.right");
    assert_eq!(snap.desktop_file(), None);
    assert!(!snap.has_network());
    assert_eq!(AppInfo::from_snap_environ("s", b"SNAP_NAME=\xff\0"), None);
    assert_eq!(AppInfoFlags::default().0, 0);
}

#[test]
fn rewrites_flatpak_paths() {
    let info = FlatpakPaths {
        app_path: Some("/flatpak/app".to_string()),
        runtime_path: Some("/flatpak/runtime".to_string()),
    };
    let app_id = "org.example.App";
    let remap = |p: &str| flatpak_remap_path(Some(&info), app_id, p, "", "");

    assert_eq!(remap("/app/bin/tool"), "/flatpak/app/bin/tool");
    assert_eq!(remap("/usr/lib/lib.so"), "/flatpak/runtime/lib/lib.so");
    assert_eq!(remap("/run/host/usr/bin/x"), "/usr/bin/x");
    assert_eq!(remap("/run/host/etc/os-release"), "/etc/os-release");
    assert_eq!(remap("/newroot/app/bin/tool"), "/flatpak/app/bin/tool");
    assert_eq!(remap("/home/user/file"), "/home/user/file");

    let host = AppInfo::host("s");
    assert_eq!(host.remap_path("/app/bin/tool", Some(&info), "", ""), "/app/bin/tool");
}

#[test]
fn remaps_runtime_and_per_app_directories() {
    let app_id = "org.example.App";
    let r = |p: &str| flatpak_remap_path(None, app_id, p, "/run/user/1000", "/home/u/");
    assert_eq!(r("/run/flatpak/app/org.example.App/x"), "/run/user/1000/app/org.example.App/x");
    assert_eq!(r("/run/flatpak/doc/abc/f.txt"), "/run/user/1000/doc/abc/f.txt");
    assert_eq!(r("/var/config/app.ini"), "/home/u/.var/app/org.example.App/config/app.ini");
    assert_eq!(r("/var/data/db"), "/home/u/.var/app/org.example.App/data/db");
    // without metadata /app and /usr stay where they are
    assert_eq!(r("/app/bin/tool"), "/app/bin/tool");
    assert_eq!(r("/usr/bin/env"), "/usr/bin/env");
    // /newroot is only dropped in front of another path component
    assert_eq!(r("/newrootx/app"), "/newrootx/app");
    assert_eq!(flatpak_remap_path(None, app_id, "/run/flatpak/doc/x", "", ""), "doc/x");
}

fn ok_path(p: &str) -> Result<String, PortalError> {
    Ok(p.to_string())
}

#[test]
fn decides_descriptor_paths_in_order() {
    let host = AppInfo::host(":1.1");
    let snap = AppInfo::from_snap_environ(":1.2", b"SNAP_NAME=editor\0").expect("snap");
    let reg = S_IFREG | 0o644;
    assert_eq!(
        decide_path_for_fd(&host, -1, 0, Err(9), Err(9), ok_path("/x"), true, true),
        Err(PortalError::InvalidArgument("Invalid file descriptor".to_string()))
    );
    assert_eq!(
        decide_path_for_fd(&host, 3, 0, Err(9), Ok(reg), ok_path("/x"), true, true),
        Err(PortalError::Failed("Cannot get file descriptor flags (fcntl F_GETFL: errno 9)".to_string()))
    );
    assert_eq!(
        decide_path_for_fd(&host, 3, 0, Ok(O_RDONLY), Err(13), ok_path("/x"), true, true),
        Err(PortalError::Failed("Cannot get file information (fstat: errno 13)".to_string()))
    );
    assert_eq!(
        decide_path_for_fd(&host, 3, S_IFDIR, Ok(O_RDONLY), Ok(reg), ok_path("/x"), true, true),
        Err(PortalError::Failed("File type 0o100000 is not a directory".to_string()))
    );
    assert_eq!(
        decide_path_for_fd(&host, 3, S_IFREG, Ok(O_RDONLY), Ok(S_IFDIR), ok_path("/x"), true, true),
        Err(PortalError::Failed("File type 0o40000 is not a regular file".to_string()))
    );
    assert_eq!(
        decide_path_for_fd(&host, 3, 0o20000, Ok(O_RDONLY), Ok(reg), ok_path("/x"), true, true),
        Err(PortalError::Failed("File type 0o100000 does not match expected 0o20000".to_string()))
    );
    let gone = PortalError::Failed("Cannot share deleted file: /d (deleted)".to_string());
    assert_eq!(decide_path_for_fd(&host, 3, 0, Ok(O_RDONLY), Ok(reg), Err(gone.clone()), true, true), Err(gone));
    assert_eq!(
        decide_path_for_fd(&host, 3, 0, Ok(1), Ok(reg), ok_path("/x"), true, true),
        Err(PortalError::InvalidArgument("File descriptor is not open for reading".to_string()))
    );
    assert_eq!(
        decide_path_for_fd(&snap, 3, 0, Ok(O_RDONLY), Ok(reg), ok_path("/x"), true, true),
        Ok(FdPath { path: "/x".to_string(), writable: false })
    );
    assert_eq!(
        decide_path_for_fd(&snap, 3, 0, Ok(O_RDWR), Ok(reg), ok_path("/x"), false, false),
        Ok(FdPath { path: "/x".to_string(), writable: true })
    );
    assert_eq!(
        decide_path_for_fd(&host, 3, 0, Ok(O_RDONLY), Ok(reg), ok_path("/x"), false, false),
        Ok(FdPath { path: "/x".to_string(), writable: true })
    );
}

#[test]
fn decides_o_path_descriptors() {
    let host = AppInfo::host(":1.1");
    let snap = AppInfo::from_snap_environ(":1.2", b"SNAP_NAME=editor\0").expect("snap");
    let reg = S_IFREG | 0o644;
    assert_eq!(
        decide_path_for_fd(&host, 5, 0, Ok(O_PATH | O_NOFOLLOW), Ok(reg), ok_path("/x"), true, true),
        Err(PortalError::InvalidArgument("O_PATH fd was opened O_NOFOLLOW".to_string()))
    );
    assert_eq!(
        decide_path_for_fd(&snap, 5, 0, Ok(O_PATH), Ok(reg), ok_path("/x"), true, true),
        Err(PortalError::NotAllowed("App \"snap.editor\" of type io.snapcraft does not support O_PATH fd passing".to_string()))
    );
}

#[test]
fn resolves_descriptor_link_text() {
    assert_eq!(fd_target("/home/u/file.txt", None), Ok("/home/u/file.txt".to_string()));
    assert_eq!(
        fd_target("socket:[27345]", None),
        Err(PortalError::Failed("Not a regular file or directory: socket:[27345]".to_string()))
    );
    assert_eq!(
        fd_target("/run/user/1000/doc/abc/f (deleted)", Some("/run/user/1000/doc")),
        Ok("/run/user/1000/doc/abc/f".to_string())
    );
    assert_eq!(
        fd_target("/tmp/f (deleted)", Some("/run/user/1000/doc")),
        Err(PortalError::Failed("Cannot share deleted file: /tmp/f (deleted)".to_string()))
    );
    assert_eq!(
        fd_target("/tmp/f (deleted)", None),
        Err(PortalError::Failed("Cannot share deleted file: /tmp/f (deleted)".to_string()))
    );
}

fn app_metadata(name: Option<&str>, name_is_valid: bool, instance: Option<&str>, shared: Option<&[&str]>) -> FlatpakInfo {
    FlatpakInfo {
        has_runtime_group: false,
        runtime_name: None,
        application_name: name.map(String::from),
        name_is_valid,
        instance_id: instance.map(String::from),
        shared: shared.map(|s| s.iter().map(|x| x.to_string()).collect()),
        enumerable_devices: Vec::new(),
        hidden_devices: Vec::new(),
    }
}

// The metadata of `[Application] name=org.example.App`, `[Instance]
// instance-id=inst1`, `[Context] shared=network;screens;`.
fn flatpak_info() -> FlatpakInfo {
    app_metadata(Some("org.example.App"), true, Some("inst1"), Some(&["network", "screens"]))
}

#[test]
fn detects_flatpak_metadata() {
    let app = AppInfo::from_flatpak_info("org.test.Sender", &flatpak_info()).unwrap();
    assert_eq!(app.kind(), AppInfoKind::Flatpak);
    assert_eq!(app.id(), "org.example.App");
    assert_eq!(app.instance(), Some("inst1"));
    assert_eq!(app.engine(), Some("org.flatpak"));
    assert_eq!(app.sender(), "org.test.Sender");
    assert!(!app.is_host());
    assert!(app.has_network());
    assert!(app.flags().contains(AppInfoFlags::supports_opath()));
    assert!(!app.flags().contains(AppInfoFlags::require_gappinfo()));
    assert_eq!(app.app_display_name(), Some("org.example.App"));
    assert_eq!(app.engine_display_name(), "org.flatpak");

    let no_network = AppInfo::from_flatpak_info("s", &app_metadata(Some("org.example.App"), true, Some("i"), None)).unwrap();
    assert!(!no_network.has_network());

    let mut runtime_info = app_metadata(None, true, Some("i"), None);
    runtime_info.has_runtime_group = true;
    runtime_info.runtime_name = Some("org.example.Runtime".to_string());
    let runtime = AppInfo::from_flatpak_info("s", &runtime_info).unwrap();
    assert_eq!(runtime.id(), "org.example.Runtime");

    assert!(
        AppInfo::from_flatpak_info("s", &app_metadata(None, true, Some("i"), None)).is_err(),
        "missing name must fail"
    );
    assert!(
        AppInfo::from_flatpak_info("s", &app_metadata(Some("nodots"), false, Some("i"), None)).is_err(),
        "invalid app id must fail"
    );
    assert!(
        AppInfo::from_flatpak_info("s", &app_metadata(Some("org.example.App"), true, None, None)).is_err(),
        "missing instance id must fail"
    );
}

#[test]
fn flatpak_metadata_errors_name_what_is_missing() {
    assert_eq!(
        AppInfo::from_flatpak_info("s", &app_metadata(None, true, Some("i"), None)),
        Err(PortalError::NotFound(".flatpak-info has no Application name key".to_string()))
    );
    assert_eq!(
        AppInfo::from_flatpak_info("s", &app_metadata(Some("nodots"), false, Some("i"), None)),
        Err(PortalError::InvalidArgument(".flatpak-info name 'nodots' is not a valid app id".to_string()))
    );
    assert_eq!(
        AppInfo::from_flatpak_info("s", &app_metadata(Some("org.example.App"), true, None, None)),
        Err(PortalError::NotFound(".flatpak-info has no Instance instance-id key".to_string()))
    );
}

#[test]
fn validates_flatpak_sub_app_ids() {
    let app = AppInfo::from_flatpak_info("s", &flatpak_info()).unwrap();
    assert!(app.is_valid_sub_app_id("org.example.App.Sub"));
    assert!(app.is_valid_sub_app_id("org.example.App.sub-app"));
    assert!(app.is_valid_sub_app_id("org.example.App.SubApp.Sub"));
    assert!(!app.is_valid_sub_app_id("org.example.App"));
    assert!(!app.is_valid_sub_app_id("org.example.AppX.Sub"));
    assert!(!app.is_valid_sub_app_id("org.example.App.1bad"));
    assert!(!app.is_valid_sub_app_id("org.example.Other.Sub"));

    let host = AppInfo::host_registered("s", "org.example.App");
    assert!(host.is_valid_sub_app_id("anything"));

    let snap = AppInfo::from_snap_environ("s", b"SNAP_NAME=foo\0").unwrap();
    assert!(!snap.is_valid_sub_app_id("snap.foo.bar"));
}

#[test]
fn builds_flatpak_usb_queries_from_metadata() {
    let mut info = app_metadata(Some("org.example.App"), true, Some("i"), None);
    info.enumerable_devices = Vec::from(["dev:1234+bogus".to_string(), "dev:0001".to_string()]);
    info.hidden_devices = Vec::from(["cls:03:*".to_string()]);
    let app = AppInfo::from_flatpak_info("s", &info).unwrap();
    let queries = app.usb_queries().unwrap();
    assert_eq!(queries.len(), 2, "queries with invalid rules are skipped");
    assert_eq!(queries[0].query_type, UsbQueryType::Enumerable);
    assert_eq!(queries[0].rules, Vec::from([UsbRule::Device { product: 1 }]));
    assert_eq!(queries[1].query_type, UsbQueryType::Hidden);
    assert_eq!(queries[1].rules, Vec::from([UsbRule::Class { class: 3, subclass: None }]));
}
