use codevar_wsocket::xdp_error::PortalError;
use codevar_wsocket::xdp_flatpak::{FlatpakInstance, InstanceInfo, find_by_app_id, get_instance_base_dirs};

fn instance(id: &str, app_id: &str) -> FlatpakInstance {
    FlatpakInstance {
        id: id.to_string(),
        app_id: app_id.to_string(),
        arch: "x86_64".to_string(),
        branch: "stable".to_string(),
        commit: "abc123".to_string(),
        instance_path: "/path/to/instance".to_string(),
        ref_type: "app".to_string(),
    }
}

#[test]
fn test_flatpak_instance_fields() {
    let instance = FlatpakInstance {
        id: "inst123".to_string(),
        app_id: "org.example.App".to_string(),
        arch: "x86_64".to_string(),
        branch: "stable".to_string(),
        commit: "abc123".to_string(),
        instance_path: "/path/to/instance".to_string(),
        ref_type: "app".to_string(),
    };
    assert_eq!(instance.id, "inst123");
    assert_eq!(instance.app_id, "org.example.App");
    assert_eq!(instance.ref_type, "app");
}

#[test]
fn test_get_instance_base_dirs() {
    let dirs = get_instance_base_dirs(Some("/run/user/1000"), Some("/home/u"));
    assert!(!dirs.is_empty());
    assert!(dirs.iter().any(|d| d.contains(".flatpak")));
    assert_eq!(
        dirs,
        vec![
            "/run/user/1000/.flatpak".to_string(),
            "/home/u/.local/share/flatpak/instances".to_string(),
            "/var/lib/flatpak/instances".to_string(),
        ]
    );
    assert_eq!(get_instance_base_dirs(None, None), vec!["/var/lib/flatpak/instances".to_string()]);
}

#[test]
fn finds_the_first_instance_of_an_app() {
    let instances = vec![instance("1", "org.a"), instance("2", "org.b"), instance("3", "org.b")];
    assert_eq!(find_by_app_id(&instances, "org.b").unwrap().id, "2");
    assert!(find_by_app_id(&instances, "org.c").is_none());
}

#[test]
fn builds_instances_from_their_info() {
    let info = InstanceInfo {
        instance_id: Some("123".to_string()),
        has_application_group: true,
        application_name: Some("org.example.App".to_string()),
        runtime: None,
        arch: Some("x86_64".to_string()),
        branch: Some("stable".to_string()),
        app_commit: None,
        instance_path: None,
    };
    let instance = FlatpakInstance::new("/run/user/1000/.flatpak/123", &info).unwrap();
    assert_eq!(instance.id, "123");
    assert_eq!(instance.app_id, "org.example.App");
    assert_eq!(instance.ref_type, "app");
    assert_eq!(instance.arch, "x86_64");
    assert_eq!(instance.branch, "stable");
    assert_eq!(instance.commit, "");
    assert_eq!(instance.instance_path, "/run/user/1000/.flatpak/123");

    let runtime = InstanceInfo {
        has_application_group: false,
        application_name: None,
        runtime: Some("org.example.Platform".to_string()),
        instance_path: Some("/elsewhere".to_string()),
        ..info.clone()
    };
    let instance = FlatpakInstance::new("inst", &runtime).unwrap();
    assert_eq!(instance.id, "inst");
    assert_eq!(instance.app_id, "org.example.Platform");
    assert_eq!(instance.ref_type, "runtime");
    assert_eq!(instance.instance_path, "/elsewhere");

    let missing = InstanceInfo { instance_id: None, ..info.clone() };
    assert_eq!(
        FlatpakInstance::new("/d", &missing),
        Err(PortalError::NotFound("Missing instance-id in /d/info".to_string()))
    );
    let no_name = InstanceInfo { application_name: None, ..info.clone() };
    assert_eq!(
        FlatpakInstance::new("/d", &no_name),
        Err(PortalError::NotFound("Missing name in /d/info".to_string()))
    );
    let no_runtime = InstanceInfo { has_application_group: false, ..no_name };
    assert_eq!(
        FlatpakInstance::new("/d", &no_runtime),
        Err(PortalError::NotFound("Missing runtime in /d/info".to_string()))
    );
}
