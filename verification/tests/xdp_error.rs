use codevar_wsocket::xdp_error::PortalError;

// unwrap() is safe here: every assertion below pins a concrete
// error built by the code under test.
#[test]
fn names_match_the_c_error_domain() {
    let pairs = [
        (
            PortalError::Failed(String::new()),
            "org.freedesktop.portal.Error.Failed",
        ),
        (
            PortalError::InvalidArgument(String::new()),
            "org.freedesktop.portal.Error.InvalidArgument",
        ),
        (
            PortalError::NotFound(String::new()),
            "org.freedesktop.portal.Error.NotFound",
        ),
        (
            PortalError::Exists(String::new()),
            "org.freedesktop.portal.Error.Exists",
        ),
        (
            PortalError::NotAllowed(String::new()),
            "org.freedesktop.portal.Error.NotAllowed",
        ),
        (
            PortalError::Cancelled(String::new()),
            "org.freedesktop.portal.Error.Cancelled",
        ),
        (
            PortalError::WindowDestroyed(String::new()),
            "org.freedesktop.portal.Error.WindowDestroyed",
        ),
    ];
    for (error, name) in pairs {
        assert_eq!(error.name(), name);
        let roundtrip = PortalError::from_name(name, String::from("m")).unwrap();
        assert_eq!(
            roundtrip,
            PortalError::from_name(error.name(), String::from("m")).unwrap()
        );
    }
}

#[test]
fn from_name_rejects_foreign_errors() {
    assert!(PortalError::from_name("org.freedesktop.DBus.Error.Failed", String::new()).is_none());
}
