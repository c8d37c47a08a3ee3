use codevar_wsocket::xdp_app_info::AppInfoKind;
use codevar_wsocket::xdp_documents::{
    DocumentAddFullFlags, DocumentAddMethod, DocumentAddPlan, DocumentFlags, ResolveDocumentStrategy, doc_mountpoint,
    filename_to_uri, parse_document_portal_path, path_basename, path_dirname, plan_register_document,
    resolve_document_portal_path_with, uri_to_path,
};
use codevar_wsocket::xdp_error::PortalError;

fn flatpak_mountpoint() -> Option<String> {
    doc_mountpoint(AppInfoKind::Flatpak, None, None)
}

fn plan_with(uri: &str, flags: DocumentFlags, version: u32) -> DocumentAddPlan {
    plan_register_document(uri, "org.example.App", flatpak_mountpoint(), flags, version).unwrap()
}

#[test]
fn converts_file_uris_to_paths_like_glib() {
    assert_eq!(uri_to_path("file:///tmp/a%20b").as_deref(), Some("/tmp/a b"));
    assert_eq!(uri_to_path("file://localhost/tmp/x").as_deref(), Some("/tmp/x"));
    assert_eq!(uri_to_path("file://otherhost/tmp/x").as_deref(), Some("/tmp/x"));
    assert_eq!(uri_to_path("file:/tmp/x").as_deref(), Some("/tmp/x"));
    assert_eq!(uri_to_path("FILE:///tmp/x").as_deref(), Some("/tmp/x"));
    assert_eq!(uri_to_path("file:///").as_deref(), Some("/"));
    assert_eq!(uri_to_path("file:///tmp/x?a=1#f").as_deref(), Some("/tmp/x"));
    assert_eq!(
        uri_to_path("file:///tmp/uni%C3%BCcode.txt").as_deref(),
        Some("/tmp/uni\u{fc}code.txt")
    );

    assert_eq!(uri_to_path("file:///tmp/x/../y").as_deref(), Some("/tmp/y"));
    assert_eq!(uri_to_path("file:///tmp/./").as_deref(), Some("/tmp"));
    assert_eq!(uri_to_path("file:///tmp/x/").as_deref(), Some("/tmp/x"));
    assert_eq!(uri_to_path("file:///tmp//x").as_deref(), Some("/tmp/x"));
    assert_eq!(uri_to_path("file:///../x").as_deref(), Some("/x"));
    assert_eq!(uri_to_path("file:///tmp/a//b/../c").as_deref(), Some("/tmp/a/c"));

    assert_eq!(uri_to_path("http://h/p"), None);
    assert_eq!(uri_to_path("/tmp/plain"), None);
    assert_eq!(uri_to_path("file:relative"), None);
    assert_eq!(uri_to_path("file://"), None);
    assert_eq!(uri_to_path("file:///tmp/a%2"), None);
    assert_eq!(uri_to_path("file:///tmp/a%GG"), None);
    assert_eq!(uri_to_path("file:///tmp/a%00b"), None);
    assert_eq!(uri_to_path("file:///tmp/x%2Fy"), None);
    assert_eq!(uri_to_path("file:///tmp/a%FFb"), None);
}

#[test]
fn converts_paths_to_file_uris_like_glib() {
    assert_eq!(filename_to_uri("/tmp/a b").unwrap(), "file:///tmp/a%20b");
    assert_eq!(filename_to_uri("/tmp/a#b").unwrap(), "file:///tmp/a%23b");
    assert_eq!(filename_to_uri("/tmp/a?b").unwrap(), "file:///tmp/a%3Fb");
    assert_eq!(filename_to_uri("/tmp/a%b").unwrap(), "file:///tmp/a%25b");
    assert_eq!(filename_to_uri("/tmp/a;b").unwrap(), "file:///tmp/a%3Bb");
    assert_eq!(filename_to_uri("/tmp/a+b").unwrap(), "file:///tmp/a+b");
    assert_eq!(filename_to_uri("/tmp/a~b.txt").unwrap(), "file:///tmp/a~b.txt");
    assert_eq!(
        filename_to_uri("/tmp/\u{fc}n\u{ef}code.txt").unwrap(),
        "file:///tmp/%C3%BCn%C3%AFcode.txt"
    );

    for path in ["/tmp/a b", "/tmp/a#b", "/tmp/\u{fc}n\u{ef}code.txt"] {
        let uri = filename_to_uri(path).unwrap();
        assert_eq!(uri_to_path(&uri).as_deref(), Some(path));
    }

    assert!(matches!(
        filename_to_uri("relative/path"),
        Err(PortalError::InvalidArgument(_))
    ));
}

#[test]
fn splits_paths_into_basename_and_dirname_like_glib() {
    for (path, basename, dirname) in [
        ("/tmp/x", "x", "/tmp"),
        ("/tmp/x/", "x", "/tmp/x"),
        ("/tmp/", "tmp", "/tmp"),
        ("/", "/", "/"),
        ("", ".", "."),
        ("abc", "abc", "."),
        ("a/b", "b", "a"),
        ("/tmp/a//b", "b", "/tmp/a"),
        ("//x", "x", "/"),
        ("//x//y", "y", "//x"),
        ("a/", "a", "a"),
        (".", ".", "."),
        ("..", "..", "."),
    ] {
        assert_eq!(path_basename(path), basename, "basename of {path}");
        assert_eq!(path_dirname(path), dirname, "dirname of {path}");
    }
}

#[test]
fn selects_the_add_method_from_version_and_flags() {
    let save_new = plan_with("file:///tmp/dir/file.txt", DocumentFlags::for_save(), 5);
    assert_eq!(save_new.method(), DocumentAddMethod::AddNamedFull);
    assert!(!save_new.needs_grant_permissions());
    assert_eq!(save_new.method_name(), "AddNamedFull");
    assert_eq!(save_new.arg_signature(), "hayusas");
    assert_eq!(save_new.open_path(), "/tmp/dir");

    let save_old = plan_with("file:///tmp/dir/file.txt", DocumentFlags::for_save(), 2);
    assert_eq!(save_old.method(), DocumentAddMethod::AddNamed);
    assert!(save_old.needs_grant_permissions());
    assert_eq!(save_old.arg_signature(), "haybb");

    let open_new = plan_with("file:///tmp/dir/file.txt", DocumentFlags::none(), 4);
    assert_eq!(open_new.method(), DocumentAddMethod::AddFull);
    assert!(!open_new.needs_grant_permissions());
    assert_eq!(open_new.arg_signature(), "ahusas");
    assert_eq!(open_new.open_path(), "/tmp/dir/file.txt");

    let open_old = plan_with("file:///tmp/dir/file.txt", DocumentFlags::none(), 1);
    assert_eq!(open_old.method(), DocumentAddMethod::Add);
    assert!(open_old.needs_grant_permissions());
    assert_eq!(open_old.arg_signature(), "hbb");
}

#[test]
fn collects_permissions_and_full_flags_from_flags() {
    let plain = plan_with("file:///tmp/f", DocumentFlags::none(), 5);
    assert_eq!(
        plain.permissions().iter().map(String::as_str).collect::<Vec<_>>(),
        ["read", "grant-permissions"]
    );
    assert_eq!(
        plain.full_flags(),
        DocumentAddFullFlags::reuse_existing()
            .union(DocumentAddFullFlags::persistent())
            .union(DocumentAddFullFlags::as_needed_by_app())
    );

    let save = plan_with("file:///tmp/f", DocumentFlags::for_save(), 5);
    assert_eq!(
        save.permissions().iter().map(String::as_str).collect::<Vec<_>>(),
        ["read", "write", "grant-permissions"]
    );

    let all = plan_with(
        "file:///tmp/f",
        DocumentFlags::writable()
            .union(DocumentFlags::deletable())
            .union(DocumentFlags::directory())
            .union(DocumentFlags::for_save()),
        5,
    );
    assert_eq!(
        all.permissions().iter().map(String::as_str).collect::<Vec<_>>(),
        ["read", "write", "grant-permissions", "delete"]
    );
    assert_eq!(all.full_flags(), DocumentAddFullFlags::all(), "every add flag is set");
    assert_eq!(DocumentAddFullFlags::all().bits(), 0x0f);
}

#[test]
fn plans_result_uris_and_rejects_bad_input() {
    let plan = plan_register_document(
        "file:///tmp/my%20file.txt",
        "org.example.App",
        flatpak_mountpoint(),
        DocumentFlags::none(),
        5,
    )
    .unwrap();
    assert_eq!(plan.uri(), "file:///tmp/my%20file.txt");
    assert_eq!(plan.path(), "/tmp/my file.txt");
    assert_eq!(plan.basename(), "my file.txt");
    assert_eq!(plan.app_id(), "org.example.App");
    assert_eq!(plan.mountpoint(), Some("/run/flatpak/doc"));
    assert_eq!(plan.result_uri("").unwrap(), "file:///tmp/my%20file.txt");
    assert_eq!(
        plan.result_uri("abc123").unwrap(),
        "file:///run/flatpak/doc/abc123/my%20file.txt"
    );

    assert_eq!(
        doc_mountpoint(AppInfoKind::Host, Some("/run/user/1000"), None),
        Some(String::from("/run/user/1000/doc"))
    );

    assert!(matches!(
        plan_register_document("file:///tmp/f", "", flatpak_mountpoint(), DocumentFlags::none(), 5),
        Err(PortalError::InvalidArgument(_))
    ));
    assert!(matches!(
        plan_register_document(
            "http://example.com/f",
            "org.example.App",
            flatpak_mountpoint(),
            DocumentFlags::none(),
            5
        ),
        Err(PortalError::InvalidArgument(_))
    ));

    let orphaned = plan_register_document(
        "file:///tmp/my%20file.txt",
        "org.example.App",
        None,
        DocumentFlags::none(),
        5,
    )
    .unwrap();
    assert!(matches!(orphaned.result_uri("abc123"), Err(PortalError::Failed(_))));
    assert!(orphaned.result_uri("").is_ok());
}

#[test]
fn resolves_document_portal_paths() {
    let runtime_dir = "/run/user/1000";
    let file_path = "/run/user/1000/doc/abc123/file.txt";

    assert_eq!(parse_document_portal_path(file_path, runtime_dir), Some(("abc123", "")));
    assert_eq!(
        parse_document_portal_path("/run/user/1000/doc/abc123/mydir/sub/file.txt", runtime_dir),
        Some(("abc123", "/sub/file.txt"))
    );
    assert_eq!(
        parse_document_portal_path("/run/user/1000/doc/abc123", runtime_dir),
        Some(("abc123", ""))
    );
    assert_eq!(parse_document_portal_path("/run/user/1000/doc/", runtime_dir), None);
    assert_eq!(parse_document_portal_path("/run/user/1000/documentary/x", runtime_dir), None);
    assert_eq!(parse_document_portal_path("/etc/passwd", runtime_dir), None);
    assert_eq!(parse_document_portal_path(file_path, ""), None);

    assert_eq!(
        resolve_document_portal_path_with(file_path, ResolveDocumentStrategy::File, runtime_dir, |_| {
            Some(String::from("/home/user/file.txt"))
        }),
        "/home/user/file.txt"
    );

    assert_eq!(
        resolve_document_portal_path_with(
            "/run/user/1000/doc/abc123/mydir/sub/file.txt",
            ResolveDocumentStrategy::File,
            runtime_dir,
            |_| Some(String::from("/home/user/mydir"))
        ),
        "/home/user/mydir/sub/file.txt"
    );
    assert_eq!(
        resolve_document_portal_path_with(
            "/run/user/1000/doc/abc123/mydir/sub",
            ResolveDocumentStrategy::Directory,
            runtime_dir,
            |_| Some(String::from("/home/user/mydir"))
        ),
        "/home/user/mydir"
    );

    assert_eq!(
        resolve_document_portal_path_with(file_path, ResolveDocumentStrategy::File, runtime_dir, |_| { None }),
        file_path
    );
    assert_eq!(
        resolve_document_portal_path_with(
            "/tmp/plain",
            ResolveDocumentStrategy::File,
            runtime_dir,
            |_| Some(String::from("/should/not/be/used"))
        ),
        "/tmp/plain"
    );
}

#[test]
fn lookup_sees_the_document_id() {
    let resolved = resolve_document_portal_path_with(
        "/run/user/1000/doc/xyz/dir/a/b",
        ResolveDocumentStrategy::File,
        "/run/user/1000",
        |id| Some(format!("/host/{id}")),
    );
    assert_eq!(resolved, "/host/xyz/a/b");
}

#[test]
fn rejects_escaped_separators_in_either_case() {
    assert_eq!(uri_to_path("file:///a%2fb"), None);
    assert_eq!(uri_to_path("file:///a%41b").as_deref(), Some("/aAb"));
    assert_eq!(uri_to_path("file:///a%4"), None);
    assert_eq!(uri_to_path("file:"), None);
}

#[test]
fn mountpoint_falls_back_to_the_reported_one() {
    assert_eq!(
        doc_mountpoint(AppInfoKind::Snap, Some(""), Some(String::from("/run/doc"))),
        Some(String::from("/run/doc"))
    );
    assert_eq!(doc_mountpoint(AppInfoKind::Host, None, None), None);
    assert_eq!(
        doc_mountpoint(AppInfoKind::Flatpak, Some("/run/user/1"), None),
        Some(String::from("/run/flatpak/doc"))
    );
}

#[test]
fn document_flags_combine_and_contain() {
    let f = DocumentFlags::writable().union(DocumentFlags::for_save());
    assert_eq!(f.bits(), 3);
    assert!(f.contains(DocumentFlags::writable()));
    assert!(!f.contains(DocumentFlags::deletable()));
    assert_eq!(DocumentFlags::default(), DocumentFlags::none());
}

#[test]
fn plain_paths_come_back_unchanged_from_their_uri() {
    for path in ["/", "/tmp", "/tmp/a b.txt", "/home/user/uni\u{fc}code/x%y", "/a/.hidden/..b"] {
        let uri = filename_to_uri(path).unwrap();
        assert_eq!(uri_to_path(&uri).as_deref(), Some(path));
    }
}
