use devserve::mount::{parse_mount, MountError, MountKind};
use devserve::mime::content_type_for;
use devserve::respond::{serve_plan, ServePlan};
use devserve::routes::{Resolution, RouteTable};

fn table_with(default_root: bool, specs: &[&str]) -> RouteTable {
    let mut t = RouteTable::new(default_root);
    for s in specs {
        let m = parse_mount(s.as_bytes()).expect("mount spec should parse");
        t.register(m);
    }
    t
}

#[test]
fn parse_directory_mount() {
    let m = parse_mount(b"/static:./public").unwrap();
    assert_eq!(m.prefix, b"/static".to_vec());
    assert_eq!(m.target, b"./public".to_vec());
    assert_eq!(m.kind, MountKind::Directory);
}

#[test]
fn parse_file_mount() {
    let m = parse_mount(b"/app.html:./app.html").unwrap();
    assert_eq!(m.prefix, b"/app.html".to_vec());
    assert_eq!(m.target, b"./app.html".to_vec());
    assert_eq!(m.kind, MountKind::File);
}

#[test]
fn parse_splits_on_first_colon() {
    let m = parse_mount(b"/a:b:c").unwrap();
    assert_eq!(m.prefix, b"/a".to_vec());
    assert_eq!(m.target, b"b:c".to_vec());
}

#[test]
fn parse_rejects_missing_separator() {
    assert_eq!(parse_mount(b"nocolon"), Err(MountError::MissingSeparator));
    assert_eq!(parse_mount(b""), Err(MountError::MissingSeparator));
}

#[test]
fn parse_rejects_empty_prefix() {
    assert_eq!(parse_mount(b":./public"), Err(MountError::EmptyPrefix));
}

#[test]
fn longest_prefix_wins() {
    let t = table_with(true, &["/a:ta", "/a/b:tb"]);
    let r = t.resolve(b"/a/b/c");
    assert_eq!(
        r,
        Resolution::Directory { target: b"tb".to_vec(), remainder: b"c".to_vec() }
    );
    let r2 = t.resolve(b"/a/x");
    assert_eq!(
        r2,
        Resolution::Directory { target: b"ta".to_vec(), remainder: b"x".to_vec() }
    );
}

#[test]
fn directory_mount_respects_segment_boundary() {
    let t = table_with(true, &["/a:ta"]);
    // "/ab" is not under the "/a" mount; it falls to the default root.
    assert_eq!(t.resolve(b"/ab"), Resolution::DefaultRoot { remainder: b"ab".to_vec() });
}

#[test]
fn file_mount_serves_exact_path() {
    let t = table_with(true, &["/app.html:./app.html"]);
    assert_eq!(t.resolve(b"/app.html"), Resolution::File { target: b"./app.html".to_vec() });
    // Without a trailing slash the file mount claims only its exact path.
    assert_eq!(
        t.resolve(b"/app.html/extra"),
        Resolution::DefaultRoot { remainder: b"app.html/extra".to_vec() }
    );
}

#[test]
fn file_mount_with_trailing_slash_claims_subpaths() {
    let t = table_with(false, &["/app/:./app.html"]);
    assert_eq!(t.resolve(b"/app/"), Resolution::File { target: b"./app.html".to_vec() });
    assert_eq!(t.resolve(b"/app/deep/route"), Resolution::File { target: b"./app.html".to_vec() });
    assert_eq!(t.resolve(b"/elsewhere"), Resolution::NoRoute);
}

#[test]
fn last_registration_wins() {
    let t = table_with(true, &["/a:first", "/a:second"]);
    let r = t.resolve(b"/a/x");
    assert_eq!(
        r,
        Resolution::Directory { target: b"second".to_vec(), remainder: b"x".to_vec() }
    );
    // Stable across repeated lookups.
    assert_eq!(t.resolve(b"/a/x"), r);
    assert_eq!(t.resolve(b"/a/x"), r);
}

#[test]
fn traversal_is_rejected() {
    let t = table_with(true, &["/static:./public"]);
    let r = t.resolve(b"/static/../../etc/passwd");
    assert_eq!(
        r,
        Resolution::Directory {
            target: b"./public".to_vec(),
            remainder: b"../../etc/passwd".to_vec()
        }
    );
    assert_eq!(serve_plan(&r), ServePlan::NotFound);
    // The default root rejects it too.
    assert_eq!(serve_plan(&t.resolve(b"/../secret")), ServePlan::NotFound);
}

#[test]
fn directory_plan_joins_under_target() {
    let t = table_with(true, &["/static:./public"]);
    let plan = serve_plan(&t.resolve(b"/static/logo.png"));
    assert_eq!(plan, ServePlan::Exact { path: b"./public/logo.png".to_vec() });
}

#[test]
fn directory_path_gets_index_file() {
    let t = table_with(true, &["/static:./public"]);
    assert_eq!(
        serve_plan(&t.resolve(b"/static")),
        ServePlan::Exact { path: b"./public/index.html".to_vec() }
    );
    assert_eq!(
        serve_plan(&t.resolve(b"/static/sub/")),
        ServePlan::Exact { path: b"./public/sub/index.html".to_vec() }
    );
}

#[test]
fn default_root_serves_with_fallback() {
    let t = table_with(true, &[]);
    let plan = serve_plan(&t.resolve(b"/unknown"));
    assert_eq!(
        plan,
        ServePlan::WithFallback {
            path: b"./unknown".to_vec(),
            fallback: b"./index.html".to_vec()
        }
    );
}

#[test]
fn no_default_root_means_no_route() {
    let t = table_with(false, &["/a:ta"]);
    assert_eq!(t.resolve(b"/other"), Resolution::NoRoute);
    assert_eq!(serve_plan(&Resolution::NoRoute), ServePlan::NotFound);
}

#[test]
fn content_types_by_extension() {
    assert_eq!(content_type_for(b"./public/logo.png"), "image/png");
    assert_eq!(content_type_for(b"index.html"), "text/html");
    assert_eq!(content_type_for(b"a/b/style.css"), "text/css");
    assert_eq!(content_type_for(b"app.js"), "text/javascript");
    assert_eq!(content_type_for(b"data.json"), "application/json");
    assert_eq!(content_type_for(b"mod.wasm"), "application/wasm");
    assert_eq!(content_type_for(b"pic.jpeg"), "image/jpeg");
    assert_eq!(content_type_for(b"pic.svg"), "image/svg+xml");
    assert_eq!(content_type_for(b"notes.txt"), "text/plain");
    assert_eq!(content_type_for(b"noext"), "application/octet-stream");
    assert_eq!(content_type_for(b"dir.v2/file"), "application/octet-stream");
    assert_eq!(content_type_for(b"odd."), "application/octet-stream");
}
