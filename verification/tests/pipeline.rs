use devserve::config::{flag_set, is_truthy, parse_port, port_or_default, watch_enabled};
use devserve::headers::{header_name, header_value, headers_for, HeaderDirective};
use devserve::mount::parse_mount;
use devserve::reload::Broadcaster;
use devserve::respond::{serve_plan, ServePlan};
use devserve::routes::RouteTable;
use devserve::watch::Debouncer;

#[test]
fn truthy_flags() {
    assert!(is_truthy("1".to_string()));
    assert!(is_truthy("true".to_string()));
    assert!(!is_truthy("0".to_string()));
    assert!(!is_truthy("TRUE".to_string()));
    assert!(!is_truthy("".to_string()));
    assert!(flag_set(Some("1".to_string())));
    assert!(!flag_set(Some("yes".to_string())));
    assert!(!flag_set(None));
}

#[test]
fn watching_defaults_on() {
    assert!(watch_enabled(None));
    assert!(watch_enabled(Some("0".to_string())));
    assert!(!watch_enabled(Some("1".to_string())));
    assert!(!watch_enabled(Some("true".to_string())));
}

#[test]
fn port_parsing() {
    assert_eq!(parse_port(b"9000"), Some(9000));
    assert_eq!(parse_port(b"8080"), Some(8080));
    assert_eq!(parse_port(b"0"), Some(0));
    assert_eq!(parse_port(b""), None);
    assert_eq!(parse_port(b"12a"), None);
    assert_eq!(parse_port(b"-1"), None);
    assert_eq!(parse_port(b"4294967295"), Some(u32::MAX));
    assert_eq!(parse_port(b"4294967296"), None);
}

#[test]
fn port_default_when_absent() {
    assert_eq!(port_or_default(None), Some(8080));
    assert_eq!(port_or_default(Some(b"9000".to_vec())), Some(9000));
    assert_eq!(port_or_default(Some(b"x".to_vec())), None);
}

#[test]
fn watch_headers_include_cache_busting() {
    let hs = headers_for(true);
    assert!(hs.contains(&HeaderDirective::CacheControl));
    assert!(hs.contains(&HeaderDirective::Pragma));
    assert!(hs.contains(&HeaderDirective::AllowOrigin));
    assert!(hs.contains(&HeaderDirective::EmbedderPolicy));
    assert!(hs.contains(&HeaderDirective::OpenerPolicy));
    assert_eq!(header_name(HeaderDirective::CacheControl), "Cache-Control");
    assert_eq!(
        header_value(HeaderDirective::CacheControl),
        "no-cache, no-store, must-revalidate"
    );
    assert_eq!(header_name(HeaderDirective::Pragma), "Pragma");
    assert_eq!(header_value(HeaderDirective::Pragma), "no-cache");
}

#[test]
fn serve_headers_omit_cache_busting() {
    let hs = headers_for(false);
    assert!(!hs.contains(&HeaderDirective::CacheControl));
    assert!(!hs.contains(&HeaderDirective::Pragma));
    assert!(hs.contains(&HeaderDirective::AllowOrigin));
    assert_eq!(header_name(HeaderDirective::AllowOrigin), "Access-Control-Allow-Origin");
    assert_eq!(header_value(HeaderDirective::AllowOrigin), "*");
    assert_eq!(
        header_value(HeaderDirective::EmbedderPolicy),
        "require-corp"
    );
    assert_eq!(header_value(HeaderDirective::OpenerPolicy), "same-origin");
}

#[test]
fn debounce_collapses_bursts() {
    let mut d = Debouncer::new(100);
    let mut emitted = 0;
    for t in [0u64, 5, 10, 40, 99] {
        if d.on_event(t) {
            emitted += 1;
        }
    }
    assert_eq!(emitted, 1);
    // A later event, past the window, passes again.
    assert!(d.on_event(100));
    assert!(!d.on_event(150));
    assert!(d.on_event(250));
}

#[test]
fn unregister_twice_is_noop() {
    let mut b = Broadcaster::new();
    b.register(1);
    b.register(2);
    b.unregister(2);
    b.unregister(2);
    assert_eq!(b.broadcast_targets(), vec![1]);
    assert!(b.is_registered(1));
    assert!(!b.is_registered(2));
}

#[test]
fn register_twice_is_single_session() {
    let mut b = Broadcaster::new();
    b.register(7);
    b.register(7);
    assert_eq!(b.broadcast_targets(), vec![7]);
    b.unregister(7);
    assert_eq!(b.broadcast_targets(), Vec::<u64>::new());
}

#[test]
fn broadcast_reaches_every_session() {
    let mut b = Broadcaster::new();
    b.register(10);
    b.register(20);
    b.register(30);
    b.unregister(20);
    let targets = b.broadcast_targets();
    assert_eq!(targets, vec![10, 30]);
}

#[test]
fn end_to_end_scenario() {
    // Startup: port 9000, mounts /static:./public and /app.html:./app.html.
    assert_eq!(port_or_default(Some(b"9000".to_vec())), Some(9000));
    let mut t = RouteTable::new(true);
    t.register(parse_mount(b"/static:./public").unwrap());
    t.register(parse_mount(b"/app.html:./app.html").unwrap());

    // GET /static/logo.png -> the bytes of ./public/logo.png.
    assert_eq!(
        serve_plan(&t.resolve(b"/static/logo.png")),
        ServePlan::Exact { path: b"./public/logo.png".to_vec() }
    );

    // GET /app.html -> the bytes of ./app.html.
    assert_eq!(
        serve_plan(&t.resolve(b"/app.html")),
        ServePlan::Exact { path: b"./app.html".to_vec() }
    );

    // GET /unknown -> the root fallback behind the default mount.
    assert_eq!(
        serve_plan(&t.resolve(b"/unknown")),
        ServePlan::WithFallback {
            path: b"./unknown".to_vec(),
            fallback: b"./index.html".to_vec()
        }
    );

    // A burst of filesystem events inside one debounce window triggers
    // exactly one delivery, to every connected session.
    let mut d = Debouncer::new(100);
    let mut b = Broadcaster::new();
    b.register(1);
    b.register(2);
    let mut deliveries = 0;
    for ts in [1000u64, 1001, 1020, 1050, 1099] {
        if d.on_event(ts) {
            deliveries += b.broadcast_targets().len();
        }
    }
    assert_eq!(deliveries, 2);
}
