//! Route matching and lookup.
use oblivion::exceptions::Exception;
use oblivion::models::router::{RoutePath, RouteType, Router};

#[test]
fn literal_route_ignores_trailing_slash() {
    // Register `/welcome`, request `/welcome/`: the handler runs.
    let mut router: Router<u32> = Router::new(404);
    router.route(RoutePath::new(b"/welcome", RouteType::Path), 1);
    assert_eq!(*router.get_handler(b"/welcome/").unwrap(), 1);
    assert_eq!(*router.get_handler(b"/welcome").unwrap(), 1);
    assert_eq!(*router.get_handler(b"/welcome/x").unwrap(), 404);
}

#[test]
fn literal_route_pattern_slash_stripped_too() {
    let path = RoutePath::new(b"/welcome/", RouteType::Path);
    assert!(path.check(b"/welcome").unwrap());
    assert!(path.check(b"/welcome//").unwrap());
    assert!(!path.check(b"/welcom").unwrap());
}

#[test]
fn prefix_route() {
    // Register prefix `/api`: `/api/v1/items` reaches it, `/other` the
    // fallback.
    let mut router: Router<u32> = Router::new(404);
    router.route(RoutePath::new(b"/api", RouteType::StartswithPath), 2);
    assert_eq!(*router.get_handler(b"/api/v1/items").unwrap(), 2);
    assert_eq!(*router.get_handler(b"/other").unwrap(), 404);
}

#[test]
fn regex_route() {
    // `^/u/[0-9]+$` matches `/u/42` and not `/u/abc`.
    let path = RoutePath::new(b"^/u/[0-9]+$", RouteType::RegexPath);
    assert!(path.check(b"/u/42").unwrap());
    assert!(!path.check(b"/u/abc").unwrap());

    let mut router: Router<u32> = Router::new(404);
    router.route(path, 3);
    assert_eq!(*router.get_handler(b"/u/42").unwrap(), 3);
    assert_eq!(*router.get_handler(b"/u/abc").unwrap(), 404);
}

#[test]
fn bad_regex_pattern_fails() {
    let path = RoutePath::new(b"([", RouteType::RegexPath);
    match path.check(b"/x") {
        Err(Exception::BadRoutePattern) => {},
        _ => panic!("expected a bad-pattern failure"),
    }
}

#[test]
fn first_matching_route_wins() {
    let mut router: Router<u32> = Router::new(404);
    router.route(RoutePath::new(b"/a", RouteType::StartswithPath), 1);
    router.route(RoutePath::new(b"/a/b", RouteType::StartswithPath), 2);
    assert_eq!(*router.get_handler(b"/a/b/c").unwrap(), 1);
}

#[test]
fn empty_router_answers_with_fallback() {
    let router: Router<u32> = Router::new(404);
    assert_eq!(*router.get_handler(b"/anything").unwrap(), 404);
}
