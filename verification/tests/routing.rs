use picoserve::request::Path;
use picoserve::routing::{
    get, parse_path_segment, post, Dispatch, MethodRouter, PathDescription, PathSegment, Router,
};
use picoserve::url_encoded::UrlEncodedString;

fn path(text: &str) -> Path {
    Path(UrlEncodedString::new(text))
}

fn route(router: &Router, method: &str, text: &str) -> Dispatch {
    router.handle_request(method, path(text))
}

fn handler_of(dispatch: &Dispatch) -> Option<usize> {
    match dispatch {
        Dispatch::Handler { handler, .. } => Some(*handler),
        _ => None,
    }
}

#[test]
fn simple_routing() {
    for (index, p) in ["/", "/foo", "/bar"].into_iter().enumerate() {
        let router = Router::new().route(PathDescription::literal(p), get(index));
        let dispatch = route(&router, "GET", p);
        assert_eq!(handler_of(&dispatch), Some(index));
    }
}

#[test]
fn not_found() {
    let router = Router::new().route(PathDescription::literal("/"), get(0));
    assert!(matches!(route(&router, "GET", "/not_found"), Dispatch::NotFound));
}

const A: usize = 1;
const B: usize = 2;
const AA: usize = 11;
const AB: usize = 12;
const BA: usize = 21;
const BB: usize = 22;

fn add_direct_routes(router: Router) -> Router {
    router
        .route(PathDescription::literal("/a"), get(A))
        .route(PathDescription::literal("/b"), get(B))
}

fn add_nested_routes(router: Router) -> Router {
    router
        .nest(
            PathDescription::literal("/a"),
            Router::new()
                .route(PathDescription::literal("/a"), get(AA))
                .route(PathDescription::literal("/b"), get(AB)),
        )
        .nest(
            PathDescription::literal("/b"),
            Router::new()
                .route(PathDescription::literal("/a"), get(BA))
                .route(PathDescription::literal("/b"), get(BB)),
        )
}

fn run_nesting_tests(app: &Router) {
    for (p, expected) in [
        ("/a", A),
        ("/a/a", AA),
        ("/a/b", AB),
        ("/b", B),
        ("/b/a", BA),
        ("/b/b", BB),
    ] {
        assert_eq!(handler_of(&route(app, "GET", p)), Some(expected), "{p}");
    }
}

#[test]
fn nesting() {
    run_nesting_tests(&add_direct_routes(add_nested_routes(Router::new())));
    run_nesting_tests(&add_nested_routes(add_direct_routes(Router::new())));
}

#[test]
fn later_route_is_tried_first() {
    let router = Router::new()
        .route(PathDescription::literal("/x"), get(1))
        .route(PathDescription::literal("/x"), get(2));
    assert_eq!(handler_of(&route(&router, "GET", "/x")), Some(2));
}

#[test]
fn head_uses_get_handler_without_body() {
    let router = Router::new().route(PathDescription::literal("/"), get(7).post(8));
    match route(&router, "HEAD", "/") {
        Dispatch::Handler { handler, ignore_body, .. } => {
            assert_eq!(handler, 7);
            assert!(ignore_body);
        }
        _ => panic!("HEAD should be routed to the GET handler"),
    }
    match route(&router, "POST", "/") {
        Dispatch::Handler { handler, ignore_body, .. } => {
            assert_eq!(handler, 8);
            assert!(!ignore_body);
        }
        _ => panic!("POST should be routed to the POST handler"),
    }
}

#[test]
fn unsupported_method_is_not_allowed() {
    let router = Router::new().route(PathDescription::literal("/"), post(3));
    assert!(matches!(route(&router, "GET", "/"), Dispatch::MethodNotAllowed));
    assert!(matches!(route(&router, "BREW", "/"), Dispatch::MethodNotAllowed));
    assert!(matches!(route(&router, "get", "/"), Dispatch::MethodNotAllowed));
}

#[test]
fn path_parameters_are_captured_and_decoded() {
    let description = PathDescription::new(vec![
        PathSegment::Literal("/add".to_string()),
        parse_path_segment(),
        parse_path_segment(),
    ]);
    let router = Router::new().route(description, get(5));
    match route(&router, "GET", "/add/12/a%20b") {
        Dispatch::Handler { handler, path_parameters, .. } => {
            assert_eq!(handler, 5);
            assert_eq!(path_parameters, vec!["12".to_string(), "a b".to_string()]);
        }
        _ => panic!("route should match"),
    }
    assert!(matches!(route(&router, "GET", "/add/12"), Dispatch::NotFound));
    assert!(matches!(route(&router, "GET", "/add/12/3/4"), Dispatch::NotFound));
}

#[test]
fn nested_parameters_reach_the_nested_router() {
    let description = PathDescription::new(vec![
        PathSegment::Literal("/user".to_string()),
        parse_path_segment(),
    ]);
    let inner = Router::new().route(PathDescription::literal("/name"), get(9));
    let router = Router::new().nest(description, inner);
    match route(&router, "GET", "/user/42/name") {
        Dispatch::Handler { handler, path_parameters, .. } => {
            assert_eq!(handler, 9);
            assert_eq!(path_parameters, vec!["42".to_string()]);
        }
        _ => panic!("nested route should match"),
    }
    // A matching prefix with nothing after it is not passed to the nested router.
    assert!(matches!(route(&router, "GET", "/user/42"), Dispatch::NotFound));
}

#[test]
fn nested_service_gets_rest_of_path() {
    let router = Router::new().nest_service(PathDescription::literal("/static"), 4);
    match route(&router, "GET", "/static/styles/index.css") {
        Dispatch::PathService { service, path, .. } => {
            assert_eq!(service, 4);
            assert_eq!(path.0.encoded_text(), "/styles/index.css");
        }
        _ => panic!("nested service should match"),
    }
    assert!(matches!(route(&router, "GET", "/index.html"), Dispatch::NotFound));
}

#[test]
fn route_service_is_told_the_method() {
    let router = Router::new().route_service(PathDescription::literal("/m"), 6);
    assert!(matches!(
        route(&router, "BREW", "/m"),
        Dispatch::MethodService { service: 6, .. }
    ));
    let everything = Router::from_service(3);
    assert!(matches!(
        route(&everything, "GET", "/any/thing"),
        Dispatch::PathService { service: 3, .. }
    ));
}

#[test]
fn either_route_routes_as_before() {
    let router = Router::new().route(PathDescription::literal("/"), get(1));
    let left = router.either_left_route();
    assert_eq!(handler_of(&route(&left, "GET", "/")), Some(1));
    let right = left.either_right_route();
    assert_eq!(handler_of(&route(&right, "GET", "/")), Some(1));
}

#[test]
fn method_router_slots() {
    let m = MethodRouter::none().put(1).delete(2).options(3).trace(4).patch(5);
    assert_eq!(m.handler_for("PUT"), (Some(1), false));
    assert_eq!(m.handler_for("DELETE"), (Some(2), false));
    assert_eq!(m.handler_for("OPTIONS"), (Some(3), false));
    assert_eq!(m.handler_for("TRACE"), (Some(4), false));
    assert_eq!(m.handler_for("PATCH"), (Some(5), false));
    assert_eq!(m.handler_for("GET"), (None, false));
    assert_eq!(m.handler_for("HEAD"), (None, true));
}

#[test]
fn default_router_finds_nothing() {
    let router = Router::default();
    assert!(matches!(route(&router, "GET", "/"), Dispatch::NotFound));
}

#[test]
fn unrouted_requests_are_answered_by_the_router() {
    let empty = Router::new();
    let routed = route(&empty, "GET", "/missing");
    let (status, body) = picoserve::routing::unhandled_response(&routed, "GET", "/missing").unwrap();
    assert_eq!(status.0, 404);
    assert_eq!(body, "/missing not found\r\n");
    let (status, body) = picoserve::routing::method_not_allowed_response("PUT", "/a");
    assert_eq!(status.0, 405);
    assert_eq!(body, "Method PUT not allowed for /a\r\n");
}
