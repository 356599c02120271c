use servo::http::content_type::ContentType;
use servo::http::ok;
use servo::http::Request;
use servo::http::Response;
use servo::{default_router, route_request, Configuration, Handler};

#[derive(Clone, Copy, Debug, PartialEq, Eq)]
struct FoundHandler;

impl Handler for FoundHandler {
    fn handle(&self, _request: Request, _config: &Configuration<Self>) -> Response {
        ok(String::from("found"), ContentType::TextHtml)
    }
}

#[derive(Clone, Copy, Debug, PartialEq, Eq)]
enum Tagged {
    Outer,
    Inner,
}

impl Handler for Tagged {
    fn handle(&self, _request: Request, _config: &Configuration<Self>) -> Response {
        match self {
            Tagged::Outer => ok(String::from("outer"), ContentType::TextHtml),
            Tagged::Inner => ok(String::from("inner"), ContentType::TextHtml),
        }
    }
}

#[derive(Clone, Copy, Debug, PartialEq, Eq)]
enum Versioned {
    First,
    Second,
}

impl Handler for Versioned {
    fn handle(&self, _request: Request, _config: &Configuration<Self>) -> Response {
        match self {
            Versioned::First => ok(String::from("first"), ContentType::TextHtml),
            Versioned::Second => ok(String::from("second"), ContentType::TextHtml),
        }
    }
}

#[derive(Clone, Copy, Debug, PartialEq, Eq)]
struct EchoArgs;

impl Handler for EchoArgs {
    fn handle(&self, request: Request, _config: &Configuration<Self>) -> Response {
        ok(request.get_url_args(), ContentType::TextHtml)
    }
}

fn get_request(method: &str, route: &str) -> Request {
    Request::new()
        .with_method(String::from(method))
        .with_route(String::from(route))
}

#[test]
fn test_route_default() {
    let mut configs = Configuration::new();
    configs.routes.add_route("GET /", FoundHandler);
    let (_, callback) = default_router(&get_request("GET", "/"), &configs.routes);
    let resp = callback.unwrap().handle(Request::new(), &configs);
    assert_eq!(resp, ok(String::from("found"), ContentType::TextHtml));
}

#[test]
fn test_route_wildcard_simple() {
    let mut configs = Configuration::new();
    configs.routes.add_route("GET /{}", FoundHandler);
    let (args, callback) = default_router(&get_request("GET", "/home"), &configs.routes);
    let resp = callback.unwrap().handle(Request::new(), &configs);
    assert_eq!(resp, ok(String::from("found"), ContentType::TextHtml));
    assert_eq!(args, vec![String::from("home")]);
}

#[test]
fn test_route_complex() {
    let mut configs = Configuration::new();
    configs.routes.add_route("GET /home/nope/ok", FoundHandler);
    let (_, callback) = default_router(&get_request("GET", "/home/nope/ok"), &configs.routes);
    let resp = callback.unwrap().handle(Request::new(), &configs);
    assert_eq!(resp, ok(String::from("found"), ContentType::TextHtml));
}

#[test]
fn test_route_wildcard_complex() {
    let mut configs = Configuration::new();
    configs.routes.add_route("GET /home/nope/{}", FoundHandler);
    let (args, callback) = default_router(
        &get_request("GET", "/home/nope/blah/whatever/113"),
        &configs.routes,
    );
    let resp = callback.unwrap().handle(Request::new(), &configs);
    assert_eq!(resp, ok(String::from("found"), ContentType::TextHtml));
    assert_eq!(
        args,
        vec![
            String::from("blah"),
            String::from("whatever"),
            String::from("113")
        ]
    );
}

#[test]
fn test_exact_beats_overlapping_wildcard() {
    let mut configs = Configuration::new();
    configs.routes.add_route("GET /a/b/c", FoundHandler);
    configs.routes.add_route("GET /a/{}", FoundHandler);
    let (args, callback) = default_router(&get_request("GET", "/a/b/c"), &configs.routes);
    assert!(callback.is_some());
    assert_eq!(args, Vec::<String>::new());
}

#[test]
fn test_wildcard_capture_order() {
    let mut configs = Configuration::new();
    configs.routes.add_route("GET /a/{}", FoundHandler);
    let (args, callback) = default_router(&get_request("GET", "/a/b/c"), &configs.routes);
    assert!(callback.is_some());
    assert_eq!(args, vec![String::from("b"), String::from("c")]);
}

#[test]
fn test_more_specific_wildcard_wins() {
    let mut configs = Configuration::new();
    configs.routes.add_route("GET /a/{}", Tagged::Outer);
    configs.routes.add_route("GET /a/b/{}", Tagged::Inner);
    let (args, callback) = default_router(&get_request("GET", "/a/b/c"), &configs.routes);
    let resp = callback.unwrap().handle(Request::new(), &configs);
    assert_eq!(resp, ok(String::from("inner"), ContentType::TextHtml));
    assert_eq!(args, vec![String::from("c")]);
}

#[test]
fn test_route_without_slash_matches_root_wildcard() {
    let mut configs = Configuration::new();
    configs.routes.add_route("GET /{}", FoundHandler);
    let (args, callback) = default_router(&get_request("GET", "x"), &configs.routes);
    assert!(callback.is_some());
    assert_eq!(args, vec![String::new()]);
}

#[test]
fn test_no_route_resolves_to_default() {
    let configs: Configuration<FoundHandler> = Configuration::new();
    let (args, callback) = default_router(&get_request("GET", "/nowhere/at/all"), &configs.routes);
    assert!(callback.is_none());
    assert_eq!(args, Vec::<String>::new());
}

#[test]
fn test_dispatch_unrouted_is_not_found() {
    let configs: Configuration<FoundHandler> = Configuration::new();
    let resp = route_request(get_request("GET", "/nowhere"), &configs);
    assert_eq!(resp.status, 404);
    assert_eq!(resp.body, b"Route not found.".to_vec());
    assert_eq!(resp.headers, None);
}

#[test]
fn test_dispatch_attaches_captures() {
    let mut configs = Configuration::new();
    configs.routes.add_route("GET /files/{}", EchoArgs);
    let resp = route_request(get_request("GET", "/files/css/main.css"), &configs);
    assert_eq!(resp.status, 200);
    assert_eq!(resp.body, b"css/main.css".to_vec());
}

#[test]
fn test_readd_route_replaces_handler() {
    let mut configs = Configuration::new();
    configs.routes.add_route("GET /same", Versioned::First);
    assert_eq!(configs.routes.len(), 1);
    configs.routes.add_route("GET /same", Versioned::Second);
    assert_eq!(configs.routes.len(), 1);
    let resp = route_request(get_request("GET", "/same"), &configs);
    assert_eq!(resp, ok(String::from("second"), ContentType::TextHtml));
}
