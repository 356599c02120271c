use servo::dict::Dict;
use servo::http::content_type::ContentType;
use servo::http::{Request, Response};

#[test]
fn req_tests_request_eq_test() {
    let method = "method".to_string();
    let route = "route".to_string();
    let mut map = Dict::new();
    map.insert("test".to_string(), "header".to_string());

    let original = Request::new()
        .with_method(method.clone())
        .with_route(route.clone())
        .with_headers(map.clone());
    let request = Request::new()
        .with_method(method)
        .with_route(route)
        .with_headers(map);
    assert_eq!(true, original == request)
}

#[test]
fn req_tests_response_eq_test() {
    let status = 0_i32;
    let content = ContentType::TextHtml;
    let body = b"body";
    let mut map = Dict::new();
    map.insert("test".to_string(), "header".to_string());

    let original = Response::new()
        .with_status(status)
        .with_content_type(content.clone())
        .with_body(body.clone().to_vec())
        .with_headers(map.clone());
    let response = Response::new()
        .with_status(status)
        .with_content_type(content)
        .with_body(body.to_vec())
        .with_headers(map);
    assert_eq!(true, original == response)
}

#[test]
fn req_tests_request_neq_test() {
    let original = Request::new();
    let request = Request::new()
        .with_method("method".to_string())
        .with_route("route".to_string());

    assert_eq!(true, original != request)
}

#[test]
fn req_tests_response_neq_test() {
    let original = Response::new();
    let request = Response::new()
        .with_status(404_i32)
        .with_content_type(ContentType::TextHtml)
        .with_body(b"content".to_vec());

    assert_eq!(true, original != request)
}

// Tests for parsing the query string to params and args
#[test]
fn req_tests_test_params_from_route() {
    let mut request = Request::new().with_route("/test/route/query?arg1=1&arg2=2".to_string());
    let mut params = Dict::new();
    params.insert("arg1".to_string(), "1".to_string());
    params.insert("arg2".to_string(), "2".to_string());
    request = request.query_params_from_route();
    assert_eq!(request.get_query_params(), params)
}

#[test]
fn req_tests_test_multiple_params_from_route() {
    let mut request =
        Request::new().with_route("/test/route/query1?query2?arg1=1&arg2=2".to_string());
    let mut params = Dict::new();
    params.insert("arg1".to_string(), "1".to_string());
    params.insert("arg2".to_string(), "2".to_string());
    request = request.query_params_from_route();
    assert_eq!(request.get_query_params(), params)
}

#[test]
fn req_tests_test_empty_params_from_route() {
    let mut request = Request::new().with_route("/test/route/".to_string());
    request = request.query_params_from_route();
    let params = Dict::new();
    assert_eq!(request.get_query_params(), params)
}
