use servo::http::{parse_request, ParseError, Request};

#[test]
fn test_parse_simple_request() {
    let raw = "GET /home HTTP/1.1\r\nHost: localhost:8000\r\nAccept: text/html\r\n\r\n";
    let request = parse_request(raw).unwrap();
    assert_eq!(request.get_method(), "GET".to_string());
    assert_eq!(request.route, "/home".to_string());
    assert_eq!(request.get_route(), "GET /home".to_string());
    let headers = request.get_headers();
    // The value runs from the first colon to the end of the line, left trimmed.
    assert_eq!(headers.get("Host"), Some(&"localhost:8000".to_string()));
    assert_eq!(headers.get("Accept"), Some(&"text/html".to_string()));
    assert_eq!(headers.get("Missing"), None);
}

#[test]
fn test_parse_strips_one_trailing_slash() {
    // The chosen normalization: exactly one trailing slash is stripped.
    let request = parse_request("GET /files/docs/ HTTP/1.1\r\n").unwrap();
    assert_eq!(request.route, "/files/docs".to_string());
}

#[test]
fn test_parse_keeps_root_route() {
    // The bare root route stays "/" rather than becoming empty.
    let request = parse_request("GET / HTTP/1.1\r\n").unwrap();
    assert_eq!(request.route, "/".to_string());
}

#[test]
fn test_parse_query_params() {
    let request = parse_request("GET /search?q=servo&page=2 HTTP/1.1\r\n").unwrap();
    assert_eq!(request.route, "/search?q=servo&page=2".to_string());
    let params = request.get_query_params();
    assert_eq!(params.get("q"), Some(&"servo".to_string()));
    assert_eq!(params.get("page"), Some(&"2".to_string()));
    assert_eq!(params.len(), 2);
}

#[test]
fn test_parse_query_needs_exactly_one_equals() {
    let request = parse_request("GET /p?a=1&plain&b=2=3 HTTP/1.1\r\n").unwrap();
    let params = request.get_query_params();
    assert_eq!(params.get("a"), Some(&"1".to_string()));
    // A token without '=' and a token with two of them are both dropped.
    assert_eq!(params.get("plain"), None);
    assert_eq!(params.get("b"), None);
    assert_eq!(params.len(), 1);
}

#[test]
fn test_parse_leading_whitespace_and_headers_without_colon() {
    let raw = "\r\n  POST /submit HTTP/1.1\nContent-Type: text/html\nnot a header line\n";
    let request = parse_request(raw).unwrap();
    assert_eq!(request.method, "POST".to_string());
    assert_eq!(request.route, "/submit".to_string());
    let headers = request.get_headers();
    assert_eq!(headers.get("Content-Type"), Some(&"text/html".to_string()));
    assert_eq!(headers.len(), 1);
}

#[test]
fn test_parse_malformed_request_line() {
    assert_eq!(
        parse_request("GET\r\n"),
        Err(ParseError::MalformedRequestLine)
    );
    assert_eq!(parse_request(""), Err(ParseError::MalformedRequestLine));
    assert_eq!(parse_request("   \r\n\r\n"), Err(ParseError::MalformedRequestLine));
}

#[test]
fn test_from_matches_parse_request() {
    let raw = "GET /x/y HTTP/1.1\r\nHost: h\r\n";
    let via_from = Request::from(raw);
    let via_parse = parse_request(raw).unwrap();
    assert_eq!(via_from, via_parse);
}

#[test]
fn test_get_url_args_joins_with_slash() {
    let request = Request::new()
        .with_url_arg("css".to_string())
        .with_url_arg("main.css".to_string());
    assert_eq!(request.get_url_args(), "css/main.css".to_string());
    assert_eq!(Request::new().get_url_args(), "".to_string());
}
