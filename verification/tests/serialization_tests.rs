use servo::dict::Dict;
use servo::http::content_type::{get_content_type, ContentType};
use servo::http::{not_found, ok, ok_file, server_error, Response};

#[test]
fn test_ok_serialization_round_trip() {
    let resp = ok("hello".to_string(), ContentType::TextHtml);
    let bytes = resp.byteify();
    let expected = b"HTTP/1.1 200\r\nContent-Type: text/html\r\nContent-Length: 5\r\n\r\nhello";
    assert_eq!(bytes, expected.to_vec());
}

#[test]
fn test_empty_body_content_length() {
    let resp = ok(String::new(), ContentType::ApplicationJson);
    let bytes = resp.byteify();
    let expected = b"HTTP/1.1 200\r\nContent-Type: application/json\r\nContent-Length: 0\r\n\r\n";
    assert_eq!(bytes, expected.to_vec());
}

#[test]
fn test_large_body_content_length() {
    let body: Vec<u8> = std::iter::repeat(b'x').take(4096).collect();
    let resp = ok_file(body.clone(), ContentType::TextCss);
    let bytes = resp.byteify();
    let head = "HTTP/1.1 200\r\nContent-Type: text/css\r\nContent-Length: 4096\r\n\r\n";
    assert_eq!(&bytes[..head.len()], head.as_bytes());
    assert_eq!(&bytes[head.len()..], &body[..]);
}

#[test]
fn test_not_found_serialization() {
    let resp = not_found("gone".to_string(), ContentType::TextHtml);
    assert_eq!(resp.status, 404);
    let bytes = resp.byteify();
    let expected = b"HTTP/1.1 404\r\nContent-Type: text/html\r\nContent-Length: 4\r\n\r\ngone";
    assert_eq!(bytes, expected.to_vec());
}

#[test]
fn test_server_error_uses_status_505() {
    let resp = server_error("boom".to_string(), ContentType::TextHtml);
    assert_eq!(resp.status, 505);
    let bytes = resp.byteify();
    let expected = b"HTTP/1.1 505\r\nContent-Type: text/html\r\nContent-Length: 4\r\n\r\nboom";
    assert_eq!(bytes, expected.to_vec());
}

#[test]
fn test_custom_headers_serialized_and_overwritten() {
    let resp = Response::new()
        .with_status(200)
        .with_content_type(ContentType::TextHtml)
        .with_body(b"ab".to_vec())
        .with_header("X-One", "1")
        .with_header("Content-Type", "bogus/override");
    let bytes = resp.byteify();
    // Serialization overwrites Content-Type in place and appends
    // Content-Length, keeping insertion order for the rest.
    let expected =
        b"HTTP/1.1 200\r\nX-One: 1\r\nContent-Type: text/html\r\nContent-Length: 2\r\n\r\nab";
    assert_eq!(bytes, expected.to_vec());
}

#[test]
fn test_add_header_and_getters() {
    let mut resp = Response::new();
    resp.add_header("X-A", "a");
    resp.add_header("X-A", "b");
    let headers = resp.get_headers().unwrap();
    assert_eq!(headers.get("X-A"), Some(&"b".to_string()));
    assert_eq!(headers.len(), 1);
    assert_eq!(resp.get_status(), 0);
    assert_eq!(resp.get_content_type(), ContentType::TextHtml);
    assert_eq!(resp.get_body(), Vec::<u8>::new());
}

#[test]
fn test_with_headers_replaces() {
    let mut map = Dict::new();
    map.insert("K".to_string(), "v".to_string());
    let resp = Response::new().with_header("Old", "x").with_headers(map);
    let headers = resp.get_headers().unwrap();
    assert_eq!(headers.get("Old"), None);
    assert_eq!(headers.get("K"), Some(&"v".to_string()));
}

#[test]
fn test_content_type_stringify() {
    assert_eq!(ContentType::TextHtml.stringify(), "text/html".to_string());
    assert_eq!(ContentType::TextCss.stringify(), "text/css".to_string());
    assert_eq!(ContentType::TextJs.stringify(), "text/javascript".to_string());
    assert_eq!(ContentType::TextSvgXml.stringify(), "text/svg+xml".to_string());
    assert_eq!(
        ContentType::MultipartForm.stringify(),
        "multipart/form".to_string()
    );
    assert_eq!(ContentType::ImagePng.stringify(), "image/png".to_string());
    assert_eq!(ContentType::ImageJpg.stringify(), "image/jpg".to_string());
    assert_eq!(ContentType::ImageBmp.stringify(), "image/bmp".to_string());
    assert_eq!(ContentType::ImageGif.stringify(), "image/gif".to_string());
    assert_eq!(
        ContentType::ApplicationJson.stringify(),
        "application/json".to_string()
    );
    assert_eq!(
        ContentType::ApplicationXml.stringify(),
        "application/xml".to_string()
    );
}

#[test]
fn test_get_content_type_from_filename() {
    assert_eq!(
        get_content_type(&"static/main.css".to_string()),
        ContentType::TextCss
    );
    assert_eq!(
        get_content_type(&"a/b/photo.jpeg".to_string()),
        ContentType::ImageJpg
    );
    assert_eq!(
        get_content_type(&"data.json".to_string()),
        ContentType::ApplicationJson
    );
    assert_eq!(
        get_content_type(&"noextension".to_string()),
        ContentType::TextHtml
    );
    assert_eq!(
        get_content_type(&"dir.d/noextension".to_string()),
        ContentType::TextHtml
    );
    assert_eq!(
        get_content_type(&".hidden".to_string()),
        ContentType::TextHtml
    );
    assert_eq!(
        get_content_type(&"weird.xyz".to_string()),
        ContentType::TextHtml
    );
}

#[test]
fn test_dict_insert_get_len() {
    let mut d = Dict::new();
    assert_eq!(d.len(), 0);
    assert!(!d.contains_key("a"));
    d.insert("a".to_string(), "1".to_string());
    d.insert("b".to_string(), "2".to_string());
    d.insert("a".to_string(), "3".to_string());
    assert_eq!(d.len(), 2);
    assert!(d.contains_key("a"));
    assert_eq!(d.get("a"), Some(&"3".to_string()));
    assert_eq!(d.get("b"), Some(&"2".to_string()));
    assert_eq!(d.get("c"), None);
}
