use servo::http::content_type::ContentType;
use servo::http::ok;
use servo::http::Request;
use servo::http::Response;
use servo::{Configuration, Handler, Routes, Server, Servo};

#[derive(Clone, Copy, Debug, PartialEq, Eq)]
struct Plain;

impl Handler for Plain {
    fn handle(&self, _request: Request, _config: &Configuration<Self>) -> Response {
        ok(String::from("plain"), ContentType::TextHtml)
    }
}

#[test]
fn test_server_defaults_and_builders() {
    let server = Server::new();
    assert_eq!(server.get_host(), "127.0.0.1".to_string());
    assert_eq!(server.get_port(), "8000".to_string());
    assert_eq!(server.get_static_directory(), "static/".to_string());
    assert_eq!(server.get_html_directory(), "templates/".to_string());

    let server = server
        .with_host("0.0.0.0")
        .with_port("8080")
        .with_static_dir("assets/")
        .with_html_dir("pages/");
    assert_eq!(server.get_host(), "0.0.0.0".to_string());
    assert_eq!(server.get_port(), "8080".to_string());
    assert_eq!(server.get_static_directory(), "assets/".to_string());
    assert_eq!(server.get_html_directory(), "pages/".to_string());
    assert_eq!(server.clone(), server);
}

#[test]
fn test_configuration_builders_and_clone() {
    let routes = Routes::new().with_route("GET /", Plain);
    let configs: Configuration<Plain> = Configuration::new()
        .with_server_configurations(Server::new().with_port("9000"))
        .with_routes(routes);
    assert_eq!(configs.server.get_port(), "9000".to_string());
    assert!(configs.routes.contains_route("GET /"));
    assert_eq!(configs.routes.get_route("GET /"), Some(&Plain));
    assert_eq!(configs.routes.get_route("GET /other"), None);

    let copy = configs.clone();
    assert!(copy.routes.contains_route("GET /"));
    assert_eq!(copy.server.get_port(), "9000".to_string());
}

#[test]
fn test_servo_holds_configuration() {
    let servo: Servo<Plain> = Servo::new();
    assert_eq!(servo.configuration.server.get_port(), "8000".to_string());
    let servo = servo.with_configuration(
        Configuration::new().with_server_configurations(Server::new().with_host("10.0.0.1")),
    );
    assert_eq!(
        servo.configuration.server.get_host(),
        "10.0.0.1".to_string()
    );
}

#[test]
fn test_server_route_request_delegates() {
    let mut configs: Configuration<Plain> = Configuration::new();
    configs.routes.add_route("GET /x/{}", Plain);
    let request = Request::new()
        .with_method("GET".to_string())
        .with_route("/x/1/2".to_string());
    let (args, callback) = configs.server.route_request(&request, &configs.routes);
    assert!(callback.is_some());
    assert_eq!(args, vec!["1".to_string(), "2".to_string()]);
}
