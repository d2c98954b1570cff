use philiprehberger_mock_server::{server_url, Method, MockBuilder, MockResponse, ServerState};

#[test]
fn rendered_response_layout() {
    let response = MockResponse {
        status: 201,
        headers: vec![
            ("X-One".to_string(), "1".to_string()),
            ("X-Two".to_string(), "2".to_string()),
        ],
        body: "hello".to_string(),
        delay: None,
    };
    assert_eq!(
        response.render(),
        "HTTP/1.1 201 Created\r\nContent-Length: 5\r\nX-One: 1\r\nX-Two: 2\r\n\r\nhello"
    );
}

#[test]
fn content_length_counts_bytes() {
    let response = MockResponse {
        status: 200,
        headers: Vec::new(),
        body: "h\u{e9}\u{1f600}".to_string(),
        delay: None,
    };
    let text = response.render();
    assert!(text.starts_with("HTTP/1.1 200 OK\r\nContent-Length: 7\r\n\r\n"));
    assert!(text.ends_with("h\u{e9}\u{1f600}"));
}

#[test]
fn not_found_response_text() {
    let mut server = ServerState::new();
    let response = server
        .handle_request(b"GET /nothing HTTP/1.1\r\n\r\n")
        .unwrap();
    assert_eq!(
        response.render(),
        "HTTP/1.1 404 Not Found\r\nContent-Length: 15\r\n\r\nNo mock matched"
    );
}

#[test]
fn unknown_status_gets_ok_phrase() {
    let response = MockResponse {
        status: 418,
        headers: Vec::new(),
        body: String::new(),
        delay: None,
    };
    assert_eq!(response.render(), "HTTP/1.1 418 OK\r\nContent-Length: 0\r\n\r\n");
}

#[test]
fn mock_without_body_answers_empty_body() {
    let mut server = ServerState::new();
    MockBuilder::new(Method::HEAD, "/h").with_status(204).create(&mut server);
    let response = server.handle_request(b"HEAD /h HTTP/1.1\r\n\r\n").unwrap();
    assert_eq!(response.render(), "HTTP/1.1 204 No Content\r\nContent-Length: 0\r\n\r\n");
}

#[test]
fn url_digits() {
    assert_eq!(server_url(0), "http://127.0.0.1:0");
    assert_eq!(server_url(9), "http://127.0.0.1:9");
    assert_eq!(server_url(10), "http://127.0.0.1:10");
    assert_eq!(server_url(65535), "http://127.0.0.1:65535");
}

#[test]
fn json_body_is_compact_with_content_type() {
    let mut server = ServerState::new();
    let value = serde_json::Value::Array(vec![
        serde_json::Value::from(1),
        serde_json::Value::from("two"),
        serde_json::Value::Null,
    ]);
    MockBuilder::new(Method::GET, "/j").with_json(value).create(&mut server);
    let response = server.handle_request(b"GET /j HTTP/1.1\r\n\r\n").unwrap();
    assert_eq!(response.body, "[1,\"two\",null]");
    assert_eq!(
        response.headers,
        vec![("Content-Type".to_string(), "application/json".to_string())]
    );
}

#[test]
fn json_text_sets_body_and_header() {
    let mut server = ServerState::new();
    MockBuilder::new(Method::GET, "/t")
        .with_header("X-First", "a")
        .with_json_text("{\"a\":1}")
        .create(&mut server);
    let response = server.handle_request(b"GET /t HTTP/1.1\r\n\r\n").unwrap();
    assert_eq!(response.body, "{\"a\":1}");
    assert_eq!(
        response.headers,
        vec![
            ("X-First".to_string(), "a".to_string()),
            ("Content-Type".to_string(), "application/json".to_string())
        ]
    );
}
