use philiprehberger_mock_server::{server_url, Method, MockBuilder, ServerState};
use std::time::Duration;

const HOST: &str = "127.0.0.1:54321";

/// The bytes a client sends for a request.
fn request_bytes(method: &str, path: &str, request_body: Option<&str>) -> Vec<u8> {
    let body_bytes = request_body.unwrap_or("");
    let request = if request_body.is_some() {
        format!(
            "{} {} HTTP/1.1\r\nHost: {}\r\nConnection: close\r\nContent-Length: {}\r\n\r\n{}",
            method,
            path,
            HOST,
            body_bytes.len(),
            body_bytes
        )
    } else {
        format!(
            "{} {} HTTP/1.1\r\nHost: {}\r\nConnection: close\r\n\r\n",
            method, path, HOST
        )
    };
    request.into_bytes()
}

/// Hand a request to the registry and read the response as a client would:
/// (status code, body, header section).
fn http_request(
    state: &mut ServerState,
    method: &str,
    path: &str,
    request_body: Option<&str>,
) -> (u16, String, String) {
    let response = state
        .handle_request(&request_bytes(method, path, request_body))
        .expect("a response");
    let response_str = response.render();

    let status_line = response_str.lines().next().unwrap_or("");
    let status: u16 = status_line
        .splitn(3, ' ')
        .nth(1)
        .unwrap_or("0")
        .parse()
        .unwrap_or(0);
    let body = response_str
        .split_once("\r\n\r\n")
        .map(|(_, b)| b.to_string())
        .unwrap_or_default();
    let headers_section = response_str
        .split_once("\r\n\r\n")
        .map(|(h, _)| h.to_string())
        .unwrap_or_default();
    (status, body, headers_section)
}

fn http_get(state: &mut ServerState, path: &str) -> (u16, String) {
    let (status, body, _) = http_request(state, "GET", path, None);
    (status, body)
}

#[test]
fn test_start_server_and_get_url() {
    let url = server_url(54321);
    assert!(url.starts_with("http://127.0.0.1:"));
    let port: u16 = url.rsplit(':').next().unwrap().parse().unwrap();
    assert!(port > 0);
    assert_eq!(port, 54321);
}

#[test]
fn test_basic_get_mock() {
    let mut server = ServerState::new();

    MockBuilder::new(Method::GET, "/hello")
        .with_status(200)
        .with_body("Hello, world!")
        .create(&mut server);

    let (status, body) = http_get(&mut server, "/hello");
    assert_eq!(status, 200);
    assert_eq!(body, "Hello, world!");
}

#[test]
fn test_json_response() {
    let mut server = ServerState::new();
    let value: serde_json::Value = serde_json::from_str(r#"{"key": "value", "num": 42}"#).unwrap();

    MockBuilder::new(Method::GET, "/data")
        .with_status(200)
        .with_json(value)
        .create(&mut server);

    let (status, body, headers) = http_request(&mut server, "GET", "/data", None);
    assert_eq!(status, 200);
    assert!(headers.contains("Content-Type: application/json"));

    let parsed: serde_json::Value = serde_json::from_str(&body).unwrap();
    assert_eq!(parsed["key"], "value");
    assert_eq!(parsed["num"], 42);
}

#[test]
fn test_404_when_no_mock_matches() {
    let mut server = ServerState::new();

    let (status, body) = http_get(&mut server, "/unknown");
    assert_eq!(status, 404);
    assert_eq!(body, "No mock matched");
}

#[test]
fn test_multiple_mocks_different_paths() {
    let mut server = ServerState::new();

    MockBuilder::new(Method::GET, "/one")
        .with_status(200)
        .with_body("first")
        .create(&mut server);

    MockBuilder::new(Method::GET, "/two")
        .with_status(201)
        .with_body("second")
        .create(&mut server);

    let (status1, body1) = http_get(&mut server, "/one");
    assert_eq!(status1, 200);
    assert_eq!(body1, "first");

    let (status2, body2) = http_get(&mut server, "/two");
    assert_eq!(status2, 201);
    assert_eq!(body2, "second");
}

#[test]
fn test_post_with_body_recording() {
    let mut server = ServerState::new();

    MockBuilder::new(Method::POST, "/submit")
        .with_status(201)
        .with_body("created")
        .create(&mut server);

    let (status, body, _) =
        http_request(&mut server, "POST", "/submit", Some(r#"{"name":"test"}"#));
    assert_eq!(status, 201);
    assert_eq!(body, "created");

    let requests = server.requests();
    assert_eq!(requests.len(), 1);
    assert_eq!(requests[0].method, "POST");
    assert_eq!(requests[0].path, "/submit");
    assert_eq!(requests[0].body, r#"{"name":"test"}"#);
}

#[test]
fn test_requests_returns_recorded() {
    let mut server = ServerState::new();

    MockBuilder::new(Method::GET, "/a")
        .with_status(200)
        .with_body("ok")
        .create(&mut server);

    http_get(&mut server, "/a");
    http_get(&mut server, "/a");

    let requests = server.requests();
    assert_eq!(requests.len(), 2);
    assert!(requests.iter().all(|r| r.path == "/a"));
}

#[test]
fn test_reset_clears_mocks() {
    let mut server = ServerState::new();

    MockBuilder::new(Method::GET, "/temp")
        .with_status(200)
        .with_body("temporary")
        .create(&mut server);

    let (status, body) = http_get(&mut server, "/temp");
    assert_eq!(status, 200);
    assert_eq!(body, "temporary");

    server.reset();

    let (status, body) = http_get(&mut server, "/temp");
    assert_eq!(status, 404);
    assert_eq!(body, "No mock matched");

    // Requests are cleared too (only the post-reset request remains).
    let requests = server.requests();
    assert_eq!(requests.len(), 1);
}

#[test]
fn test_custom_headers_in_response() {
    let mut server = ServerState::new();

    MockBuilder::new(Method::GET, "/headers")
        .with_status(200)
        .with_body("ok")
        .with_header("X-Custom", "hello")
        .with_header("X-Another", "world")
        .create(&mut server);

    let (status, body, headers) = http_request(&mut server, "GET", "/headers", None);
    assert_eq!(status, 200);
    assert_eq!(body, "ok");
    assert!(headers.contains("X-Custom: hello"));
    assert!(headers.contains("X-Another: world"));
}

#[test]
fn test_different_http_methods() {
    let mut server = ServerState::new();

    MockBuilder::new(Method::PUT, "/resource")
        .with_status(200)
        .with_body("updated")
        .create(&mut server);

    MockBuilder::new(Method::DELETE, "/resource")
        .with_status(204)
        .with_body("")
        .create(&mut server);

    MockBuilder::new(Method::PATCH, "/resource")
        .with_status(200)
        .with_body("patched")
        .create(&mut server);

    let (status, body, _) = http_request(&mut server, "PUT", "/resource", Some("data"));
    assert_eq!(status, 200);
    assert_eq!(body, "updated");

    let (status, _, _) = http_request(&mut server, "DELETE", "/resource", None);
    assert_eq!(status, 204);

    let (status, body, _) = http_request(&mut server, "PATCH", "/resource", Some("patch"));
    assert_eq!(status, 200);
    assert_eq!(body, "patched");
}

#[test]
fn expected_mock_stops_answering_after_its_count() {
    let mut server = ServerState::new();
    MockBuilder::new(Method::GET, "/once")
        .with_body("only once")
        .expect(1)
        .create(&mut server);

    assert_eq!(http_get(&mut server, "/once"), (200, "only once".to_string()));
    assert_eq!(http_get(&mut server, "/once"), (404, "No mock matched".to_string()));
    assert!(server.unmet_expectations().is_empty());
}

#[test]
fn exhausted_mock_falls_through_to_a_later_one() {
    let mut server = ServerState::new();
    MockBuilder::new(Method::GET, "/x").with_body("first").expect(1).create(&mut server);
    MockBuilder::new(Method::GET, "/x").with_body("second").create(&mut server);

    assert_eq!(http_get(&mut server, "/x").1, "first");
    assert_eq!(http_get(&mut server, "/x").1, "second");
    assert_eq!(http_get(&mut server, "/x").1, "second");
}

#[test]
fn first_registered_mock_wins() {
    let mut server = ServerState::new();
    MockBuilder::new(Method::GET, "/same").with_status(201).with_body("a").create(&mut server);
    MockBuilder::new(Method::GET, "/same").with_status(202).with_body("b").create(&mut server);
    assert_eq!(http_get(&mut server, "/same"), (201, "a".to_string()));
}

#[test]
fn method_and_path_must_both_match() {
    let mut server = ServerState::new();
    MockBuilder::new(Method::POST, "/p").with_body("post").create(&mut server);
    assert_eq!(http_get(&mut server, "/p").0, 404);
    let (status, body, _) = http_request(&mut server, "POST", "/p?x=1", None);
    assert_eq!((status, body.as_str()), (200, "post"));
    assert_eq!(http_get(&mut server, "/p/").0, 404);
}

#[test]
fn method_in_request_is_read_in_any_case() {
    let mut server = ServerState::new();
    MockBuilder::new(Method::DELETE, "/r").with_status(204).create(&mut server);
    let (status, body, _) = http_request(&mut server, "delete", "/r", None);
    assert_eq!(status, 204);
    assert_eq!(body, "");
    assert_eq!(server.requests()[0].method, "delete");
}

#[test]
fn unknown_method_is_recorded_and_answered_404() {
    let mut server = ServerState::new();
    MockBuilder::new(Method::GET, "/").create(&mut server);
    let (status, body, _) = http_request(&mut server, "BREW", "/", None);
    assert_eq!(status, 404);
    assert_eq!(body, "No mock matched");
    assert_eq!(server.requests().len(), 1);
    assert_eq!(server.requests()[0].method, "BREW");
}

#[test]
fn query_and_headers_are_recorded() {
    let mut server = ServerState::new();
    http_request(&mut server, "GET", "/search?q=rust&page=2", None);
    let requests = server.requests();
    assert_eq!(requests[0].path, "/search");
    assert_eq!(requests[0].query, "q=rust&page=2");
    assert_eq!(
        requests[0].headers,
        vec![
            ("Host".to_string(), HOST.to_string()),
            ("Connection".to_string(), "close".to_string())
        ]
    );
    assert_eq!(requests[0].body, "");
}

#[test]
fn delay_is_carried_to_the_response() {
    let mut server = ServerState::new();
    MockBuilder::new(Method::GET, "/slow")
        .with_body("finally")
        .with_delay(Duration::from_millis(500))
        .create(&mut server);
    let response = server
        .handle_request(&request_bytes("GET", "/slow", None))
        .unwrap();
    assert_eq!(response.delay, Some(Duration::from_millis(500)));
    assert_eq!(response.body, "finally");
    let not_found = server
        .handle_request(&request_bytes("GET", "/fast", None))
        .unwrap();
    assert_eq!(not_found.delay, None);
}

#[test]
fn unmet_expectations_are_reported() {
    let mut server = ServerState::new();
    MockBuilder::new(Method::GET, "/twice").expect(2).create(&mut server);
    MockBuilder::new(Method::POST, "/never").expect(0).create(&mut server);
    MockBuilder::new(Method::GET, "/free").create(&mut server);
    http_get(&mut server, "/twice");
    assert_eq!(
        server.unmet_expectations(),
        vec!["Mock expectation failed: GET /twice expected 2 calls, got 1".to_string()]
    );
    http_get(&mut server, "/twice");
    assert!(server.unmet_expectations().is_empty());
}

#[test]
fn incomplete_or_invalid_heads_get_no_response() {
    let mut server = ServerState::new();
    assert!(server.handle_request(b"GET / HTTP/1.1\r\nHost: x\r\n").is_none());
    assert!(server.handle_request(b"GETNOSPACE\r\n\r\n").is_none());
    assert!(server.handle_request(b"\r\n\r\n").is_none());
    assert!(server.requests().is_empty());
}

#[test]
fn body_is_cut_at_content_length() {
    let mut server = ServerState::new();
    let data = b"POST /b HTTP/1.1\r\ncontent-LENGTH: 3\r\n\r\nabcdef";
    server.handle_request(data).unwrap();
    assert_eq!(server.requests()[0].body, "abc");
    let short = b"POST /b HTTP/1.1\r\nContent-Length: 10\r\n\r\nxy";
    server.handle_request(short).unwrap();
    assert_eq!(server.requests()[1].body, "xy");
    let bad = b"POST /b HTTP/1.1\r\nContent-Length: ten\r\n\r\nxy";
    server.handle_request(bad).unwrap();
    assert_eq!(server.requests()[2].body, "");
}

#[test]
fn invalid_utf8_body_is_decoded_with_replacement() {
    let mut server = ServerState::new();
    let mut data = b"POST /u HTTP/1.1\r\nContent-Length: 3\r\n\r\n".to_vec();
    data.extend_from_slice(&[b'a', 0xff, b'b']);
    server.handle_request(&data).unwrap();
    assert_eq!(server.requests()[0].body, "a\u{FFFD}b");
}

#[test]
fn counts_below_max_on_fresh_registry() {
    let mut server = ServerState::new();
    MockBuilder::new(Method::GET, "/").create(&mut server);
    assert!(server.counts_below_max());
    assert_eq!(server.mock_count(), 1);
    assert_eq!(server.expectation(0), (Method::GET, "/", None, 0));
}
