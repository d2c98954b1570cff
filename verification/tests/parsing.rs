use philiprehberger_mock_server::{
    find_subsequence, head_end, parse_request_head, parse_request_text, read_progress,
    status_reason, Method, ReadProgress,
};

#[test]
fn status_reasons() {
    let known = [
        (200, "OK"),
        (201, "Created"),
        (202, "Accepted"),
        (204, "No Content"),
        (301, "Moved Permanently"),
        (302, "Found"),
        (304, "Not Modified"),
        (400, "Bad Request"),
        (401, "Unauthorized"),
        (403, "Forbidden"),
        (404, "Not Found"),
        (405, "Method Not Allowed"),
        (409, "Conflict"),
        (422, "Unprocessable Entity"),
        (429, "Too Many Requests"),
        (500, "Internal Server Error"),
        (502, "Bad Gateway"),
        (503, "Service Unavailable"),
    ];
    for (code, phrase) in known {
        assert_eq!(status_reason(code), phrase);
    }
    assert_eq!(status_reason(418), "OK");
    assert_eq!(status_reason(0), "OK");
    assert_eq!(status_reason(599), "OK");
}

#[test]
fn find_subsequence_finds_the_first_occurrence() {
    assert_eq!(find_subsequence(b"abcabc", b"bc"), Some(1));
    assert_eq!(find_subsequence(b"abcabc", b"abc"), Some(0));
    assert_eq!(find_subsequence(b"abcabc", b"cab"), Some(2));
    assert_eq!(find_subsequence(b"abcabc", b"abd"), None);
    assert_eq!(find_subsequence(b"ab", b"abc"), None);
    assert_eq!(find_subsequence(b"", b"a"), None);
    assert_eq!(find_subsequence(b"xx\r\n\r\n\r\n\r\n", b"\r\n\r\n"), Some(2));
}

#[test]
fn head_end_finds_the_empty_line() {
    assert_eq!(head_end(b"GET / HTTP/1.1\r\n\r\nbody"), Some(14));
    assert_eq!(head_end(b"GET / HTTP/1.1\r\n"), None);
}

#[test]
fn method_names_and_parsing() {
    let all = [
        Method::GET,
        Method::POST,
        Method::PUT,
        Method::DELETE,
        Method::PATCH,
        Method::HEAD,
        Method::OPTIONS,
    ];
    for m in all {
        assert_eq!(Method::parse(m.as_str()), Ok(m));
        assert_eq!(Method::parse(&m.as_str().to_lowercase()), Ok(m));
        assert_eq!(m.as_str().parse::<Method>(), Ok(m));
    }
    assert_eq!(Method::GET.as_str(), "GET");
    assert_eq!(Method::OPTIONS.as_str(), "OPTIONS");
    assert_eq!(Method::parse("gEt"), Ok(Method::GET));
    assert_eq!(
        Method::parse("fetch"),
        Err("Unknown HTTP method: FETCH".to_string())
    );
    assert_eq!(Method::parse(""), Err("Unknown HTTP method: ".to_string()));
    assert_eq!(
        Method::from_upper_name(&"get".to_string()),
        Err("Unknown HTTP method: get".to_string())
    );
    assert_eq!(Method::from_upper_name(&"HEAD".to_string()), Ok(Method::HEAD));
}

#[test]
fn parse_request_line_and_headers() {
    let head = parse_request_text(
        "POST /api/users?id=7&x=y HTTP/1.1\r\nHost: example.com\r\n  X-Pad :  spaced value \t\r\nno colon line\r\nContent-Length: 12",
    )
    .unwrap();
    assert_eq!(head.method, "POST");
    assert_eq!(head.path, "/api/users");
    assert_eq!(head.query, "id=7&x=y");
    assert_eq!(
        head.headers,
        vec![
            ("Host".to_string(), "example.com".to_string()),
            ("X-Pad".to_string(), "spaced value".to_string()),
            ("Content-Length".to_string(), "12".to_string()),
        ]
    );
    assert_eq!(head.content_length, 12);
}

#[test]
fn request_target_edge_cases() {
    let head = parse_request_text("GET /only-target").unwrap();
    assert_eq!((head.path.as_str(), head.query.as_str()), ("/only-target", ""));
    let head = parse_request_text("GET ").unwrap();
    assert_eq!(head.path, "");
    let head = parse_request_text("GET /a?b?c HTTP/1.1 extra").unwrap();
    assert_eq!((head.path.as_str(), head.query.as_str()), ("/a", "b?c"));
    let head = parse_request_text("GET  /double-space").unwrap();
    assert_eq!(head.path, "");
    assert!(parse_request_text("GET").is_none());
    assert!(parse_request_text("").is_none());
    assert!(parse_request_text("\r\nGET / HTTP/1.1").is_none());
    let head = parse_request_text("GET /\nHost: lf-only\r").unwrap();
    assert_eq!(head.headers, vec![("Host".to_string(), "lf-only".to_string())]);
}

#[test]
fn content_length_rules() {
    let cl = |text: &str| parse_request_text(text).unwrap().content_length;
    assert_eq!(cl("GET / HTTP/1.1"), 0);
    assert_eq!(cl("GET / HTTP/1.1\r\ncontent-length: 5"), 5);
    assert_eq!(cl("GET / HTTP/1.1\r\nCONTENT-LENGTH:+7"), 7);
    assert_eq!(cl("GET / HTTP/1.1\r\nContent-Length: 5\r\nContent-Length: 9"), 9);
    assert_eq!(cl("GET / HTTP/1.1\r\nContent-Length: 5\r\nContent-Length: x"), 0);
    assert_eq!(cl("GET / HTTP/1.1\r\nContent-Length: -1"), 0);
    assert_eq!(cl("GET / HTTP/1.1\r\nContent-Length: +"), 0);
    assert_eq!(cl("GET / HTTP/1.1\r\nContent-Length: "), 0);
    assert_eq!(cl("GET / HTTP/1.1\r\nContent-Length: 99999999999999999999999"), 0);
    assert_eq!(
        cl("GET / HTTP/1.1\r\nContent-Length: 18446744073709551615"),
        usize::MAX
    );
    assert_eq!(cl("GET / HTTP/1.1\r\nContent-Lengthx: 5"), 0);
    assert_eq!(cl("GET / HTTP/1.1\r\nContent-Length: 0012"), 12);
}

#[test]
fn unicode_whitespace_is_trimmed() {
    let head = parse_request_text("GET / HTTP/1.1\r\n\u{3000}Key\u{a0}:\u{2003}v\u{85}").unwrap();
    assert_eq!(head.headers, vec![("Key".to_string(), "v".to_string())]);
}

#[test]
fn parse_head_bytes_replaces_invalid_utf8() {
    let head = parse_request_head(b"GET /caf\xc3\xa9\xff HTTP/1.1").unwrap();
    assert_eq!(head.path, "/caf\u{e9}\u{FFFD}");
}

#[test]
fn read_progress_steps() {
    assert!(matches!(read_progress(b"GET / HT"), ReadProgress::NeedHead));
    assert!(matches!(read_progress(b"NOSPACE\r\n\r\n"), ReadProgress::NoRequest));
    assert!(matches!(
        read_progress(b"POST / HTTP/1.1\r\nContent-Length: 5\r\n\r\nab"),
        ReadProgress::NeedBody(3)
    ));
    assert!(matches!(
        read_progress(b"POST / HTTP/1.1\r\nContent-Length: 2\r\n\r\nab"),
        ReadProgress::Complete
    ));
    assert!(matches!(
        read_progress(b"GET / HTTP/1.1\r\n\r\n"),
        ReadProgress::Complete
    ));
}
