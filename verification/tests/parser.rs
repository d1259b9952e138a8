//! Tests of the request parser: recovery of the head fields, body framing,
//! body decoding by content type, and every parse failure.

use taskserver::request::{parse_head, parse_request, ParseError, Request};

fn lines(items: &[&str]) -> Vec<String> {
    items.iter().map(|s| s.to_string()).collect()
}

fn parse_ok(head: &[&str], body: &str) -> Request {
    parse_request(lines(head), body.to_string()).expect("request should parse")
}

#[test]
fn recovers_method_path_headers_cookies() {
    let req = parse_ok(
        &[
            "GET /index.html HTTP/1.1",
            "Host: localhost:3000",
            "Accept: text/html",
            "Cookie: username=alice; flash=hello",
        ],
        "",
    );
    assert_eq!(req.verb, "GET");
    assert_eq!(req.path, "/index.html");
    assert_eq!(req.headers.get("Host").unwrap(), "localhost:3000");
    assert_eq!(req.headers.get("Accept").unwrap(), "text/html");
    assert!(req.headers.get("Cookie").is_none());
    assert_eq!(req.cookies.get("username").unwrap(), "alice");
    assert_eq!(req.cookies.get("flash").unwrap(), "hello");
    assert_eq!(req.body, "");
}

#[test]
fn start_line_without_version_is_accepted() {
    let req = parse_ok(&["DELETE /tasks/7"], "");
    assert_eq!(req.verb, "DELETE");
    assert_eq!(req.path, "/tasks/7");
}

#[test]
fn duplicate_header_last_write_wins() {
    let req = parse_ok(&["GET /", "X-Tag: one", "X-Tag: two"], "");
    assert_eq!(req.headers.get("X-Tag").unwrap(), "two");
}

#[test]
fn header_value_may_contain_colon() {
    let req = parse_ok(&["GET /", "Host: localhost:3000"], "");
    assert_eq!(req.headers.get("Host").unwrap(), "localhost:3000");
}

#[test]
fn empty_line_ends_headers() {
    let req = parse_ok(&["GET /", "A: 1", "", "B: 2"], "");
    assert_eq!(req.headers.get("A").unwrap(), "1");
    assert!(req.headers.get("B").is_none());
}

#[test]
fn empty_input_is_malformed_start_line() {
    let r = parse_request(Vec::new(), String::new());
    assert_eq!(r.unwrap_err(), ParseError::MalformedStartLine);
}

#[test]
fn one_token_start_line_is_malformed() {
    let r = parse_request(lines(&["GETONLY"]), String::new());
    assert_eq!(r.unwrap_err(), ParseError::MalformedStartLine);
}

#[test]
fn header_without_separator_is_malformed() {
    let r = parse_request(lines(&["GET /", "NoColonHere"]), String::new());
    assert_eq!(r.unwrap_err(), ParseError::MalformedHeader);
}

#[test]
fn cookie_entry_without_equals_is_malformed() {
    let r = parse_request(lines(&["GET /", "Cookie: broken"]), String::new());
    assert_eq!(r.unwrap_err(), ParseError::MalformedCookie);
}

#[test]
fn non_numeric_content_length_is_malformed() {
    let r = parse_request(lines(&["POST /", "Content-Length: ten"]), "x".to_string());
    assert_eq!(r.unwrap_err(), ParseError::MalformedContentLength);
}

#[test]
fn short_body_is_incomplete() {
    // The client declared ten bytes but the connection closed after three.
    let r = parse_request(lines(&["POST /", "Content-Length: 10"]), "abc".to_string());
    assert_eq!(r.unwrap_err(), ParseError::IncompleteBody);
}

#[test]
fn exact_body_is_complete() {
    let req = parse_ok(&["POST /", "Content-Length: 3"], "abc");
    assert_eq!(req.body, "abc");
}

#[test]
fn form_body_fills_params() {
    let req = parse_ok(
        &[
            "POST /login",
            "Content-Length: 25",
            "Content-Type: application/x-www-form-urlencoded",
        ],
        "username=alice&password=x",
    );
    assert_eq!(req.params.get("username").unwrap(), "alice");
    assert_eq!(req.params.get("password").unwrap(), "x");
}

#[test]
fn form_piece_without_equals_is_malformed() {
    let r = parse_request(
        lines(&[
            "POST /",
            "Content-Length: 7",
            "Content-Type: application/x-www-form-urlencoded",
        ]),
        "a=1&b~2".to_string(),
    );
    assert_eq!(r.unwrap_err(), ParseError::MalformedFormBody);
}

#[test]
fn json_body_fills_params() {
    let req = parse_ok(
        &["POST /", "Content-Length: 20", "Content-Type: application/json"],
        "{\"name\":\"buy bread\"}",
    );
    assert_eq!(req.params.get("name").unwrap(), "buy bread");
}

#[test]
fn json_array_is_malformed() {
    let r = parse_request(
        lines(&["POST /", "Content-Length: 5", "Content-Type: application/json"]),
        "[1,2]".to_string(),
    );
    assert_eq!(r.unwrap_err(), ParseError::MalformedJsonBody);
}

#[test]
fn json_non_string_value_is_malformed() {
    let r = parse_request(
        lines(&["POST /", "Content-Length: 7", "Content-Type: application/json"]),
        "{\"k\":1}".to_string(),
    );
    assert_eq!(r.unwrap_err(), ParseError::MalformedJsonBody);
}

#[test]
fn json_nested_object_is_malformed() {
    let r = parse_request(
        lines(&["POST /", "Content-Length: 8", "Content-Type: application/json"]),
        "{\"k\":{}}".to_string(),
    );
    assert_eq!(r.unwrap_err(), ParseError::MalformedJsonBody);
}

#[test]
fn other_content_type_keeps_body_raw() {
    let req = parse_ok(
        &["POST /", "Content-Length: 5", "Content-Type: text/plain"],
        "a=1&b",
    );
    assert_eq!(req.body, "a=1&b");
    assert!(req.params.get("a").is_none());
}

#[test]
fn no_content_length_reads_no_body() {
    let req = parse_ok(&["POST /"], "ignored");
    assert_eq!(req.body, "");
}

#[test]
fn parse_head_leaves_body_empty() {
    let req = parse_head(&lines(&["GET /", "A: 1"])).expect("head should parse");
    assert_eq!(req.verb, "GET");
    assert_eq!(req.body, "");
    assert!(req.params.get("a").is_none());
}

#[test]
fn form_encoding_round_trips() {
    let pairs: Vec<(String, String)> = vec![
        ("username".to_string(), "alice".to_string()),
        ("password".to_string(), "secret".to_string()),
    ];
    let encoded = taskserver::laws::encode_form_params(&pairs);
    assert_eq!(encoded, "username=alice&password=secret");
    let req = parse_request(
        lines(&[
            "POST /",
            &format!("Content-Length: {}", encoded.len()),
            "Content-Type: application/x-www-form-urlencoded",
        ]),
        encoded,
    )
    .expect("round trip should parse");
    assert_eq!(req.params.get("username").unwrap(), "alice");
    assert_eq!(req.params.get("password").unwrap(), "secret");
}
