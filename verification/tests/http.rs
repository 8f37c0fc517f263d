use workpool::http::{decimal_string, render_response, route, str_eq};

#[test]
fn root_request_gets_the_greeting_page() {
    let (status, filename) = route("GET / HTTP/1.1");
    assert_eq!(status, "HTTP/1.1 200 OK");
    assert_eq!(filename, "hello.html");
}

#[test]
fn any_other_request_gets_the_fallback_page() {
    let (status, filename) = route("GET /missing HTTP/1.1");
    assert_eq!(status, "HTTP/1.1 404 NOT FOUND");
    assert_eq!(filename, "404.html");
    let (status, filename) = route("POST / HTTP/1.1");
    assert_eq!(status, "HTTP/1.1 404 NOT FOUND");
    assert_eq!(filename, "404.html");
}

#[test]
fn response_carries_status_length_and_body() {
    let body = "<html>hi</html>";
    let response = render_response("HTTP/1.1 200 OK", body);
    assert_eq!(
        response,
        "HTTP/1.1 200 OK\r\nContent-Length: 15\r\n\r\n<html>hi</html>"
    );
}

#[test]
fn content_length_counts_bytes_not_characters() {
    let response = render_response("HTTP/1.1 200 OK", "é");
    assert_eq!(response, "HTTP/1.1 200 OK\r\nContent-Length: 2\r\n\r\né");
}

#[test]
fn decimal_string_renders_exact_digits() {
    assert_eq!(decimal_string(0), "0");
    assert_eq!(decimal_string(7), "7");
    assert_eq!(decimal_string(10), "10");
    assert_eq!(decimal_string(12034), "12034");
    assert_eq!(decimal_string(usize::MAX), usize::MAX.to_string());
}

#[test]
fn str_eq_compares_characters() {
    assert!(str_eq("", ""));
    assert!(str_eq("abc", "abc"));
    assert!(!str_eq("abc", "abd"));
    assert!(!str_eq("abc", "abcd"));
}
