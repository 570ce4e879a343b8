use route_iq::plain_http::{decimal_text, greeting_body, plain_text_response};
use route_iq::text::{has_prefix, same_text, trim_start_all_of};

#[test]
fn prefixes_and_equality() {
    assert!(has_prefix("/admin/strategy/x", "/admin/"));
    assert!(has_prefix("abc", ""));
    assert!(!has_prefix("ab", "abc"));
    assert!(same_text("héllo", "héllo"));
    assert!(!same_text("hello", "hellO"));
}

#[test]
fn trimming_repeats() {
    assert_eq!(trim_start_all_of("ababc", "ab"), "c");
    assert_eq!(trim_start_all_of("abab", "ab"), "");
    assert_eq!(trim_start_all_of("xab", "ab"), "xab");
    assert_eq!(trim_start_all_of("ééx", "é"), "x");
}

#[test]
fn greeting_response_matches_http_framing() {
    let body = "Hello from route_iq binary on :8080\n";
    assert_eq!(greeting_body(), body);
    let expected = format!(
        "HTTP/1.1 200 OK\r\nContent-Length: {}\r\nContent-Type: text/plain; charset=utf-8\r\nConnection: close\r\n\r\n{}",
        body.len(),
        body
    );
    assert_eq!(plain_text_response(body), expected);
    assert_eq!(plain_text_response("é"), "HTTP/1.1 200 OK\r\nContent-Length: 2\r\nContent-Type: text/plain; charset=utf-8\r\nConnection: close\r\n\r\né");
    assert_eq!(decimal_text(0), "0");
    assert_eq!(decimal_text(10), "10");
    assert_eq!(decimal_text(1234567), "1234567");
}
