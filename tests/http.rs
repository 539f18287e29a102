use ruginx::http::{push_decimal, response, route};

#[test]
fn root_request_gets_the_home_page() {
    assert_eq!(route("GET / HTTP/1.1"), ("HTTP/1.1 200 OK", "hello.html"));
}

#[test]
fn other_requests_get_not_found() {
    assert_eq!(route("GET /sleep HTTP/1.1"), ("HTTP/1.1 404 NOT FOUND", "404.html"));
    assert_eq!(route(""), ("HTTP/1.1 404 NOT FOUND", "404.html"));
    assert_eq!(route("GET / HTTP/1.0"), ("HTTP/1.1 404 NOT FOUND", "404.html"));
}

#[test]
fn decimal_digits() {
    let mut v = Vec::new();
    push_decimal(&mut v, 0);
    assert_eq!(v, b"0".to_vec());
    let mut v = b"x".to_vec();
    push_decimal(&mut v, 120);
    assert_eq!(v, b"x120".to_vec());
    let mut v = Vec::new();
    push_decimal(&mut v, usize::MAX);
    assert_eq!(String::from_utf8(v).unwrap(), usize::MAX.to_string());
}

#[test]
fn response_carries_status_length_and_body() {
    let r = response("HTTP/1.1 200 OK", "<p>hi</p>");
    assert_eq!(
        String::from_utf8(r).unwrap(),
        "HTTP/1.1 200 OK\r\nContent-Length: 9\r\n\r\n\n<p>hi</p>"
    );
}

#[test]
fn response_length_counts_bytes() {
    let r = response("HTTP/1.1 404 NOT FOUND", "é");
    assert_eq!(
        String::from_utf8(r).unwrap(),
        "HTTP/1.1 404 NOT FOUND\r\nContent-Length: 2\r\n\r\n\né"
    );
}

#[test]
fn response_with_empty_body() {
    let r = response("HTTP/1.1 200 OK", "");
    assert_eq!(r, b"HTTP/1.1 200 OK\r\nContent-Length: 0\r\n\r\n\n".to_vec());
}
