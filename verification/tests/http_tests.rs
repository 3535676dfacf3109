use wait_any_httpd::http::build_response;
use wait_any_httpd::http::dec_digits_of;

fn expected_response(body: &[u8]) -> Vec<u8> {
    let mut v = format!("HTTP/1.1 200 OK\r\nContent-Length: {}\r\n\r\n", body.len()).into_bytes();
    v.extend_from_slice(body);
    v
}

#[test]
fn decimal_digits_of_zero() {
    assert_eq!(dec_digits_of(0), b"0".to_vec());
}

#[test]
fn decimal_digits_single() {
    assert_eq!(dec_digits_of(9), b"9".to_vec());
}

#[test]
fn decimal_digits_two() {
    assert_eq!(dec_digits_of(10), b"10".to_vec());
}

#[test]
fn decimal_digits_many() {
    assert_eq!(dec_digits_of(1500), b"1500".to_vec());
    assert_eq!(dec_digits_of(987654321), b"987654321".to_vec());
}

#[test]
fn response_exact_bytes() {
    let body = b"hello".to_vec();
    let r = build_response(&body);
    assert_eq!(r, b"HTTP/1.1 200 OK\r\nContent-Length: 5\r\n\r\nhello".to_vec());
}

#[test]
fn response_content_length_matches_body_length() {
    let body = b"<html><body><h1>Hello, world!</h1></body></html>\n".to_vec();
    let r = build_response(&body);
    assert_eq!(r, expected_response(&body));
    // The bytes after the blank line are the body, byte for byte.
    let blank = r.windows(4).position(|w| w == b"\r\n\r\n").unwrap();
    assert_eq!(&r[blank + 4..], &body[..]);
    // The Content-Length field holds exactly the body's length.
    let head = std::str::from_utf8(&r[..blank]).unwrap();
    let n: usize = head.rsplit(' ').next().unwrap().parse().unwrap();
    assert_eq!(n, body.len());
}

#[test]
fn response_empty_body() {
    let body = Vec::new();
    let r = build_response(&body);
    assert_eq!(r, b"HTTP/1.1 200 OK\r\nContent-Length: 0\r\n\r\n".to_vec());
}
