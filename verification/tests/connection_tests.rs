use wait_any_httpd::connection::Connection;

fn expected_response(body: &[u8]) -> Vec<u8> {
    let mut v = format!("HTTP/1.1 200 OK\r\nContent-Length: {}\r\n\r\n", body.len()).into_bytes();
    v.extend_from_slice(body);
    v
}

#[test]
fn fresh_connection_waits_for_one_receive() {
    let c = Connection::new(5);
    assert_eq!(c.qd(), 5);
    assert!(c.recv_pending());
    assert_eq!(c.sends_pending(), 0);
    assert!(!c.closing());
    assert!(c.has_outstanding());
}

#[test]
fn process_data_sends_the_response() {
    let mut c = Connection::new(5);
    let body = b"hello".to_vec();
    let data = c.process_data(b"GET / \r\n\r\n".to_vec(), Some(body.clone())).unwrap();
    assert_eq!(data, expected_response(&body));
    assert!(c.recv_pending());
    assert_eq!(c.sends_pending(), 1);
    assert!(!c.closing());
}

#[test]
fn process_data_without_response_body_tears_down() {
    let mut c = Connection::new(5);
    let r = c.process_data(b"GET / \r\n\r\n".to_vec(), None);
    assert!(r.is_none());
    assert!(!c.recv_pending());
    assert_eq!(c.sends_pending(), 0);
    assert!(c.closing());
    assert!(!c.has_outstanding());
}
