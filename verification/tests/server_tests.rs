use wait_any_httpd::server::Action;
use wait_any_httpd::server::Event;
use wait_any_httpd::server::Fault;
use wait_any_httpd::server::Server;

fn expected_response(body: &[u8]) -> Vec<u8> {
    let mut v = format!("HTTP/1.1 200 OK\r\nContent-Length: {}\r\n\r\n", body.len()).into_bytes();
    v.extend_from_slice(body);
    v
}

fn request() -> Vec<u8> {
    b"GET / \r\n\r\n".to_vec()
}

fn resource() -> Vec<u8> {
    b"<html><body><h1>Hello, world!</h1></body></html>\n".to_vec()
}

#[test]
fn startup_submits_one_accept() {
    let (server, actions) = Server::new();
    assert_eq!(actions, vec![Action::SubmitAccept]);
    assert_eq!(server.accepts_outstanding(), 1);
    assert_eq!(server.connection_count(), 0);
}

#[test]
fn accept_registers_and_rearms() {
    let (mut server, _) = Server::new();
    let actions = server.handle_event(Event::Accepted { qd: 1 }).unwrap();
    assert_eq!(
        actions,
        vec![Action::SubmitReceive { qd: 1 }, Action::SubmitAccept]
    );
    assert!(server.is_registered(1));
    assert_eq!(server.accepts_outstanding(), 1);
}

#[test]
fn one_request_one_response() {
    let (mut server, _) = Server::new();
    server.handle_event(Event::Accepted { qd: 1 }).unwrap();
    let actions = server
        .handle_event(Event::Received {
            qd: 1,
            payload: request(),
            response_body: Some(resource()),
        })
        .unwrap();
    assert_eq!(
        actions,
        vec![
            Action::SubmitSend { qd: 1, data: expected_response(&resource()) },
            Action::SubmitReceive { qd: 1 },
        ]
    );
    // A second client is accepted while the first is still being served.
    let actions = server.handle_event(Event::Accepted { qd: 2 }).unwrap();
    assert_eq!(
        actions,
        vec![Action::SubmitReceive { qd: 2 }, Action::SubmitAccept]
    );
    assert!(server.is_registered(1));
    assert!(server.is_registered(2));
    assert_eq!(server.accepts_outstanding(), 1);
}

#[test]
fn identical_requests_identical_responses() {
    let (mut server, _) = Server::new();
    server.handle_event(Event::Accepted { qd: 1 }).unwrap();
    server.handle_event(Event::Accepted { qd: 2 }).unwrap();
    let a1 = server
        .handle_event(Event::Received {
            qd: 1,
            payload: request(),
            response_body: Some(resource()),
        })
        .unwrap();
    let a2 = server
        .handle_event(Event::Received {
            qd: 2,
            payload: request(),
            response_body: Some(resource()),
        })
        .unwrap();
    let d1 = match &a1[0] {
        Action::SubmitSend { qd: 1, data } => data.clone(),
        other => panic!("expected a send on connection 1, got {:?}", other),
    };
    let d2 = match &a2[0] {
        Action::SubmitSend { qd: 2, data } => data.clone(),
        other => panic!("expected a send on connection 2, got {:?}", other),
    };
    assert_eq!(d1, d2);
}

#[test]
fn zero_length_payload_still_answered() {
    let (mut server, _) = Server::new();
    server.handle_event(Event::Accepted { qd: 1 }).unwrap();
    let actions = server
        .handle_event(Event::Received {
            qd: 1,
            payload: Vec::new(),
            response_body: Some(resource()),
        })
        .unwrap();
    assert_eq!(
        actions,
        vec![
            Action::SubmitSend { qd: 1, data: expected_response(&resource()) },
            Action::SubmitReceive { qd: 1 },
        ]
    );
    assert!(server.is_registered(1));
}

#[test]
fn missing_resource_closes_only_that_connection() {
    let (mut server, _) = Server::new();
    server.handle_event(Event::Accepted { qd: 1 }).unwrap();
    server.handle_event(Event::Accepted { qd: 2 }).unwrap();
    let actions = server
        .handle_event(Event::Received { qd: 1, payload: request(), response_body: None })
        .unwrap();
    assert_eq!(actions, vec![Action::Close { qd: 1 }]);
    assert!(!server.is_registered(1));
    assert!(server.is_registered(2));
    // The server keeps serving: it still listens and accepts a third client.
    let actions = server.handle_event(Event::Accepted { qd: 3 }).unwrap();
    assert_eq!(
        actions,
        vec![Action::SubmitReceive { qd: 3 }, Action::SubmitAccept]
    );
    assert_eq!(server.accepts_outstanding(), 1);
}

#[test]
fn torn_down_connection_drains_before_removal() {
    let (mut server, _) = Server::new();
    server.handle_event(Event::Accepted { qd: 1 }).unwrap();
    // One send goes out and stays in flight.
    server
        .handle_event(Event::Received {
            qd: 1,
            payload: request(),
            response_body: Some(resource()),
        })
        .unwrap();
    // The next request finds no resource: the connection is torn down, but a
    // send is still outstanding, so it must stay registered for now.
    let actions = server
        .handle_event(Event::Received { qd: 1, payload: request(), response_body: None })
        .unwrap();
    assert_eq!(actions, vec![]);
    assert!(server.is_registered(1));
    // The first send's completion arrives: only now is the connection closed.
    let actions = server.handle_event(Event::Sent { qd: 1 }).unwrap();
    assert_eq!(actions, vec![Action::Close { qd: 1 }]);
    assert!(!server.is_registered(1));
}

#[test]
fn send_completion_releases_buffer_and_keeps_connection() {
    let (mut server, _) = Server::new();
    server.handle_event(Event::Accepted { qd: 1 }).unwrap();
    server
        .handle_event(Event::Received {
            qd: 1,
            payload: request(),
            response_body: Some(resource()),
        })
        .unwrap();
    let actions = server.handle_event(Event::Sent { qd: 1 }).unwrap();
    assert_eq!(actions, vec![]);
    assert!(server.is_registered(1));
}

#[test]
fn receive_failure_tears_down_the_connection() {
    let (mut server, _) = Server::new();
    server.handle_event(Event::Accepted { qd: 1 }).unwrap();
    let actions = server.handle_event(Event::ReceiveFailed { qd: 1 }).unwrap();
    assert_eq!(actions, vec![Action::Close { qd: 1 }]);
    assert!(!server.is_registered(1));
}

#[test]
fn send_failure_waits_for_the_outstanding_receive() {
    let (mut server, _) = Server::new();
    server.handle_event(Event::Accepted { qd: 1 }).unwrap();
    server
        .handle_event(Event::Received {
            qd: 1,
            payload: request(),
            response_body: Some(resource()),
        })
        .unwrap();
    // The send fails: tear down, but the re-armed receive is still
    // outstanding, so the connection stays registered until it completes.
    let actions = server.handle_event(Event::SendFailed { qd: 1 }).unwrap();
    assert_eq!(actions, vec![]);
    assert!(server.is_registered(1));
    let actions = server
        .handle_event(Event::Received { qd: 1, payload: Vec::new(), response_body: Some(resource()) })
        .unwrap();
    assert_eq!(actions, vec![Action::Close { qd: 1 }]);
    assert!(!server.is_registered(1));
}

#[test]
fn accept_failure_rearms_the_accept() {
    let (mut server, _) = Server::new();
    let actions = server.handle_event(Event::AcceptFailed).unwrap();
    assert_eq!(actions, vec![Action::SubmitAccept]);
    assert_eq!(server.accepts_outstanding(), 1);
}

#[test]
fn unknown_connection_is_a_fault() {
    let (mut server, _) = Server::new();
    let fault = server
        .handle_event(Event::Received { qd: 99, payload: request(), response_body: Some(resource()) })
        .unwrap_err();
    assert_eq!(fault, Fault::UnknownConnection { qd: 99 });
}

#[test]
fn duplicate_identifier_is_a_fault() {
    let (mut server, _) = Server::new();
    server.handle_event(Event::Accepted { qd: 1 }).unwrap();
    let fault = server.handle_event(Event::Accepted { qd: 1 }).unwrap_err();
    assert_eq!(fault, Fault::DuplicateConnection { qd: 1 });
}

#[test]
fn stray_send_completion_is_a_fault() {
    let (mut server, _) = Server::new();
    server.handle_event(Event::Accepted { qd: 1 }).unwrap();
    let fault = server.handle_event(Event::Sent { qd: 1 }).unwrap_err();
    assert_eq!(fault, Fault::StraySend { qd: 1 });
}

#[test]
fn stray_receive_completion_is_a_fault() {
    let (mut server, _) = Server::new();
    server.handle_event(Event::Accepted { qd: 1 }).unwrap();
    server
        .handle_event(Event::Received {
            qd: 1,
            payload: request(),
            response_body: Some(resource()),
        })
        .unwrap();
    // Tear down while a send is in flight: the receive was consumed and not
    // re-armed, so a further receive completion matches nothing.
    server
        .handle_event(Event::Received { qd: 1, payload: request(), response_body: None })
        .unwrap();
    let fault = server
        .handle_event(Event::Received { qd: 1, payload: request(), response_body: Some(resource()) })
        .unwrap_err();
    assert_eq!(fault, Fault::StrayReceive { qd: 1 });
}
