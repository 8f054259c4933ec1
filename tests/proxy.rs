use cng_proxy::relay::{Relay, RelayAction, RelayEnd, RelayEvent, RelayPhase};
use cng_proxy::serve::{AcceptEvent, ServeAction, ServeLoop, ServePhase};
use cng_proxy::service::{ProxyService, DEFAULT_CHUNK_SIZE};

/// Feeds one read result to a relay and writes whatever it asks for in full,
/// appending to `sink`, until it asks for another read or finishes.
fn feed(relay: &mut Relay, chunk: &[u8], sink: &mut Vec<u8>) -> RelayAction {
    let mut action = relay.step(RelayEvent::Data(chunk.to_vec()));
    while let RelayAction::Write(bytes) = action {
        sink.extend_from_slice(&bytes);
        action = relay.step(RelayEvent::Written(bytes.len()));
    }
    action
}

/// Sends `payload` through a relay in reads of the relay's size.
fn send(relay: &mut Relay, payload: &[u8], sink: &mut Vec<u8>) {
    for chunk in payload.chunks(DEFAULT_CHUNK_SIZE) {
        match feed(relay, chunk, sink) {
            RelayAction::Read(_) => {}
            other => panic!("unexpected {:?}", other),
        }
    }
}

#[test]
fn http_request_and_response_cross_unmodified() {
    let service = ProxyService::new(DEFAULT_CHUNK_SIZE);
    let (mut up, mut down) = service.open(true).expect("backend reachable");
    let request = format!("GET / HTTP/1.0\r\nHost: {}\r\n\r\n", "localhost");
    let response: &[u8] = b"HTTP/1.0 200 ok\r\nConnection: close\r\nContent-length: 12\r\n\r\nHello world!";

    let mut at_backend = Vec::new();
    send(&mut up, request.as_bytes(), &mut at_backend);
    assert_eq!(at_backend, request.as_bytes());

    let mut at_client = Vec::new();
    send(&mut down, response, &mut at_client);
    match feed(&mut down, &[], &mut at_client) {
        RelayAction::Finish(end) => assert_eq!(end, RelayEnd::SourceClosed),
        other => panic!("unexpected {:?}", other),
    }
    assert_eq!(at_client, response);
}

#[test]
fn client_half_close_leaves_reverse_direction_open() {
    let service = ProxyService::new(DEFAULT_CHUNK_SIZE);
    let (mut up, mut down) = service.open(true).unwrap();
    let sent: Vec<u8> = (0..600u32).map(|i| (i % 251) as u8).collect();
    let mut at_backend = Vec::new();
    send(&mut up, &sent, &mut at_backend);
    match feed(&mut up, &[], &mut at_backend) {
        RelayAction::Finish(end) => assert_eq!(end, RelayEnd::SourceClosed),
        other => panic!("unexpected {:?}", other),
    }
    assert_eq!(at_backend, sent);

    assert_eq!(down.phase(), RelayPhase::Reading);
    let mut at_client = Vec::new();
    send(&mut down, b"still here", &mut at_client);
    assert_eq!(at_client, b"still here");
    assert_eq!(down.phase(), RelayPhase::Reading);
}

#[test]
fn concurrent_connections_do_not_cross_talk() {
    let service = ProxyService::new(DEFAULT_CHUNK_SIZE);
    let mut conns: Vec<(Relay, Relay)> = (0..50).map(|_| service.open(true).unwrap()).collect();
    let mut at_backend: Vec<Vec<u8>> = vec![Vec::new(); 50];
    let mut at_client: Vec<Vec<u8>> = vec![Vec::new(); 50];
    // interleave the connections chunk by chunk
    for round in 0..3usize {
        for (i, (up, down)) in conns.iter_mut().enumerate() {
            let msg = format!("conn {} round {};", i, round);
            send(up, msg.as_bytes(), &mut at_backend[i]);
            let reply = format!("reply {} round {};", i, round);
            send(down, reply.as_bytes(), &mut at_client[i]);
        }
    }
    for i in 0..50usize {
        let want: String = (0..3).map(|r| format!("conn {} round {};", i, r)).collect();
        assert_eq!(at_backend[i], want.as_bytes());
        let back: String = (0..3).map(|r| format!("reply {} round {};", i, r)).collect();
        assert_eq!(at_client[i], back.as_bytes());
    }
}

#[test]
fn unreachable_backend_relays_nothing() {
    let service = ProxyService::new(DEFAULT_CHUNK_SIZE);
    assert!(service.open(false).is_none());
}

#[test]
fn cancellation_stops_accepting() {
    let mut serve = ServeLoop::new();
    assert_eq!(serve.on_event(AcceptEvent::Ready), ServeAction::Dispatch);
    assert_eq!(serve.on_event(AcceptEvent::HandshakeFailed), ServeAction::Discard);
    assert_eq!(serve.on_event(AcceptEvent::AcceptFailed), ServeAction::Discard);
    assert_eq!(serve.on_event(AcceptEvent::Ready), ServeAction::Dispatch);
    assert_eq!(serve.phase(), ServePhase::Accepting);
    assert_eq!(serve.on_event(AcceptEvent::Cancelled), ServeAction::Return);
    assert_eq!(serve.phase(), ServePhase::Stopped);
    assert_eq!(serve.on_event(AcceptEvent::Ready), ServeAction::Return);
    assert_eq!(serve.on_event(AcceptEvent::HandshakeFailed), ServeAction::Return);
}

#[test]
fn exhausted_listener_ends_the_loop() {
    let mut serve = ServeLoop::new();
    assert_eq!(serve.on_event(AcceptEvent::Exhausted), ServeAction::Return);
    assert_eq!(serve.phase(), ServePhase::Stopped);
    assert_eq!(serve.on_event(AcceptEvent::Ready), ServeAction::Return);
}
