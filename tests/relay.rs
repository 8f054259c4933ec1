use cng_proxy::relay::{Relay, RelayAction, RelayEnd, RelayEvent, RelayPhase};

/// Drives a relay over `payload`, delivered in reads of at most the chunk
/// size, with a sink that accepts at most `write_limit` bytes per write.
/// Returns what the sink received and how the relay ended.
fn pump(chunk_size: usize, payload: &[u8], write_limit: usize) -> (Vec<u8>, RelayEnd) {
    let mut relay = Relay::new(chunk_size);
    let mut sink: Vec<u8> = Vec::new();
    let mut offset = 0usize;
    let mut action = relay.action();
    loop {
        action = match action {
            RelayAction::Read(n) => {
                let end = usize::min(offset + n, payload.len());
                let chunk = payload[offset..end].to_vec();
                offset = end;
                relay.step(RelayEvent::Data(chunk))
            }
            RelayAction::Write(bytes) => {
                let k = usize::min(bytes.len(), write_limit);
                sink.extend_from_slice(&bytes[..k]);
                relay.step(RelayEvent::Written(k))
            }
            RelayAction::Finish(end) => return (sink, end),
        };
    }
}

fn pattern(len: usize) -> Vec<u8> {
    (0..len).map(|i| (i * 7 + 3) as u8).collect()
}

#[test]
fn payloads_of_every_size_arrive_unmodified() {
    for len in [0usize, 1, 2, 255, 256, 257, 511, 512, 513, 1000, 4096] {
        let payload = pattern(len);
        let (got, end) = pump(256, &payload, usize::MAX);
        assert_eq!(end, RelayEnd::SourceClosed);
        assert_eq!(got, payload, "payload of {} bytes", len);
    }
}

#[test]
fn partial_writes_keep_order() {
    let payload = pattern(1000);
    let (got, end) = pump(256, &payload, 7);
    assert_eq!(end, RelayEnd::SourceClosed);
    assert_eq!(got, payload);
}

#[test]
fn empty_source_finishes_at_once() {
    let mut relay = Relay::new(256);
    match relay.action() {
        RelayAction::Read(n) => assert_eq!(n, 256),
        other => panic!("unexpected {:?}", other),
    }
    match relay.step(RelayEvent::Data(Vec::new())) {
        RelayAction::Finish(end) => assert_eq!(end, RelayEnd::SourceClosed),
        other => panic!("unexpected {:?}", other),
    }
    assert_eq!(relay.phase(), RelayPhase::Finished(RelayEnd::SourceClosed));
}

#[test]
fn chunk_is_written_before_next_read() {
    let mut relay = Relay::new(4);
    match relay.step(RelayEvent::Data(vec![1, 2, 3])) {
        RelayAction::Write(b) => assert_eq!(b, vec![1, 2, 3]),
        other => panic!("unexpected {:?}", other),
    }
    // a read result while a write is pending changes nothing
    match relay.step(RelayEvent::Data(vec![9])) {
        RelayAction::Write(b) => assert_eq!(b, vec![1, 2, 3]),
        other => panic!("unexpected {:?}", other),
    }
    match relay.step(RelayEvent::Written(2)) {
        RelayAction::Write(b) => assert_eq!(b, vec![3]),
        other => panic!("unexpected {:?}", other),
    }
    match relay.step(RelayEvent::Written(1)) {
        RelayAction::Read(n) => assert_eq!(n, 4),
        other => panic!("unexpected {:?}", other),
    }
}

#[test]
fn read_error_ends_the_direction() {
    let mut relay = Relay::new(16);
    match relay.step(RelayEvent::ReadError) {
        RelayAction::Finish(end) => assert_eq!(end, RelayEnd::ReadFailed),
        other => panic!("unexpected {:?}", other),
    }
    // nothing restarts a finished relay
    match relay.step(RelayEvent::Data(vec![1])) {
        RelayAction::Finish(end) => assert_eq!(end, RelayEnd::ReadFailed),
        other => panic!("unexpected {:?}", other),
    }
}

#[test]
fn write_error_ends_the_direction() {
    let mut relay = Relay::new(16);
    relay.step(RelayEvent::Data(vec![1, 2]));
    match relay.step(RelayEvent::WriteError) {
        RelayAction::Finish(end) => assert_eq!(end, RelayEnd::WriteFailed),
        other => panic!("unexpected {:?}", other),
    }
}

#[test]
fn zero_length_write_is_a_failure() {
    let mut relay = Relay::new(16);
    relay.step(RelayEvent::Data(vec![1, 2]));
    match relay.step(RelayEvent::Written(0)) {
        RelayAction::Finish(end) => assert_eq!(end, RelayEnd::WriteFailed),
        other => panic!("unexpected {:?}", other),
    }
}

#[test]
fn overlong_write_report_is_a_failure() {
    let mut relay = Relay::new(16);
    relay.step(RelayEvent::Data(vec![1, 2]));
    match relay.step(RelayEvent::Written(3)) {
        RelayAction::Finish(end) => assert_eq!(end, RelayEnd::WriteFailed),
        other => panic!("unexpected {:?}", other),
    }
}
