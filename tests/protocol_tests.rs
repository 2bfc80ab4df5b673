use kubos_core::protocol::{is_done, is_over, step, Action, Event, Resume, State};
use kubos_core::storage::missing_ranges;

const HASH: &str = "64550d6ffe2c0a01a14aba1eade0200c";

fn receiving() -> State {
    State::Receiving { hash: HASH.to_owned(), path: "/home/out.bin".to_owned(), mode: Some(0o644), idle: 0 }
}

#[test]
fn start_receive_stores_metadata() {
    let (s, acts) = step(
        State::StartReceive { path: "/home/out.bin".to_owned() },
        Event::ReceiveStart { hash: HASH.to_owned(), num_chunks: 3, mode: Some(0o644) },
        6,
    );
    assert!(matches!(&s, State::Receiving { hash, path, mode: Some(0o644), idle: 0 } if hash == HASH && path == "/home/out.bin"));
    assert_eq!(acts.len(), 1);
    assert!(matches!(&acts[0], Action::StoreMeta { hash, num_chunks: 3 } if hash == HASH));
}

#[test]
fn receiver_stores_chunks_of_its_file_only() {
    let (s, acts) = step(receiving(), Event::Chunk { hash: HASH.to_owned(), index: 1, data: vec![1, 2] }, 6);
    assert!(matches!(s, State::Receiving { .. }));
    assert!(matches!(&acts[..], [Action::StoreChunk { index: 1, data, .. }] if data == &vec![1, 2]));
    let (_, acts) = step(receiving(), Event::Chunk { hash: "other".to_owned(), index: 1, data: vec![] }, 6);
    assert!(acts.is_empty());
}

#[test]
fn resumed_upload_naks_the_missing_chunk() {
    // The sender stopped after chunks 0 and 1 of 3.
    let (s, acts) = step(receiving(), Event::Tick, 6);
    assert!(matches!(&acts[..], [Action::Validate { .. }]));
    let ranges = missing_ranges(&vec![0, 1], 3);
    let (s, acts) = step(s, Event::Missing { ranges }, 6);
    assert!(matches!(s, State::Receiving { .. }));
    let nak = match &acts[..] {
        [Action::SendNak { hash, ranges }] if hash == HASH => ranges.clone(),
        _ => panic!("expected one NAK"),
    };
    assert_eq!(nak, vec![(2, 3)]);
    // The restarted sender answers the NAK with exactly one chunk request.
    let (t, acts) = step(State::Transmitting { hash: HASH.to_owned(), idle: 0 }, Event::Nak { hash: HASH.to_owned(), ranges: nak }, 6);
    assert!(matches!(t, State::Transmitting { .. }));
    assert!(matches!(&acts[..], [Action::SendChunks { lo: 2, hi: 3, .. }]));
    // Once the chunk is stored, nothing is missing and the file is finalized.
    let (s, acts) = step(s, Event::Missing { ranges: missing_ranges(&vec![0, 1, 2], 3) }, 6);
    assert!(is_done(&s));
    assert!(matches!(&acts[..], [Action::Finalize { mode: Some(0o644), .. }, Action::SendAck { .. }]));
}

#[test]
fn transmitter_finishes_on_ack() {
    let (s, acts) = step(State::Transmitting { hash: HASH.to_owned(), idle: 0 }, Event::Ack { hash: HASH.to_owned() }, 6);
    assert!(is_done(&s));
    assert!(matches!(&acts[..], [Action::Cleanup { hash }] if hash == HASH));
    let (s, acts) = step(State::Transmitting { hash: HASH.to_owned(), idle: 0 }, Event::Ack { hash: "x".to_owned() }, 6);
    assert!(!is_done(&s));
    assert!(acts.is_empty());
}

fn transmitting() -> State {
    State::Transmitting { hash: HASH.to_owned(), idle: 0 }
}

#[test]
fn transmitter_asks_for_ack_after_hold_count_idle_ticks() {
    let (s, acts) = step(transmitting(), Event::Tick, 3);
    assert!(acts.is_empty());
    assert!(matches!(s, State::Transmitting { idle: 1, .. }));
    let (s, acts) = step(s, Event::Tick, 3);
    assert!(acts.is_empty());
    assert!(matches!(s, State::Transmitting { idle: 2, .. }));
    let (s, acts) = step(s, Event::Tick, 3);
    assert!(matches!(&acts[..], [Action::RequestAck { hash }] if hash == HASH));
    assert!(matches!(s, State::Transmitting { idle: 3, .. }));
    let (s, _) = step(s, Event::Tick, 3);
    let (s, acts) = step(s, Event::Nak { hash: HASH.to_owned(), ranges: vec![(0, 1)] }, 3);
    assert!(matches!(s, State::Transmitting { idle: 0, .. }));
    assert_eq!(acts.len(), 1);
    let (_, acts) = step(transmitting(), Event::Tick, 1);
    assert!(matches!(&acts[..], [Action::RequestAck { .. }]));
}

#[test]
fn silent_receiver_gives_up() {
    let mut s = receiving();
    let mut validations = 0;
    for _ in 0..3 {
        let (next, acts) = step(s, Event::Tick, 3);
        assert!(matches!(&acts[..], [Action::Validate { .. }]));
        validations += 1;
        s = next;
    }
    assert_eq!(validations, 3);
    let (s, acts) = step(s, Event::Tick, 3);
    assert!(acts.is_empty());
    assert!(matches!(s, State::TimedOut));
    assert!(is_over(&s));
    assert!(!is_done(&s));
}

#[test]
fn chunks_keep_a_receiver_alive() {
    let (s, _) = step(receiving(), Event::Tick, 2);
    let (s, _) = step(s, Event::Tick, 2);
    let (s, _) = step(s, Event::Chunk { hash: HASH.to_owned(), index: 0, data: vec![1] }, 2);
    assert!(matches!(s, State::Receiving { idle: 0, .. }));
    let (s, acts) = step(s, Event::Tick, 2);
    assert!(matches!(&acts[..], [Action::Validate { .. }]));
    assert!(!is_over(&s));
}

#[test]
fn silent_peer_ends_a_transmission() {
    let mut s = transmitting();
    let mut requests = 0;
    let mut ticks = 0;
    while !is_over(&s) {
        let (next, acts) = step(s, Event::Tick, 3);
        requests += acts.iter().filter(|a| matches!(a, Action::RequestAck { .. })).count();
        ticks += 1;
        s = next;
    }
    assert!(matches!(s, State::TimedOut));
    assert_eq!(requests, 1);
    assert_eq!(ticks, 7);
}

#[test]
fn holding_counts_ticks_and_passes_messages_on() {
    let holding = || State::Holding {
        remaining: 2,
        resume: Resume::Transmitting { hash: HASH.to_owned() },
    };
    let (s, acts) = step(holding(), Event::Tick, 6);
    assert!(acts.is_empty());
    assert!(matches!(s, State::Holding { remaining: 1, .. }));
    let (s, _) = step(s, Event::Other, 6);
    assert!(matches!(s, State::Transmitting { idle: 0, .. }));
    let (s, _) = step(holding(), Event::Tick, 6);
    let (s, acts) = step(s, Event::Tick, 6);
    assert!(acts.is_empty());
    assert!(matches!(&s, State::Transmitting { hash, idle: 0 } if hash == HASH));
    let (s, acts) = step(holding(), Event::Ack { hash: HASH.to_owned() }, 6);
    assert!(is_done(&s));
    assert!(matches!(&acts[..], [Action::Cleanup { .. }]));
    let (s, acts) = step(holding(), Event::Nak { hash: HASH.to_owned(), ranges: vec![(1, 3), (5, 6)] }, 6);
    assert!(matches!(s, State::Transmitting { .. }));
    assert!(matches!(&acts[..], [Action::SendChunks { lo: 1, hi: 3, .. }, Action::SendChunks { lo: 5, hi: 6, .. }]));
}

#[test]
fn done_stays_done() {
    let (s, acts) = step(State::Done, Event::Tick, 6);
    assert!(is_done(&s));
    assert!(acts.is_empty());
}
