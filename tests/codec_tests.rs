use kubos_core::bridge::{
    dispatch, downlink_frame, reply_frame, Dispatch, DownlinkCredit, HandlerBudget, DOWNLINK_MAX,
};
use kubos_core::codec::{CommsError, Frame, PayloadType, MAX_PAYLOAD};

const PING_FRAME: [u8; 18] = [
    0x08, 0x01, 0xC0, 0x00, 0x00, 0x0B, 0, 0, 0, 1, 0x1F, 0x40, b'p', b'i', b'n', b'g', 2, 226,
];

#[test]
fn build_gives_the_exact_layout() {
    let f = Frame::build(1, PayloadType::Request, 8000, b"ping").unwrap();
    assert_eq!(f.to_bytes(), PING_FRAME.to_vec());
    assert!(f.validate());
}

#[test]
fn frame_round_trip() {
    let cases: Vec<(u32, PayloadType, u16, Vec<u8>)> = vec![
        (0, PayloadType::Udp, 0, vec![]),
        (u32::MAX, PayloadType::DownStream, u16::MAX, vec![0xff; 300]),
        (77, PayloadType::Unknown(2047), 13000, b"abc".to_vec()),
        (5, PayloadType::Request, 8000, vec![7; MAX_PAYLOAD]),
    ];
    for (cmd, class, dest, payload) in cases {
        let bytes = Frame::build(cmd, class, dest, &payload).unwrap().to_bytes();
        assert_eq!(bytes.len(), payload.len() + 14);
        let f = Frame::parse(&bytes).unwrap();
        assert_eq!(f.command_id(), cmd);
        assert_eq!(f.payload_type(), class);
        assert_eq!(f.destination(), dest);
        assert_eq!(f.payload(), &payload[..]);
        assert!(f.validate());
        assert_eq!(f.to_bytes(), bytes);
    }
}

#[test]
fn build_rejects_what_the_header_cannot_carry() {
    assert!(matches!(
        Frame::build(1, PayloadType::Unknown(1), 0, b""),
        Err(CommsError::UnknownPayload(1))
    ));
    assert!(matches!(
        Frame::build(1, PayloadType::Unknown(2048), 0, b""),
        Err(CommsError::UnknownPayload(2048))
    ));
    assert!(matches!(
        Frame::build(1, PayloadType::Udp, 0, &vec![0; MAX_PAYLOAD + 1]),
        Err(CommsError::HeaderParsing)
    ));
}

#[test]
fn parse_rejects_broken_headers() {
    assert!(matches!(Frame::parse(&PING_FRAME[..13]), Err(CommsError::HeaderParsing)));
    let mut wrong_len = PING_FRAME.to_vec();
    wrong_len.push(0);
    assert!(matches!(Frame::parse(&wrong_len), Err(CommsError::HeaderParsing)));
    let mut wrong_version = PING_FRAME.to_vec();
    wrong_version[0] = 0x28;
    assert!(matches!(Frame::parse(&wrong_version), Err(CommsError::HeaderParsing)));
    let mut wrong_seq = PING_FRAME.to_vec();
    wrong_seq[2] = 0x40;
    assert!(matches!(Frame::parse(&wrong_seq), Err(CommsError::HeaderParsing)));
}

#[test]
fn tampered_payload_fails_validation() {
    let mut bytes = PING_FRAME.to_vec();
    bytes[13] = b'o';
    let f = Frame::parse(&bytes).unwrap();
    assert!(!f.validate());
}

#[test]
fn dispatch_by_class() {
    let mut budget = HandlerBudget::new(4);
    let udp = Frame::build(3, PayloadType::Udp, 9000, b"x").unwrap().to_bytes();
    match dispatch(&udp, &mut budget) {
        Dispatch::Udp(f) => assert_eq!((f.destination(), f.payload()), (9000, &b"x"[..])),
        _ => panic!("udp"),
    }
    let unknown = Frame::build(3, PayloadType::Unknown(99), 9000, b"x").unwrap().to_bytes();
    assert!(matches!(dispatch(&unknown, &mut budget), Dispatch::Unknown(99)));
    assert!(matches!(dispatch(&[1, 2, 3], &mut budget), Dispatch::Invalid(CommsError::HeaderParsing)));
    let mut bad = PING_FRAME.to_vec();
    bad[17] ^= 1;
    assert!(matches!(dispatch(&bad, &mut budget), Dispatch::Invalid(CommsError::InvalidChecksum)));
    assert_eq!(budget.active_handlers(), 0);
}

#[test]
fn handler_budget_is_never_exceeded() {
    let mut budget = HandlerBudget::new(2);
    let stream = Frame::build(9, PayloadType::DownStream, 7000, b"go").unwrap().to_bytes();
    assert!(matches!(dispatch(&PING_FRAME, &mut budget), Dispatch::Request(_)));
    assert!(matches!(dispatch(&stream, &mut budget), Dispatch::DownStream(_)));
    assert_eq!(budget.active_handlers(), 2);
    assert!(matches!(dispatch(&PING_FRAME, &mut budget), Dispatch::NoAvailablePorts));
    assert!(matches!(dispatch(&stream, &mut budget), Dispatch::NoAvailablePorts));
    assert_eq!(budget.active_handlers(), 2);
    budget.release();
    assert!(matches!(dispatch(&PING_FRAME, &mut budget), Dispatch::Request(_)));
    budget.release();
    budget.release();
    budget.release();
    assert_eq!(budget.active_handlers(), 0);
}

#[test]
fn request_round_trip_wraps_the_reply() {
    let mut budget = HandlerBudget::new(1);
    let request = match dispatch(&PING_FRAME, &mut budget) {
        Dispatch::Request(f) => f,
        _ => panic!("request"),
    };
    assert_eq!((request.destination(), request.payload()), (8000, &b"ping"[..]));
    let reply = reply_frame(&request, b"pong").unwrap();
    assert_eq!(
        reply,
        vec![0x08, 0x01, 0xC0, 0x00, 0x00, 0x0B, 0, 0, 0, 1, 0, 0, b'p', b'o', b'n', b'g', 2, 137]
    );
    let back = Frame::parse(&reply).unwrap();
    assert_eq!(back.command_id(), 1);
    assert_eq!(back.payload_type(), PayloadType::Request);
    assert_eq!(back.payload(), b"pong");
}

#[test]
fn downlink_frames_carry_the_port() {
    let bytes = downlink_frame(13011, b"telemetry").unwrap();
    let f = Frame::parse(&bytes).unwrap();
    assert_eq!(f.command_id(), 0);
    assert_eq!(f.payload_type(), PayloadType::Udp);
    assert_eq!(f.destination(), 13011);
    assert!(f.validate());
    assert!(downlink_frame(1, &vec![0; MAX_PAYLOAD + 1]).is_err());
}

#[test]
fn backpressure_hint_counts_down() {
    for k in 1..40u32 {
        let mut credit = DownlinkCredit::new(DOWNLINK_MAX);
        for _ in 0..k {
            credit.on_received();
        }
        let expected = DOWNLINK_MAX as u32 - k.min(DOWNLINK_MAX as u32);
        assert_eq!(credit.on_forwarded(), expected as u8);
    }
    let mut idle = DownlinkCredit::new(DOWNLINK_MAX);
    assert_eq!(idle.on_forwarded(), DOWNLINK_MAX);
    idle.on_received();
    assert_eq!(idle.on_forwarded(), DOWNLINK_MAX - 1);
}

#[test]
fn downlink_of_a_hundred_datagrams() {
    let mut credit = DownlinkCredit::new(DOWNLINK_MAX);
    let mut queued = 0u32;
    let mut sent = 0u32;
    let mut hints = vec![];
    while sent < 100 {
        if queued < 100 && !credit.must_wait(false) {
            credit.on_received();
            queued += 1;
            assert!(queued - sent <= DOWNLINK_MAX as u32);
        } else {
            hints.push(credit.on_forwarded());
            sent += 1;
        }
    }
    assert_eq!(hints.len(), 100);
    assert!(hints.iter().all(|h| *h <= DOWNLINK_MAX));
    assert_eq!(credit.on_forwarded(), DOWNLINK_MAX);
}
