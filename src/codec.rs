//! Radio frames in the Space Packet layout.
//!
//! A frame is laid out as
//!
//! | bytes | content |
//! |---|---|
//! | 0..2 | version 0, type 0, secondary header flag 1, 11-bit class code |
//! | 2..4 | sequence flags `11` (unsegmented), sequence count 0 |
//! | 4..6 | data length: bytes after the primary header, minus one |
//! | 6..10 | command id, big endian |
//! | 10..12 | destination port, big endian |
//! | 12..n-2 | payload |
//! | n-2..n | checksum: sum of all preceding bytes modulo 2^16, big endian |
use vstd::arithmetic::div_mod::lemma_add_mod_noop;
use vstd::prelude::*;

verus! {

/// Bytes before the payload.
pub const HEADER_LEN: usize = 12;

/// Bytes of a frame that are not payload.
pub const FRAME_OVERHEAD: usize = 14;

/// Largest payload: the 16-bit data length counts the secondary header, the
/// payload and the checksum, minus one.
pub const MAX_PAYLOAD: usize = 65528;

/// What a frame carries, which decides how the bridge handles it.
#[derive(Clone, Copy, Debug, PartialEq, Eq, Structural)]
pub enum PayloadType {
    Unknown(u16),
    Udp,
    Request,
    DownStream,
}

/// Errors of the frame codec and of the bridge's admission.
#[derive(Clone, Copy, Debug, PartialEq, Eq, Structural)]
pub enum CommsError {
    HeaderParsing,
    InvalidChecksum,
    UnknownPayload(u16),
    NoAvailablePorts,
    /// The bridge was configured without a write function.
    NoWriteFunction,
    /// Downlink ports and write functions are not paired one to one.
    WritePortMismatch,
}

pub open spec fn class_code(c: PayloadType) -> int {
    match c {
        PayloadType::Udp => 0,
        PayloadType::Request => 1,
        PayloadType::DownStream => 2,
        PayloadType::Unknown(v) => v as int,
    }
}

pub open spec fn class_of_code(v: u16) -> PayloadType {
    if v == 0 {
        PayloadType::Udp
    } else if v == 1 {
        PayloadType::Request
    } else if v == 2 {
        PayloadType::DownStream
    } else {
        PayloadType::Unknown(v)
    }
}

/// A class that the 11-bit field can carry and that reads back as itself.
pub open spec fn valid_class(c: PayloadType) -> bool {
    match c {
        PayloadType::Unknown(v) => 3 <= v < 2048,
        _ => true,
    }
}

pub open spec fn be16(v: u16) -> Seq<u8> {
    seq![(v / 256) as u8, (v % 256) as u8]
}

pub open spec fn be32(v: u32) -> Seq<u8> {
    seq![(v / 0x1000000) as u8, ((v / 0x10000) % 256) as u8, ((v / 256) % 256) as u8, (v % 256) as u8]
}

pub open spec fn read16(b: Seq<u8>, i: int) -> u16 {
    (b[i] as int * 256 + b[i + 1] as int) as u16
}

pub open spec fn read32(b: Seq<u8>, i: int) -> u32 {
    (b[i] as int * 0x1000000 + b[i + 1] as int * 0x10000 + b[i + 2] as int * 256
        + b[i + 3] as int) as u32
}

pub open spec fn byte_sum(s: Seq<u8>) -> nat
    decreases s.len(),
{
    if s.len() == 0 {
        0
    } else {
        byte_sum(s.drop_last()) + s.last() as nat
    }
}

pub open spec fn checksum_of(s: Seq<u8>) -> u16 {
    (byte_sum(s) % 65536) as u16
}

/// The fields of a frame.
pub struct FrameModel {
    pub command_id: u32,
    pub class: PayloadType,
    pub destination: u16,
    pub payload: Seq<u8>,
    pub checksum: u16,
}

pub open spec fn valid_fields(class: PayloadType, payload_len: int) -> bool {
    valid_class(class) && payload_len <= MAX_PAYLOAD
}

pub open spec fn header(command_id: u32, class: PayloadType, destination: u16, len: nat) -> Seq<u8> {
    let code = class_code(class);
    seq![(8 + code / 256) as u8, (code % 256) as u8, 0xC0u8, 0u8] + be16((len + 7) as u16)
        + be32(command_id) + be16(destination)
}

/// Everything the checksum covers.
pub open spec fn body(m: FrameModel) -> Seq<u8> {
    header(m.command_id, m.class, m.destination, m.payload.len()) + m.payload
}

pub open spec fn frame_bytes(m: FrameModel) -> Seq<u8> {
    body(m) + be16(m.checksum)
}

/// The frame that `build` makes of its arguments.
pub open spec fn built(command_id: u32, class: PayloadType, destination: u16, payload: Seq<u8>) -> FrameModel {
    let m = FrameModel { command_id, class, destination, payload, checksum: 0 };
    FrameModel { checksum: checksum_of(body(m)), ..m }
}

/// Bytes whose header has the fixed layout and whose length field matches.
pub open spec fn is_frame_encoding(b: Seq<u8>) -> bool {
    &&& b.len() >= FRAME_OVERHEAD
    &&& b[0] / 8 == 1
    &&& b[2] == 0xC0
    &&& b[3] == 0
    &&& read16(b, 4) as int + 7 == b.len()
}

/// The fields that a frame encoding holds.
pub open spec fn decode(b: Seq<u8>) -> FrameModel {
    FrameModel {
        command_id: read32(b, 6),
        class: class_of_code(((b[0] % 8) as int * 256 + b[1] as int) as u16),
        destination: read16(b, 10),
        payload: b.subrange(HEADER_LEN as int, b.len() - 2),
        checksum: read16(b, b.len() - 2),
    }
}

/// A parsed or built radio frame.
pub struct Frame {
    command_id: u32,
    class: PayloadType,
    destination: u16,
    payload: Vec<u8>,
    checksum: u16,
}

impl View for Frame {
    type V = FrameModel;

    closed spec fn view(&self) -> FrameModel {
        FrameModel {
            command_id: self.command_id,
            class: self.class,
            destination: self.destination,
            payload: self.payload@,
            checksum: self.checksum,
        }
    }
}

proof fn lemma_be16(v: u16)
    ensures
        read16(be16(v), 0) == v,
{
    assert(read16(be16(v), 0) == v) by (nonlinear_arith);
}

proof fn lemma_be32(v: u32)
    ensures
        read32(be32(v), 0) == v,
{
    assert(read32(be32(v), 0) == v) by (nonlinear_arith);
}

proof fn lemma_byte_sum_push(s: Seq<u8>, x: u8)
    ensures
        byte_sum(s.push(x)) == byte_sum(s) + x,
{
    assert(s.push(x).drop_last() =~= s);
}

/// Reading the fields back out of the bytes of a frame gives the frame.
proof fn lemma_decode_frame_bytes(m: FrameModel)
    requires
        valid_fields(m.class, m.payload.len() as int),
    ensures
        is_frame_encoding(frame_bytes(m)),
        decode(frame_bytes(m)) == m,
{
    let b = frame_bytes(m);
    let n = m.payload.len();
    let code = class_code(m.class);
    assert(0 <= code < 2048);
    assert(b.len() == n + 14);
    lemma_be16((n + 7) as u16);
    lemma_be32(m.command_id);
    lemma_be16(m.destination);
    lemma_be16(m.checksum);
    assert(read16(b, 4) == read16(be16((n + 7) as u16), 0));
    assert(read32(b, 6) == read32(be32(m.command_id), 0));
    assert(read16(b, 10) == read16(be16(m.destination), 0));
    assert(read16(b, b.len() - 2) == read16(be16(m.checksum), 0));
    assert(b[0] == (8 + code / 256) as u8);
    assert(b[1] == (code % 256) as u8);
    assert(((b[0] % 8) as int * 256 + b[1] as int) == code);
    assert(class_of_code(code as u16) == m.class);
    assert(b.subrange(12, b.len() - 2) =~= m.payload);
}

/// A frame built from valid fields encodes to bytes that parse back to the
/// same command id, class, destination and payload, with a checksum that
/// validates.
pub proof fn lemma_frame_round_trip(command_id: u32, class: PayloadType, destination: u16, payload: Seq<u8>)
    requires
        valid_fields(class, payload.len() as int),
    ensures
        is_frame_encoding(frame_bytes(built(command_id, class, destination, payload))),
        decode(frame_bytes(built(command_id, class, destination, payload))) == built(
            command_id,
            class,
            destination,
            payload,
        ),
        decode(frame_bytes(built(command_id, class, destination, payload))).command_id == command_id,
        decode(frame_bytes(built(command_id, class, destination, payload))).class == class,
        decode(frame_bytes(built(command_id, class, destination, payload))).destination == destination,
        decode(frame_bytes(built(command_id, class, destination, payload))).payload == payload,
        checksum_of(body(decode(frame_bytes(built(command_id, class, destination, payload)))))
            == decode(frame_bytes(built(command_id, class, destination, payload))).checksum,
{
    lemma_decode_frame_bytes(built(command_id, class, destination, payload));
}

fn push_u16(out: &mut Vec<u8>, v: u16)
    ensures
        final(out)@ == old(out)@ + be16(v),
{
    out.push((v / 256) as u8);
    out.push((v % 256) as u8);
    assert(final(out)@ =~= old(out)@ + be16(v));
}

fn push_u32(out: &mut Vec<u8>, v: u32)
    ensures
        final(out)@ == old(out)@ + be32(v),
{
    out.push((v / 0x1000000) as u8);
    out.push(((v / 0x10000) % 256) as u8);
    out.push(((v / 256) % 256) as u8);
    out.push((v % 256) as u8);
    assert(final(out)@ =~= old(out)@ + be32(v));
}

fn class_to_code(class: PayloadType) -> (r: u16)
    requires
        valid_class(class),
    ensures
        r as int == class_code(class),
{
    match class {
        PayloadType::Udp => 0,
        PayloadType::Request => 1,
        PayloadType::DownStream => 2,
        PayloadType::Unknown(v) => v,
    }
}

fn code_to_class(v: u16) -> (r: PayloadType)
    ensures
        r == class_of_code(v),
{
    if v == 0 {
        PayloadType::Udp
    } else if v == 1 {
        PayloadType::Request
    } else if v == 2 {
        PayloadType::DownStream
    } else {
        PayloadType::Unknown(v)
    }
}

/// The sum of the bytes modulo 2^16.
fn checksum(b: &[u8]) -> (r: u16)
    ensures
        r == checksum_of(b@),
{
    let mut acc: u32 = 0;
    let mut i: usize = 0;
    while i < b.len()
        invariant
            i <= b.len(),
            acc < 65536,
            acc as int == byte_sum(b@.subrange(0, i as int)) % 65536,
        decreases b.len() - i,
    {
        proof {
            assert(b@.subrange(0, i + 1) =~= b@.subrange(0, i as int).push(b@[i as int]));
            lemma_byte_sum_push(b@.subrange(0, i as int), b@[i as int]);
            lemma_add_mod_noop(byte_sum(b@.subrange(0, i as int)) as int, b@[i as int] as int, 65536);
            assert((b@[i as int] as int) % 65536 == b@[i as int] as int);
            assert((acc as int) % 65536 == acc as int);
        }
        acc = (acc + b[i] as u32) % 65536;
        i = i + 1;
    }
    assert(b@.subrange(0, i as int) =~= b@);
    acc as u16
}

fn encode_body(command_id: u32, class: PayloadType, destination: u16, payload: &[u8]) -> (r: Vec<u8>)
    requires
        valid_fields(class, payload@.len() as int),
    ensures
        r@ == header(command_id, class, destination, payload@.len()) + payload@,
{
    let code = class_to_code(class);
    let mut out: Vec<u8> = Vec::new();
    out.push(8 + (code / 256) as u8);
    out.push((code % 256) as u8);
    out.push(0xC0);
    out.push(0);
    push_u16(&mut out, (payload.len() + 7) as u16);
    push_u32(&mut out, command_id);
    push_u16(&mut out, destination);
    assert(out@ =~= header(command_id, class, destination, payload@.len()));
    let ghost head = out@;
    let mut i: usize = 0;
    while i < payload.len()
        invariant
            i <= payload.len(),
            out@ == head + payload@.subrange(0, i as int),
        decreases payload.len() - i,
    {
        out.push(payload[i]);
        i = i + 1;
        assert(out@ =~= head + payload@.subrange(0, i as int));
    }
    assert(payload@.subrange(0, i as int) =~= payload@);
    out
}

impl Frame {
    #[verifier::type_invariant]
    spec fn inv(&self) -> bool {
        valid_fields(self.class, self.payload@.len() as int)
    }

    /// Builds a frame around `payload`, with its checksum.
    pub fn build(command_id: u32, class: PayloadType, destination: u16, payload: &[u8]) -> (r: Result<Frame, CommsError>)
        ensures
            valid_fields(class, payload@.len() as int) ==> r is Ok && r->Ok_0@ == built(
                command_id,
                class,
                destination,
                payload@,
            ),
            !valid_class(class) ==> r == Err::<Frame, CommsError>(CommsError::UnknownPayload(class_code(class) as u16)),
            valid_class(class) && payload@.len() > MAX_PAYLOAD ==> r == Err::<Frame, CommsError>(CommsError::HeaderParsing),
    {
        let code: u16 = match class {
            PayloadType::Unknown(v) => v,
            _ => 0,
        };
        match class {
            PayloadType::Unknown(v) => {
                if v < 3 || v >= 2048 {
                    return Err(CommsError::UnknownPayload(code));
                }
            },
            _ => {},
        }
        if payload.len() > MAX_PAYLOAD {
            return Err(CommsError::HeaderParsing);
        }
        let body = encode_body(command_id, class, destination, payload);
        let sum = checksum(body.as_slice());
        let mut copy: Vec<u8> = Vec::new();
        let mut i: usize = 0;
        while i < payload.len()
            invariant
                i <= payload.len(),
                copy@ == payload@.subrange(0, i as int),
            decreases payload.len() - i,
        {
            copy.push(payload[i]);
            i = i + 1;
            assert(copy@ =~= payload@.subrange(0, i as int));
        }
        assert(payload@.subrange(0, i as int) =~= payload@);
        let f = Frame { command_id, class, destination, payload: copy, checksum: sum };
        assert(f@ =~= built(command_id, class, destination, payload@));
        Ok(f)
    }

    /// Reads a frame out of `bytes`; the checksum is checked by `validate`.
    pub fn parse(bytes: &[u8]) -> (r: Result<Frame, CommsError>)
        ensures
            is_frame_encoding(bytes@) ==> r is Ok && r->Ok_0@ == decode(bytes@),
            !is_frame_encoding(bytes@) ==> r == Err::<Frame, CommsError>(CommsError::HeaderParsing),
    {
        let n = bytes.len();
        if n < FRAME_OVERHEAD || bytes[0] / 8 != 1 || bytes[2] != 0xC0 || bytes[3] != 0 {
            return Err(CommsError::HeaderParsing);
        }
        let declared = bytes[4] as usize * 256 + bytes[5] as usize;
        if declared + 7 != n {
            return Err(CommsError::HeaderParsing);
        }
        let code = (bytes[0] % 8) as u16 * 256 + bytes[1] as u16;
        let command_id = bytes[6] as u32 * 0x1000000 + bytes[7] as u32 * 0x10000 + bytes[8] as u32 * 256
            + bytes[9] as u32;
        let destination = bytes[10] as u16 * 256 + bytes[11] as u16;
        let sum = bytes[n - 2] as u16 * 256 + bytes[n - 1] as u16;
        let mut payload: Vec<u8> = Vec::new();
        let mut i: usize = HEADER_LEN;
        while i < n - 2
            invariant
                n == bytes@.len(),
                n >= FRAME_OVERHEAD,
                HEADER_LEN <= i <= n - 2,
                payload@ == bytes@.subrange(HEADER_LEN as int, i as int),
            decreases n - 2 - i,
        {
            payload.push(bytes[i]);
            i = i + 1;
            assert(payload@ =~= bytes@.subrange(HEADER_LEN as int, i as int));
        }
        let f = Frame { command_id, class: code_to_class(code), destination, payload, checksum: sum };
        assert(f@ =~= decode(bytes@));
        Ok(f)
    }

    /// The encoded frame.
    pub fn to_bytes(&self) -> (r: Vec<u8>)
        ensures
            r@ == frame_bytes(self@),
    {
        proof {
            use_type_invariant(self);
        }
        let mut out = encode_body(self.command_id, self.class, self.destination, self.payload.as_slice());
        push_u16(&mut out, self.checksum);
        out
    }

    /// Whether the carried checksum is the one the other fields give.
    pub fn validate(&self) -> (r: bool)
        ensures
            r == (self@.checksum == checksum_of(body(self@))),
    {
        proof {
            use_type_invariant(self);
        }
        let b = encode_body(self.command_id, self.class, self.destination, self.payload.as_slice());
        checksum(b.as_slice()) == self.checksum
    }

    pub fn command_id(&self) -> (r: u32)
        ensures
            r == self@.command_id,
    {
        self.command_id
    }

    pub fn payload_type(&self) -> (r: PayloadType)
        ensures
            r == self@.class,
    {
        self.class
    }

    pub fn destination(&self) -> (r: u16)
        ensures
            r == self@.destination,
    {
        self.destination
    }

    pub fn payload(&self) -> (r: &[u8])
        ensures
            r@ == self@.payload,
    {
        self.payload.as_slice()
    }
}

} // verus!
