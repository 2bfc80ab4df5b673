//! Decisions of the communications bridge: what the read loop does with
//! each radio buffer, the budget of concurrent handlers, the frames that go
//! back to the gateway, and the credit hint that downlink producers get.
use crate::codec::{
    body, built, checksum_of, decode, frame_bytes, is_frame_encoding, CommsError,
    Frame, PayloadType, MAX_PAYLOAD,
};
use vstd::prelude::*;

verus! {

/// Most datagrams a downlink endpoint holds before it stops taking more.
pub const DOWNLINK_MAX: u8 = 32;

/// Handler budget when the configuration names none.
pub const DEFAULT_MAX_HANDLERS: u16 = 50;

/// Count of request and stream handlers running, bounded by a budget.
pub struct HandlerBudget {
    active: u16,
    max: u16,
}

impl HandlerBudget {
    pub closed spec fn active(&self) -> nat {
        self.active as nat
    }

    pub closed spec fn max(&self) -> nat {
        self.max as nat
    }

    /// No more handlers run than the budget allows.
    pub open spec fn wf(&self) -> bool {
        self.active() <= self.max()
    }

    /// No handler running, `max_num_handlers` allowed.
    pub fn new(max_num_handlers: u16) -> (r: HandlerBudget)
        ensures
            r.active() == 0,
            r.max() == max_num_handlers,
            r.wf(),
    {
        HandlerBudget { active: 0, max: max_num_handlers }
    }

    /// Takes a handler slot when one is free.
    pub fn try_acquire(&mut self) -> (r: bool)
        requires
            old(self).wf(),
        ensures
            r == (old(self).active() < old(self).max()),
            final(self).active() == if r { old(self).active() + 1 } else { old(self).active() },
            final(self).max() == old(self).max(),
            final(self).wf(),
    {
        if self.active < self.max {
            self.active = self.active + 1;
            true
        } else {
            false
        }
    }

    /// Gives back the slot of a handler that finished.
    pub fn release(&mut self)
        requires
            old(self).wf(),
        ensures
            final(self).active() == if old(self).active() > 0 { old(self).active() - 1 } else { 0 },
            final(self).max() == old(self).max(),
            final(self).wf(),
    {
        if self.active > 0 {
            self.active = self.active - 1;
        }
    }

    pub fn active_handlers(&self) -> (r: u16)
        ensures
            r == self.active(),
    {
        self.active
    }
}

/// What the read loop does with one buffer from the radio.
pub enum Dispatch {
    /// The buffer is no frame, or its checksum fails: count an uplink failure.
    Invalid(CommsError),
    /// Send the payload to the local UDP port; no reply is awaited.
    Udp(Frame),
    /// A handler slot was taken: send the payload and wrap the one reply.
    Request(Frame),
    /// A handler slot was taken: send the payload and wrap each reply.
    DownStream(Frame),
    /// All handler slots are taken: drop the frame.
    NoAvailablePorts,
    /// The class is unknown: drop the frame.
    Unknown(u16),
}

/// How the read loop handles `bytes`, given the frames that they hold.
pub open spec fn dispatch_kind(b: Seq<u8>, active: nat, max: nat) -> int {
    if !is_frame_encoding(b) {
        0
    } else if decode(b).checksum != checksum_of(body(decode(b))) {
        1
    } else {
        match decode(b).class {
            PayloadType::Udp => 2,
            PayloadType::Request => if active < max { 3 } else { 5 },
            PayloadType::DownStream => if active < max { 4 } else { 5 },
            PayloadType::Unknown(_) => 6,
        }
    }
}

pub open spec fn kind_of(d: Dispatch) -> int {
    match d {
        Dispatch::Invalid(CommsError::HeaderParsing) => 0,
        Dispatch::Invalid(CommsError::InvalidChecksum) => 1,
        Dispatch::Invalid(_) => -1,
        Dispatch::Udp(_) => 2,
        Dispatch::Request(_) => 3,
        Dispatch::DownStream(_) => 4,
        Dispatch::NoAvailablePorts => 5,
        Dispatch::Unknown(_) => 6,
    }
}

/// Parses and checks one buffer from the radio and decides its path. A
/// request or stream takes a handler slot when one is free; the caller gives
/// it back with `release` when the handler ends.
pub fn dispatch(bytes: &[u8], budget: &mut HandlerBudget) -> (r: Dispatch)
    requires
        old(budget).wf(),
    ensures
        kind_of(r) == dispatch_kind(bytes@, old(budget).active(), old(budget).max()),
        final(budget).wf(),
        final(budget).max() == old(budget).max(),
        final(budget).active() == if r is Request || r is DownStream {
            old(budget).active() + 1
        } else {
            old(budget).active()
        },
        match r {
            Dispatch::Udp(f) => f@ == decode(bytes@),
            Dispatch::Request(f) => f@ == decode(bytes@),
            Dispatch::DownStream(f) => f@ == decode(bytes@),
            Dispatch::Unknown(v) => decode(bytes@).class == PayloadType::Unknown(v),
            _ => true,
        },
{
    let frame = match Frame::parse(bytes) {
        Ok(f) => f,
        Err(_) => {
            return Dispatch::Invalid(CommsError::HeaderParsing);
        },
    };
    if !frame.validate() {
        return Dispatch::Invalid(CommsError::InvalidChecksum);
    }
    match frame.payload_type() {
        PayloadType::Udp => Dispatch::Udp(frame),
        PayloadType::Request => {
            if budget.try_acquire() {
                Dispatch::Request(frame)
            } else {
                Dispatch::NoAvailablePorts
            }
        },
        PayloadType::DownStream => {
            if budget.try_acquire() {
                Dispatch::DownStream(frame)
            } else {
                Dispatch::NoAvailablePorts
            }
        },
        PayloadType::Unknown(v) => Dispatch::Unknown(v),
    }
}

/// The frame that carries a local service's reply to `request` back to the
/// gateway: same command id and class, destination 0.
pub fn reply_frame(request: &Frame, reply: &[u8]) -> (r: Result<Vec<u8>, CommsError>)
    requires
        request@.class == PayloadType::Request || request@.class == PayloadType::DownStream,
    ensures
        reply@.len() <= MAX_PAYLOAD ==> r is Ok && r->Ok_0@ == frame_bytes(
            built(request@.command_id, request@.class, 0, reply@),
        ),
        reply@.len() > MAX_PAYLOAD ==> r == Err::<Vec<u8>, CommsError>(CommsError::HeaderParsing),
{
    match Frame::build(request.command_id(), request.payload_type(), 0, reply) {
        Ok(f) => Ok(f.to_bytes()),
        Err(e) => Err(e),
    }
}

/// The frame that carries a datagram from a local producer on downlink port
/// `port` to the gateway: class `Udp`, command id 0, destination `port`.
pub fn downlink_frame(port: u16, payload: &[u8]) -> (r: Result<Vec<u8>, CommsError>)
    ensures
        payload@.len() <= MAX_PAYLOAD ==> r is Ok && r->Ok_0@ == frame_bytes(
            built(0, PayloadType::Udp, port, payload@),
        ),
        payload@.len() > MAX_PAYLOAD ==> r == Err::<Vec<u8>, CommsError>(CommsError::HeaderParsing),
{
    match Frame::build(0, PayloadType::Udp, port, payload) {
        Ok(f) => Ok(f.to_bytes()),
        Err(e) => Err(e),
    }
}

/// The hint byte for a producer when `outstanding` datagrams wait: how many
/// more it may send.
pub open spec fn hint_of(outstanding: nat, max: nat) -> nat {
    if outstanding < max {
        (max - outstanding) as nat
    } else {
        0
    }
}

/// Datagrams taken in by a downlink endpoint and not yet forwarded.
pub struct DownlinkCredit {
    outstanding: u32,
    max: u8,
}

impl DownlinkCredit {
    pub closed spec fn outstanding(&self) -> nat {
        self.outstanding as nat
    }

    pub closed spec fn max(&self) -> nat {
        self.max as nat
    }

    /// Nothing outstanding; producers may have `max` datagrams waiting.
    pub fn new(max: u8) -> (r: DownlinkCredit)
        ensures
            r.outstanding() == 0,
            r.max() == max,
    {
        DownlinkCredit { outstanding: 0, max }
    }

    /// Whether the receiver must wait instead of taking in one more
    /// datagram: no buffer came back and the limit is reached.
    pub fn must_wait(&self, buffer_returned: bool) -> (r: bool)
        ensures
            r == (!buffer_returned && self.outstanding() >= self.max()),
    {
        !buffer_returned && self.outstanding >= self.max as u32
    }

    /// A datagram was taken in and queued for the gateway.
    pub fn on_received(&mut self)
        ensures
            final(self).outstanding() == after_receive(old(self).outstanding()),
            final(self).max() == old(self).max(),
    {
        if self.outstanding < u32::MAX {
            self.outstanding = self.outstanding + 1;
        }
    }

    /// A queued datagram was dequeued for forwarding: the producer's hint is
    /// computed from the count before the drop, and the count drops by one
    /// (not below zero, as when the datagram is dequeued before it is
    /// counted).
    pub fn on_forwarded(&mut self) -> (r: u8)
        ensures
            r == hint_of(old(self).outstanding(), old(self).max()),
            final(self).outstanding() == after_forward(old(self).outstanding()),
            final(self).max() == old(self).max(),
    {
        let before = self.outstanding;
        if before > 0 {
            self.outstanding = before - 1;
        }
        if before < self.max as u32 {
            self.max - before as u8
        } else {
            0
        }
    }
}

/// The count after one more datagram is taken in.
pub open spec fn after_receive(c: nat) -> nat {
    if c < u32::MAX {
        c + 1
    } else {
        c
    }
}

/// The count after one datagram is dequeued.
pub open spec fn after_forward(c: nat) -> nat {
    if c > 0 {
        (c - 1) as nat
    } else {
        0
    }
}

/// The count of a new endpoint after `k` datagrams were taken in and none
/// dequeued: `after_receive` applied `k` times to the count that `new` gives.
pub open spec fn outstanding_after(k: nat) -> nat
    decreases k,
{
    if k == 0 {
        0
    } else {
        after_receive(outstanding_after((k - 1) as nat))
    }
}

/// On an endpoint made by `new(max)` that took in `k` datagrams
/// (`on_received` `k` times) and dequeued none, the hint that `on_forwarded`
/// gives is `max - min(k, max)`.
pub proof fn lemma_backpressure_hint(k: nat, max: nat)
    requires
        k <= u32::MAX,
    ensures
        outstanding_after(k) == k,
        hint_of(outstanding_after(k), max) == max - if k < max { k } else { max },
    decreases k,
{
    if k > 0 {
        lemma_backpressure_hint((k - 1) as nat, max);
    }
}

/// A receiver that takes in a datagram only when the count is below `max`
/// (the case of `must_wait(false)` being false) never raises the count past
/// `max`, and dequeuing never raises it.
pub proof fn lemma_count_bounded(c: nat, max: nat)
    ensures
        c < max ==> after_receive(c) <= max,
        after_forward(c) <= c,
{
}

/// Checks the bridge's configuration: at least one write function, and one
/// write function per downlink port when ports are configured.
pub fn check_control(num_write: usize, num_downlink_ports: Option<usize>) -> (r: Result<(), CommsError>)
    ensures
        num_write == 0 ==> r == Err::<(), CommsError>(CommsError::NoWriteFunction),
        num_write > 0 && num_downlink_ports is Some && num_downlink_ports->0 != num_write ==> r == Err::<
            (),
            CommsError,
        >(CommsError::WritePortMismatch),
        num_write > 0 && (num_downlink_ports is None || num_downlink_ports->0 == num_write) ==> r == Ok::<
            (),
            CommsError,
        >(()),
{
    if num_write == 0 {
        return Err(CommsError::NoWriteFunction);
    }
    match num_downlink_ports {
        Some(n) => if n != num_write {
            Err(CommsError::WritePortMismatch)
        } else {
            Ok(())
        },
        None => Ok(()),
    }
}

} // verus!
