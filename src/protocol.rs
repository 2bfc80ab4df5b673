//! The state machine of one file-transfer session. The message engine feeds
//! it each inbound message and each tick on which no message came, performs
//! the actions it returns, and stops once it reaches `Done`, or `TimedOut`
//! when the peer stays silent.
use vstd::prelude::*;

verus! {

/// Where a session goes back to when a hold ends.
pub enum Resume {
    Transmitting { hash: String },
    Receiving { hash: String, path: String, mode: Option<u32> },
}

/// State of a session.
pub enum State {
    /// Waiting out `remaining` ticks before resuming.
    Holding { remaining: u32, resume: Resume },
    /// Sending the chunks of the file named by `hash`; `idle` ticks passed
    /// since the peer last answered or was last asked.
    Transmitting { hash: String, idle: u32 },
    /// Waiting for the peer to announce the file to be written to `path`.
    StartReceive { path: String },
    /// Receiving the chunks of `hash`, to be finalized to `path`; `idle`
    /// ticks passed since the last chunk came.
    Receiving { hash: String, path: String, mode: Option<u32>, idle: u32 },
    /// The transfer is over.
    Done,
    /// The transfer was abandoned: the peer stayed silent too long.
    TimedOut,
}

/// What happened since the last step.
pub enum Event {
    /// The peer has the whole file.
    Ack { hash: String },
    /// The peer misses the chunks in these half-open ranges.
    Nak { hash: String, ranges: Vec<(u32, u32)> },
    /// The peer announces the file it sends.
    ReceiveStart { hash: String, num_chunks: u32, mode: Option<u32> },
    /// One chunk of a file.
    Chunk { hash: String, index: u32, data: Vec<u8> },
    /// A tick passed with no message.
    Tick,
    /// The chunk ranges still missing, as the store reported them.
    Missing { ranges: Vec<(u32, u32)> },
    /// A message that does not concern this session.
    Other,
}

/// What the engine does after a step.
pub enum Action {
    StoreMeta { hash: String, num_chunks: u32 },
    StoreChunk { hash: String, index: u32, data: Vec<u8> },
    /// Send the chunks with indices in `[lo, hi)`.
    SendChunks { hash: String, lo: u32, hi: u32 },
    /// Ask the peer whether it has the whole file.
    RequestAck { hash: String },
    /// Ask the store which chunk ranges are missing.
    Validate { hash: String },
    SendNak { hash: String, ranges: Vec<(u32, u32)> },
    Finalize { hash: String, path: String, mode: Option<u32> },
    SendAck { hash: String },
    /// Remove the staging of the file.
    Cleanup { hash: String },
}

/// A `Resume` with its texts and bytes as sequences.
pub enum ResumeModel {
    Transmitting { hash: Seq<char> },
    Receiving { hash: Seq<char>, path: Seq<char>, mode: Option<u32> },
}

/// A `State` with its texts and bytes as sequences.
pub enum StateModel {
    Holding { remaining: u32, resume: ResumeModel },
    Transmitting { hash: Seq<char>, idle: u32 },
    StartReceive { path: Seq<char> },
    Receiving { hash: Seq<char>, path: Seq<char>, mode: Option<u32>, idle: u32 },
    Done,
    TimedOut,
}

/// An `Event` with its texts and bytes as sequences.
pub enum EventModel {
    Ack { hash: Seq<char> },
    Nak { hash: Seq<char>, ranges: Seq<(u32, u32)> },
    ReceiveStart { hash: Seq<char>, num_chunks: u32, mode: Option<u32> },
    Chunk { hash: Seq<char>, index: u32, data: Seq<u8> },
    Tick,
    Missing { ranges: Seq<(u32, u32)> },
    Other,
}

/// An `Action` with its texts and bytes as sequences.
pub enum ActionModel {
    StoreMeta { hash: Seq<char>, num_chunks: u32 },
    StoreChunk { hash: Seq<char>, index: u32, data: Seq<u8> },
    SendChunks { hash: Seq<char>, lo: u32, hi: u32 },
    RequestAck { hash: Seq<char> },
    Validate { hash: Seq<char> },
    SendNak { hash: Seq<char>, ranges: Seq<(u32, u32)> },
    Finalize { hash: Seq<char>, path: Seq<char>, mode: Option<u32> },
    SendAck { hash: Seq<char> },
    Cleanup { hash: Seq<char> },
}

impl View for Resume {
    type V = ResumeModel;

    open spec fn view(&self) -> ResumeModel {
        match self {
            Resume::Transmitting { hash } => ResumeModel::Transmitting { hash: hash@ },
            Resume::Receiving { hash, path, mode } => ResumeModel::Receiving { hash: hash@, path: path@, mode: *mode },
        }
    }
}

impl View for State {
    type V = StateModel;

    open spec fn view(&self) -> StateModel {
        match self {
            State::Holding { remaining, resume } => StateModel::Holding { remaining: *remaining, resume: resume@ },
            State::Transmitting { hash, idle } => StateModel::Transmitting { hash: hash@, idle: *idle },
            State::StartReceive { path } => StateModel::StartReceive { path: path@ },
            State::Receiving { hash, path, mode, idle } => StateModel::Receiving {
                hash: hash@,
                path: path@,
                mode: *mode,
                idle: *idle,
            },
            State::Done => StateModel::Done,
            State::TimedOut => StateModel::TimedOut,
        }
    }
}

impl View for Event {
    type V = EventModel;

    open spec fn view(&self) -> EventModel {
        match self {
            Event::Ack { hash } => EventModel::Ack { hash: hash@ },
            Event::Nak { hash, ranges } => EventModel::Nak { hash: hash@, ranges: ranges@ },
            Event::ReceiveStart { hash, num_chunks, mode } => EventModel::ReceiveStart {
                hash: hash@,
                num_chunks: *num_chunks,
                mode: *mode,
            },
            Event::Chunk { hash, index, data } => EventModel::Chunk { hash: hash@, index: *index, data: data@ },
            Event::Tick => EventModel::Tick,
            Event::Missing { ranges } => EventModel::Missing { ranges: ranges@ },
            Event::Other => EventModel::Other,
        }
    }
}

impl View for Action {
    type V = ActionModel;

    open spec fn view(&self) -> ActionModel {
        match self {
            Action::StoreMeta { hash, num_chunks } => ActionModel::StoreMeta { hash: hash@, num_chunks: *num_chunks },
            Action::StoreChunk { hash, index, data } => ActionModel::StoreChunk {
                hash: hash@,
                index: *index,
                data: data@,
            },
            Action::SendChunks { hash, lo, hi } => ActionModel::SendChunks { hash: hash@, lo: *lo, hi: *hi },
            Action::RequestAck { hash } => ActionModel::RequestAck { hash: hash@ },
            Action::Validate { hash } => ActionModel::Validate { hash: hash@ },
            Action::SendNak { hash, ranges } => ActionModel::SendNak { hash: hash@, ranges: ranges@ },
            Action::Finalize { hash, path, mode } => ActionModel::Finalize { hash: hash@, path: path@, mode: *mode },
            Action::SendAck { hash } => ActionModel::SendAck { hash: hash@ },
            Action::Cleanup { hash } => ActionModel::Cleanup { hash: hash@ },
        }
    }
}

pub open spec fn resumed(r: ResumeModel) -> StateModel {
    match r {
        ResumeModel::Transmitting { hash } => StateModel::Transmitting { hash, idle: 0 },
        ResumeModel::Receiving { hash, path, mode } => StateModel::Receiving { hash, path, mode, idle: 0 },
    }
}

/// One chunk request per range of a negative acknowledgement.
pub open spec fn resend(hash: Seq<char>, ranges: Seq<(u32, u32)>) -> Seq<ActionModel> {
    Seq::new(ranges.len(), |i: int| ActionModel::SendChunks { hash, lo: ranges[i].0, hi: ranges[i].1 })
}

/// A transmitting session gives up after twice `hold_count` idle ticks:
/// it asks for the acknowledgement after `hold_count` of them, and waits as
/// long again for the answer.
pub open spec fn sender_gives_up(idle: u32, hold_count: u32) -> bool {
    idle >= 2 * hold_count || idle == u32::MAX
}

/// A receiving session gives up after `hold_count` ticks with no chunk.
pub open spec fn receiver_gives_up(idle: u32, hold_count: u32) -> bool {
    idle >= hold_count
}

/// The state after a step of a session that is not holding.
pub open spec fn active_next_state(s: StateModel, e: EventModel, hold_count: u32) -> StateModel {
    match s {
        StateModel::Transmitting { hash, idle } => match e {
            EventModel::Ack { hash: h } => if h == hash {
                StateModel::Done
            } else {
                s
            },
            EventModel::Nak { hash: h, .. } => if h == hash {
                StateModel::Transmitting { hash, idle: 0 }
            } else {
                s
            },
            EventModel::Tick => if sender_gives_up(idle, hold_count) {
                StateModel::TimedOut
            } else {
                StateModel::Transmitting { hash, idle: (idle + 1) as u32 }
            },
            _ => s,
        },
        StateModel::StartReceive { path } => match e {
            EventModel::ReceiveStart { hash, mode, .. } => StateModel::Receiving { hash, path, mode, idle: 0 },
            _ => s,
        },
        StateModel::Receiving { hash, path, mode, idle } => match e {
            EventModel::Chunk { hash: h, .. } => if h == hash {
                StateModel::Receiving { hash, path, mode, idle: 0 }
            } else {
                s
            },
            EventModel::Tick => if receiver_gives_up(idle, hold_count) {
                StateModel::TimedOut
            } else {
                StateModel::Receiving { hash, path, mode, idle: (idle + 1) as u32 }
            },
            EventModel::Missing { ranges } => if ranges.len() == 0 {
                StateModel::Done
            } else {
                s
            },
            _ => s,
        },
        _ => s,
    }
}

/// The actions of a step of a session that is not holding.
pub open spec fn active_next_actions(s: StateModel, e: EventModel, hold_count: u32) -> Seq<ActionModel> {
    match s {
        StateModel::Transmitting { hash, idle } => match e {
            EventModel::Ack { hash: h } => if h == hash {
                seq![ActionModel::Cleanup { hash }]
            } else {
                Seq::empty()
            },
            EventModel::Nak { hash: h, ranges } => if h == hash {
                resend(hash, ranges)
            } else {
                Seq::empty()
            },
            EventModel::Tick => if !sender_gives_up(idle, hold_count) && idle + 1 == hold_count {
                seq![ActionModel::RequestAck { hash }]
            } else {
                Seq::empty()
            },
            _ => Seq::empty(),
        },
        StateModel::StartReceive { .. } => match e {
            EventModel::ReceiveStart { hash, num_chunks, .. } => seq![ActionModel::StoreMeta { hash, num_chunks }],
            _ => Seq::empty(),
        },
        StateModel::Receiving { hash, path, mode, idle } => match e {
            EventModel::Chunk { hash: h, index, data } => if h == hash {
                seq![ActionModel::StoreChunk { hash, index, data }]
            } else {
                Seq::empty()
            },
            EventModel::Tick => if receiver_gives_up(idle, hold_count) {
                Seq::empty()
            } else {
                seq![ActionModel::Validate { hash }]
            },
            EventModel::Missing { ranges } => if ranges.len() == 0 {
                seq![ActionModel::Finalize { hash, path, mode }, ActionModel::SendAck { hash }]
            } else {
                seq![ActionModel::SendNak { hash, ranges }]
            },
            _ => Seq::empty(),
        },
        _ => Seq::empty(),
    }
}

/// The state after a step. A holding session counts ticks down and then
/// resumes; any other event is handled by the state it resumes.
pub open spec fn next_state(s: StateModel, e: EventModel, hold_count: u32) -> StateModel {
    match s {
        StateModel::Holding { remaining, resume } => match e {
            EventModel::Tick => if remaining <= 1 {
                resumed(resume)
            } else {
                StateModel::Holding { remaining: (remaining - 1) as u32, resume }
            },
            _ => active_next_state(resumed(resume), e, hold_count),
        },
        _ => active_next_state(s, e, hold_count),
    }
}

/// The actions of a step.
pub open spec fn next_actions(s: StateModel, e: EventModel, hold_count: u32) -> Seq<ActionModel> {
    match s {
        StateModel::Holding { resume, .. } => match e {
            EventModel::Tick => Seq::empty(),
            _ => active_next_actions(resumed(resume), e, hold_count),
        },
        _ => active_next_actions(s, e, hold_count),
    }
}

pub open spec fn action_views(v: Seq<Action>) -> Seq<ActionModel> {
    Seq::new(v.len(), |i: int| v[i]@)
}

fn resend_actions(hash: &String, ranges: &Vec<(u32, u32)>) -> (r: Vec<Action>)
    ensures
        action_views(r@) == resend(hash@, ranges@),
{
    let mut out: Vec<Action> = Vec::new();
    let mut i: usize = 0;
    while i < ranges.len()
        invariant
            i <= ranges@.len(),
            out@.len() == i,
            forall|k: int| 0 <= k < i ==> (#[trigger] out@[k])@ == resend(hash@, ranges@)[k],
        decreases ranges.len() - i,
    {
        let (lo, hi) = ranges[i];
        out.push(Action::SendChunks { hash: hash.clone(), lo, hi });
        i = i + 1;
    }
    assert(action_views(out@) =~= resend(hash@, ranges@));
    out
}

fn step_active(state: State, event: Event, hold_count: u32) -> (r: (State, Vec<Action>))
    requires
        !(state is Holding),
    ensures
        r.0@ == active_next_state(state@, event@, hold_count),
        action_views(r.1@) == active_next_actions(state@, event@, hold_count),
{
    let none: Vec<Action> = Vec::new();
    proof {
        assert(action_views(none@) =~= Seq::<ActionModel>::empty());
    }
    match state {
        State::Transmitting { hash, idle } => match event {
            Event::Ack { hash: h } => {
                if h == hash {
                    let mut acts: Vec<Action> = Vec::new();
                    acts.push(Action::Cleanup { hash });
                    assert(action_views(acts@) =~= active_next_actions(state@, event@, hold_count));
                    (State::Done, acts)
                } else {
                    (State::Transmitting { hash, idle }, none)
                }
            },
            Event::Nak { hash: h, ranges } => {
                if h == hash {
                    let acts = resend_actions(&hash, &ranges);
                    (State::Transmitting { hash, idle: 0 }, acts)
                } else {
                    (State::Transmitting { hash, idle }, none)
                }
            },
            Event::Tick => {
                if idle as u64 >= 2 * hold_count as u64 || idle == u32::MAX {
                    (State::TimedOut, none)
                } else if idle as u64 + 1 == hold_count as u64 {
                    let mut acts: Vec<Action> = Vec::new();
                    acts.push(Action::RequestAck { hash: hash.clone() });
                    assert(action_views(acts@) =~= active_next_actions(state@, event@, hold_count));
                    (State::Transmitting { hash, idle: idle + 1 }, acts)
                } else {
                    (State::Transmitting { hash, idle: idle + 1 }, none)
                }
            },
            _ => (State::Transmitting { hash, idle }, none),
        },
        State::StartReceive { path } => match event {
            Event::ReceiveStart { hash, num_chunks, mode } => {
                let mut acts: Vec<Action> = Vec::new();
                acts.push(Action::StoreMeta { hash: hash.clone(), num_chunks });
                assert(action_views(acts@) =~= active_next_actions(state@, event@, hold_count));
                (State::Receiving { hash, path, mode, idle: 0 }, acts)
            },
            _ => (State::StartReceive { path }, none),
        },
        State::Receiving { hash, path, mode, idle } => match event {
            Event::Chunk { hash: h, index, data } => {
                if h == hash {
                    let mut acts: Vec<Action> = Vec::new();
                    acts.push(Action::StoreChunk { hash: h, index, data });
                    assert(action_views(acts@) =~= active_next_actions(state@, event@, hold_count));
                    (State::Receiving { hash, path, mode, idle: 0 }, acts)
                } else {
                    (State::Receiving { hash, path, mode, idle }, none)
                }
            },
            Event::Tick => {
                if idle >= hold_count {
                    (State::TimedOut, none)
                } else {
                    let mut acts: Vec<Action> = Vec::new();
                    acts.push(Action::Validate { hash: hash.clone() });
                    assert(action_views(acts@) =~= active_next_actions(state@, event@, hold_count));
                    (State::Receiving { hash, path, mode, idle: idle + 1 }, acts)
                }
            },
            Event::Missing { ranges } => {
                let mut acts: Vec<Action> = Vec::new();
                if ranges.len() == 0 {
                    acts.push(Action::Finalize { hash: hash.clone(), path, mode });
                    acts.push(Action::SendAck { hash });
                    assert(action_views(acts@) =~= active_next_actions(state@, event@, hold_count));
                    (State::Done, acts)
                } else {
                    acts.push(Action::SendNak { hash: hash.clone(), ranges });
                    assert(action_views(acts@) =~= active_next_actions(state@, event@, hold_count));
                    (State::Receiving { hash, path, mode, idle }, acts)
                }
            },
            _ => (State::Receiving { hash, path, mode, idle }, none),
        },
        State::TimedOut => (State::TimedOut, none),
        _ => (State::Done, none),
    }
}

fn resume_state(resume: Resume) -> (r: State)
    ensures
        r@ == resumed(resume@),
        !(r is Holding),
{
    match resume {
        Resume::Transmitting { hash } => State::Transmitting { hash, idle: 0 },
        Resume::Receiving { hash, path, mode } => State::Receiving { hash, path, mode, idle: 0 },
    }
}

/// Advances a session by one event. Messages about another file, and
/// messages that the state does not expect, change nothing. `hold_count`
/// is the number of idle ticks after which a transmitting session asks for
/// an acknowledgement.
pub fn step(state: State, event: Event, hold_count: u32) -> (r: (State, Vec<Action>))
    ensures
        r.0@ == next_state(state@, event@, hold_count),
        action_views(r.1@) == next_actions(state@, event@, hold_count),
{
    match state {
        State::Holding { remaining, resume } => match event {
            Event::Tick => {
                let none: Vec<Action> = Vec::new();
                assert(action_views(none@) =~= Seq::<ActionModel>::empty());
                if remaining <= 1 {
                    (resume_state(resume), none)
                } else {
                    (State::Holding { remaining: remaining - 1, resume }, none)
                }
            },
            _ => step_active(resume_state(resume), event, hold_count),
        },
        _ => step_active(state, event, hold_count),
    }
}

/// Whether the engine stops: the transfer is over or was abandoned.
pub fn is_over(state: &State) -> (r: bool)
    ensures
        r == ((state@ is Done) || (state@ is TimedOut)),
{
    match state {
        State::Done => true,
        State::TimedOut => true,
        _ => false,
    }
}

/// Whether the transfer is over.
pub fn is_done(state: &State) -> (r: bool)
    ensures
        r == (state@ is Done),
{
    match state {
        State::Done => true,
        _ => false,
    }
}

pub open spec fn receiving_model(hash: Seq<char>, path: Seq<char>, mode: Option<u32>, idle: u32) -> StateModel {
    StateModel::Receiving { hash, path, mode, idle }
}

pub open spec fn transmitting_model(hash: Seq<char>, idle: u32) -> StateModel {
    StateModel::Transmitting { hash, idle }
}

/// A session whose peer stays silent ends: a receiver that gets only ticks
/// validates on each of `hold_count` of them and then gives up; a
/// transmitter gives up after twice as many.
pub proof fn lemma_silent_peer_times_out(hash: Seq<char>, path: Seq<char>, mode: Option<u32>, hold_count: u32)
    ensures
        next_state(receiving_model(hash, path, mode, hold_count), EventModel::Tick, hold_count)
            == StateModel::TimedOut,
        hold_count < u32::MAX / 2 ==> next_state(
            transmitting_model(hash, (2 * hold_count) as u32),
            EventModel::Tick,
            hold_count,
        ) == StateModel::TimedOut,
        forall|i: u32|
            i < hold_count ==> next_state(
                #[trigger] receiving_model(hash, path, mode, i),
                EventModel::Tick,
                hold_count,
            ) == receiving_model(hash, path, mode, (i + 1) as u32),
{
}

} // verus!
