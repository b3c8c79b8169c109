//! The relay task of one session, as a state machine.
//!
//! A task reads a chunk of bytes from its own connection, echoes the chunk to
//! that connection, and forwards it to every other registered session. The
//! machine makes the decisions and does no input or output itself: it hands
//! its driver a [`RelayAction`], the driver carries the action out and
//! reports what happened as a [`RelayEvent`].

use vstd::prelude::*;

verus! {

/// The most bytes that one read takes from a connection.
pub const READ_BUFFER_SIZE: usize = 1024;

/// Where a relay task stands in its cycle.
#[derive(Clone, Copy, Debug, PartialEq, Eq, Structural)]
pub enum RelayState {
    /// Waiting for bytes from the session's own connection.
    Reading,
    /// Writing the bytes just read back to the session's own connection.
    Echoing,
    /// Forwarding the bytes just read to the other sessions.
    Broadcasting,
    /// Finished; the task does nothing more.
    Closed,
}

/// What the driver reports to the task.
#[derive(Debug, PartialEq, Eq)]
pub enum RelayEvent {
    /// A read returned these bytes; none at all means the connection ended.
    Received(Vec<u8>),
    /// The read failed.
    ReadFailed,
    /// The echo was written in full.
    EchoWritten,
    /// The echo could not be written.
    EchoFailed,
    /// The identifiers registered at the moment the driver looked.
    Members(Vec<i32>),
    /// The payload was written in full to the peer named in the last action.
    PeerWritten,
    /// The payload could not be written to the peer named in the last action.
    PeerFailed,
}

/// What the task asks its driver to do next.
#[derive(Debug, PartialEq, Eq)]
pub enum RelayAction {
    /// Read at most `max_len` bytes from the session's own connection.
    Read { max_len: usize },
    /// Write `payload` to the session's own connection.
    Echo { payload: Vec<u8> },
    /// Look up which sessions are registered; `excluded` is the session that
    /// the coming broadcast leaves out.
    Snapshot { excluded: i32 },
    /// Write `payload`, whole and in one piece, to the connection of `peer`.
    Forward { peer: i32, payload: Vec<u8> },
    /// Stop: the session is over.
    Close,
}

/// A [`RelayEvent`] as a mathematical value.
pub enum Event {
    Received(Seq<u8>),
    ReadFailed,
    EchoWritten,
    EchoFailed,
    Members(Seq<i32>),
    PeerWritten,
    PeerFailed,
}

/// A [`RelayAction`] as a mathematical value.
pub enum Action {
    Read { max_len: usize },
    Echo { payload: Seq<u8> },
    Snapshot { excluded: i32 },
    Forward { peer: i32, payload: Seq<u8> },
    Close,
}

impl View for RelayEvent {
    type V = Event;

    open spec fn view(&self) -> Event {
        match self {
            RelayEvent::Received(bytes) => Event::Received(bytes@),
            RelayEvent::ReadFailed => Event::ReadFailed,
            RelayEvent::EchoWritten => Event::EchoWritten,
            RelayEvent::EchoFailed => Event::EchoFailed,
            RelayEvent::Members(ids) => Event::Members(ids@),
            RelayEvent::PeerWritten => Event::PeerWritten,
            RelayEvent::PeerFailed => Event::PeerFailed,
        }
    }
}

impl View for RelayAction {
    type V = Action;

    open spec fn view(&self) -> Action {
        match self {
            RelayAction::Read { max_len } => Action::Read { max_len: *max_len },
            RelayAction::Echo { payload } => Action::Echo { payload: payload@ },
            RelayAction::Snapshot { excluded } => Action::Snapshot { excluded: *excluded },
            RelayAction::Forward { peer, payload } => Action::Forward {
                peer: *peer,
                payload: payload@,
            },
            RelayAction::Close => Action::Close,
        }
    }
}

/// The test that every session but `sender` passes.
pub open spec fn other_than(sender: i32) -> spec_fn(i32) -> bool {
    |id: i32| id != sender
}

/// The identifiers among `members` that a message of `sender` goes to: all
/// but the sender's own, in the order of `members`.
pub open spec fn peers_among(members: Seq<i32>, sender: i32) -> Seq<i32> {
    members.filter(other_than(sender))
}

/// A relay task as a mathematical value.
pub struct Relay {
    /// The session that the task serves. It is what a broadcast leaves out.
    pub session_id: i32,
    pub state: RelayState,
    /// The bytes of the cycle in progress; empty between cycles.
    pub message: Seq<u8>,
    /// While broadcasting: the peers still to be served, the one being
    /// written to first. `None` until the registered sessions are known.
    pub pending: Option<Seq<i32>>,
}

impl Relay {
    /// The task of session `session_id` before its first read.
    pub open spec fn start(session_id: i32) -> Relay {
        Relay { session_id, state: RelayState::Reading, message: Seq::empty(), pending: None }
    }

    /// What holds of every task that began with [`Relay::start`]: outside a
    /// cycle it holds no bytes, inside one the bytes are not empty, and the
    /// peers still to be served never include the task's own session.
    pub open spec fn wf(self) -> bool {
        match self.state {
            RelayState::Reading | RelayState::Closed => self.message.len() == 0
                && self.pending is None,
            RelayState::Echoing => self.message.len() > 0 && self.pending is None,
            RelayState::Broadcasting => self.message.len() > 0 && (self.pending matches Some(
                peers,
            ) ==> peers.len() > 0 && !peers.contains(self.session_id)),
        }
    }

    /// The task, finished.
    pub open spec fn closed(self) -> Relay {
        Relay {
            session_id: self.session_id,
            state: RelayState::Closed,
            message: Seq::empty(),
            pending: None,
        }
    }

    /// The task with `peers` still to be served: it forwards to the first of
    /// them, or goes back to reading when none is left.
    pub open spec fn serve(self, peers: Seq<i32>) -> (Relay, Action) {
        if peers.len() > 0 {
            (
                Relay {
                    session_id: self.session_id,
                    state: RelayState::Broadcasting,
                    message: self.message,
                    pending: Some(peers),
                },
                Action::Forward { peer: peers[0], payload: self.message },
            )
        } else {
            (Relay::start(self.session_id), Action::Read { max_len: READ_BUFFER_SIZE })
        }
    }

    /// The task after `event`, and what it asks for next.
    ///
    /// An event that does not answer the action in progress closes the task.
    pub open spec fn step(self, event: Event) -> (Relay, Action) {
        match self.state {
            RelayState::Reading => match event {
                Event::Received(bytes) if bytes.len() > 0 => (
                    Relay {
                        session_id: self.session_id,
                        state: RelayState::Echoing,
                        message: bytes,
                        pending: None,
                    },
                    Action::Echo { payload: bytes },
                ),
                _ => (self.closed(), Action::Close),
            },
            RelayState::Echoing => match event {
                Event::EchoWritten => (
                    Relay {
                        session_id: self.session_id,
                        state: RelayState::Broadcasting,
                        message: self.message,
                        pending: None,
                    },
                    Action::Snapshot { excluded: self.session_id },
                ),
                _ => (self.closed(), Action::Close),
            },
            RelayState::Broadcasting => match (self.pending, event) {
                (None, Event::Members(ids)) => self.serve(peers_among(ids, self.session_id)),
                (Some(peers), Event::PeerWritten) if peers.len() > 0 => self.serve(peers.skip(1)),
                (Some(peers), Event::PeerFailed) if peers.len() > 0 => self.serve(peers.skip(1)),
                _ => (self.closed(), Action::Close),
            },
            RelayState::Closed => (self.closed(), Action::Close),
        }
    }
}

impl Relay {
    /// The task after a whole sequence of events, and the actions it asked
    /// for along the way, one for each event.
    pub open spec fn run(self, events: Seq<Event>) -> (Relay, Seq<Action>)
        decreases events.len(),
    {
        if events.len() == 0 {
            (self, Seq::empty())
        } else {
            let (next, action) = self.step(events[0]);
            let (last, actions) = next.run(events.drop_first());
            (last, seq![action] + actions)
        }
    }
}

/// How a write to a peer ended, as the event that reports it.
pub open spec fn outcome_event(written: bool) -> Event {
    if written {
        Event::PeerWritten
    } else {
        Event::PeerFailed
    }
}

/// The events that report `outcomes`, one write after another.
pub open spec fn outcome_events(outcomes: Seq<bool>) -> Seq<Event> {
    Seq::new(outcomes.len(), |i: int| outcome_event(outcomes[i]))
}

/// One `Forward` of `payload` for each of `peers`, in their order.
pub open spec fn forwards(peers: Seq<i32>, payload: Seq<u8>) -> Seq<Action> {
    Seq::new(peers.len(), |i: int| Action::Forward { peer: peers[i], payload })
}

/// All bytes that `actions` echo to the session's own connection, in order.
pub open spec fn echoed(actions: Seq<Action>) -> Seq<u8>
    decreases actions.len(),
{
    if actions.len() == 0 {
        Seq::empty()
    } else {
        echoed(actions.drop_last()) + match actions.last() {
            Action::Echo { payload } => payload,
            _ => Seq::empty(),
        }
    }
}

/// All bytes that `actions` forward to the session `peer`, in order.
pub open spec fn forwarded_to(actions: Seq<Action>, peer: i32) -> Seq<u8>
    decreases actions.len(),
{
    if actions.len() == 0 {
        Seq::empty()
    } else {
        forwarded_to(actions.drop_last(), peer) + match actions.last() {
            Action::Forward { peer: to, payload } if to == peer => payload,
            _ => Seq::empty(),
        }
    }
}

/// One full turn of a relay task as its driver sees it: the bytes that a read
/// returned, the sessions found registered after the echo, and how the write
/// to each peer ended.
pub struct Cycle {
    pub chunk: Seq<u8>,
    pub members: Seq<i32>,
    pub outcomes: Seq<bool>,
}

impl Cycle {
    /// The read returned bytes, and every peer's write has its outcome.
    pub open spec fn fits(self, session_id: i32) -> bool {
        &&& self.chunk.len() > 0
        &&& self.outcomes.len() == peers_among(self.members, session_id).len()
    }

    /// What the driver reports during the cycle when the echo is written.
    pub open spec fn events(self) -> Seq<Event> {
        seq![Event::Received(self.chunk), Event::EchoWritten, Event::Members(self.members)]
            + outcome_events(self.outcomes)
    }

    /// What the task of `session_id` asks for during the cycle.
    pub open spec fn actions(self, session_id: i32) -> Seq<Action> {
        seq![Action::Echo { payload: self.chunk }, Action::Snapshot { excluded: session_id }]
            + forwards(peers_among(self.members, session_id), self.chunk)
            + seq![Action::Read { max_len: READ_BUFFER_SIZE }]
    }
}

/// The events of `cycles`, one cycle after another.
pub open spec fn session_events(cycles: Seq<Cycle>) -> Seq<Event>
    decreases cycles.len(),
{
    if cycles.len() == 0 {
        Seq::empty()
    } else {
        session_events(cycles.drop_last()) + cycles.last().events()
    }
}

/// What the task of `session_id` asks for during `cycles`.
pub open spec fn session_actions(cycles: Seq<Cycle>, session_id: i32) -> Seq<Action>
    decreases cycles.len(),
{
    if cycles.len() == 0 {
        Seq::empty()
    } else {
        session_actions(cycles.drop_last(), session_id) + cycles.last().actions(session_id)
    }
}

/// The bytes read in `cycles`, one chunk after another.
pub open spec fn session_bytes(cycles: Seq<Cycle>) -> Seq<u8>
    decreases cycles.len(),
{
    if cycles.len() == 0 {
        Seq::empty()
    } else {
        session_bytes(cycles.drop_last()) + cycles.last().chunk
    }
}

/// The relay task of one session.
pub struct RelayTask {
    session_id: i32,
    state: RelayState,
    message: Vec<u8>,
    members_known: bool,
    targets: Vec<i32>,
    served: usize,
}

impl View for RelayTask {
    type V = Relay;

    closed spec fn view(&self) -> Relay {
        Relay {
            session_id: self.session_id,
            state: self.state,
            message: self.message@,
            pending: if self.members_known {
                if self.served <= self.targets@.len() {
                    Some(self.targets@.skip(self.served as int))
                } else {
                    Some(Seq::empty())
                }
            } else {
                None
            },
        }
    }
}

/// The identifiers among `members` other than `sender`, in the same order.
fn select_peers(members: &Vec<i32>, sender: i32) -> (peers: Vec<i32>)
    ensures
        peers@ == peers_among(members@, sender),
{
    let ghost other = other_than(sender);
    let mut peers: Vec<i32> = Vec::new();
    let mut i: usize = 0;
    proof {
        reveal(Seq::filter);
        assert(members@.take(0).filter(other) =~= Seq::<i32>::empty());
    }
    while i < members.len()
        invariant
            i <= members.len(),
            other == other_than(sender),
            peers@ == members@.take(i as int).filter(other),
        decreases members.len() - i,
    {
        let id = members[i];
        proof {
            assert(members@.take(i + 1) =~= members@.take(i as int).push(id));
            members@.take(i as int).lemma_filter_push(id, other);
        }
        if id != sender {
            peers.push(id);
        }
        i += 1;
    }
    assert(members@.take(members.len() as int) =~= members@);
    peers
}

impl RelayTask {
    /// The task of session `session_id`, about to read for the first time.
    /// The identifier stays with the task for good.
    pub fn new(session_id: i32) -> (task: Self)
        ensures
            task@ == Relay::start(session_id),
    {
        RelayTask {
            session_id,
            state: RelayState::Reading,
            message: Vec::new(),
            members_known: false,
            targets: Vec::new(),
            served: 0,
        }
    }

    /// The first action of a task: a read.
    pub fn first_action(&self) -> (action: RelayAction)
        ensures
            action@ == (Action::Read { max_len: READ_BUFFER_SIZE }),
    {
        RelayAction::Read { max_len: READ_BUFFER_SIZE }
    }

    /// The session that the task serves.
    pub fn session_id(&self) -> (id: i32)
        ensures
            id == self@.session_id,
    {
        self.session_id
    }

    /// Where the task stands.
    pub fn state(&self) -> (state: RelayState)
        ensures
            state == self@.state,
    {
        self.state
    }

    fn close(&mut self) -> (action: RelayAction)
        ensures
            final(self)@ == old(self)@.closed(),
            action@ == Action::Close,
    {
        self.state = RelayState::Closed;
        self.message = Vec::new();
        self.members_known = false;
        self.targets = Vec::new();
        self.served = 0;
        RelayAction::Close
    }

    fn serve(&mut self) -> (action: RelayAction)
        requires
            old(self).members_known,
            old(self).served <= old(self).targets@.len(),
        ensures
            (final(self)@, action@) == old(self)@.serve(
                old(self).targets@.skip(old(self).served as int),
            ),
    {
        if self.served < self.targets.len() {
            self.state = RelayState::Broadcasting;
            let payload = self.message.clone();
            assert(payload@ =~= self.message@);
            RelayAction::Forward { peer: self.targets[self.served], payload }
        } else {
            self.state = RelayState::Reading;
            self.message = Vec::new();
            self.members_known = false;
            self.targets = Vec::new();
            self.served = 0;
            RelayAction::Read { max_len: READ_BUFFER_SIZE }
        }
    }

    /// Takes in what the driver reports and says what to do next.
    pub fn step(&mut self, event: RelayEvent) -> (action: RelayAction)
        ensures
            (final(self)@, action@) == old(self)@.step(event@),
    {
        match self.state {
            RelayState::Reading => match event {
                RelayEvent::Received(bytes) => {
                    if bytes.len() > 0 {
                        let payload = bytes.clone();
                        assert(payload@ =~= bytes@);
                        self.state = RelayState::Echoing;
                        self.message = bytes;
                        self.members_known = false;
                        RelayAction::Echo { payload }
                    } else {
                        self.close()
                    }
                },
                _ => self.close(),
            },
            RelayState::Echoing => match event {
                RelayEvent::EchoWritten => {
                    self.state = RelayState::Broadcasting;
                    self.members_known = false;
                    RelayAction::Snapshot { excluded: self.session_id }
                },
                _ => self.close(),
            },
            RelayState::Broadcasting => match event {
                RelayEvent::Members(ids) => {
                    if self.members_known {
                        self.close()
                    } else {
                        self.targets = select_peers(&ids, self.session_id);
                        self.served = 0;
                        self.members_known = true;
                        assert(self.targets@.skip(0) =~= self.targets@);
                        self.serve()
                    }
                },
                RelayEvent::PeerWritten | RelayEvent::PeerFailed => {
                    if self.members_known && self.served < self.targets.len() {
                        assert(self.targets@.skip(self.served as int).skip(1)
                            =~= self.targets@.skip(self.served + 1));
                        self.served = self.served + 1;
                        self.serve()
                    } else {
                        self.close()
                    }
                },
                _ => self.close(),
            },
            RelayState::Closed => self.close(),
        }
    }
}

} // verus!
