use crate::config::Config;
use crate::error::{modelled, ProxyError};
use crate::packet::{parse_spec, Packet, PacketModel, State};
use vstd::prelude::*;

verus! {

/// Where the handling of one accepted connection stands.
#[derive(Clone, Copy, Debug, PartialEq, Eq, Structural)]
pub enum Phase {
    /// Nothing has arrived from the client yet.
    AwaitFirstRead,
    /// The first bytes are here and wait to be decoded. This needs no
    /// outside work, so `step` goes straight through it.
    Parsed,
    /// A backend was chosen and is being connected to.
    BackendConnecting,
    /// The backend is there; the first bytes are on their way to it.
    Relaying,
    /// Nothing is left to do for this connection.
    Closed,
    /// The connection was given up.
    Failed,
}

/// What the outside reports back.
#[derive(Debug)]
pub enum Event {
    /// The first read returned, with these bytes; none means that the client
    /// has gone.
    FirstRead(Vec<u8>),
    /// The first read failed.
    ReadFailed,
    /// The backend accepted the connection.
    Connected,
    /// The backend could not be reached.
    ConnectFailed,
    /// The first bytes were written to the backend and flushed.
    Forwarded,
    /// Writing the first bytes to the backend failed.
    ForwardFailed,
}

/// What the outside is asked to do next.
#[derive(Debug, PartialEq, Eq)]
pub enum Action {
    /// Open a connection to this address.
    Connect(String),
    /// Write the bytes of the first read to the backend, as they came, and
    /// flush.
    Forward,
    /// Start one relay for each direction and let go of the connection.
    StartRelays,
    /// Close the client's connection; nothing went wrong.
    Close,
    /// Report the error and close the client's connection.
    Abort(ProxyError),
    /// Nothing: the event was not awaited.
    Ignore,
}

pub enum EventModel {
    FirstRead(Seq<u8>),
    ReadFailed,
    Connected,
    ConnectFailed,
    Forwarded,
    ForwardFailed,
}

pub enum ActionModel {
    Connect(Seq<char>),
    Forward,
    StartRelays,
    Close,
    Abort(ProxyError),
    Ignore,
}

impl View for Event {
    type V = EventModel;

    open spec fn view(&self) -> EventModel {
        match self {
            Event::FirstRead(bytes) => EventModel::FirstRead(bytes@),
            Event::ReadFailed => EventModel::ReadFailed,
            Event::Connected => EventModel::Connected,
            Event::ConnectFailed => EventModel::ConnectFailed,
            Event::Forwarded => EventModel::Forwarded,
            Event::ForwardFailed => EventModel::ForwardFailed,
        }
    }
}

impl View for Action {
    type V = ActionModel;

    open spec fn view(&self) -> ActionModel {
        match self {
            Action::Connect(dest) => ActionModel::Connect(dest@),
            Action::Forward => ActionModel::Forward,
            Action::StartRelays => ActionModel::StartRelays,
            Action::Close => ActionModel::Close,
            Action::Abort(error) => ActionModel::Abort(*error),
            Action::Ignore => ActionModel::Ignore,
        }
    }
}

/// One move of the machine: where it stands afterwards, the first bytes it
/// holds, and what it asks for.
pub struct Move {
    pub phase: Phase,
    pub first_read: Seq<u8>,
    pub action: ActionModel,
}

/// Where the first read leads: a client that sent nothing has gone, and
/// anything else is to be decoded.
pub open spec fn after_read(bytes: Seq<u8>) -> Phase {
    if bytes.len() == 0 {
        Phase::Closed
    } else {
        Phase::Parsed
    }
}

/// Where decoding leads: a handshake is routed by its host name and the
/// backend connected to; an error ends the connection.
pub open spec fn after_parse(parsed: Result<PacketModel, ProxyError>, table: &Config) -> (
    Phase,
    ActionModel,
) {
    match parsed {
        Ok(PacketModel::Handshake(handshake)) => (
            Phase::BackendConnecting,
            ActionModel::Connect(table.destination(handshake.server)),
        ),
        Err(error) => (Phase::Failed, ActionModel::Abort(error)),
    }
}

/// The move that `event` brings about in a machine that stands at `phase`
/// and holds `first_read`.
pub open spec fn transition(
    phase: Phase,
    first_read: Seq<u8>,
    event: EventModel,
    table: &Config,
) -> Move {
    match (phase, event) {
        (Phase::AwaitFirstRead, EventModel::FirstRead(bytes)) => {
            if after_read(bytes) == Phase::Closed {
                Move { phase: Phase::Closed, first_read: bytes, action: ActionModel::Close }
            } else {
                let decided = after_parse(parse_spec(State::Handshaking, bytes), table);
                Move { phase: decided.0, first_read: bytes, action: decided.1 }
            }
        },
        (Phase::AwaitFirstRead, EventModel::ReadFailed) => Move {
            phase: Phase::Failed,
            first_read,
            action: ActionModel::Abort(ProxyError::TransportError),
        },
        (Phase::BackendConnecting, EventModel::Connected) => Move {
            phase: Phase::Relaying,
            first_read,
            action: ActionModel::Forward,
        },
        (Phase::BackendConnecting, EventModel::ConnectFailed) => Move {
            phase: Phase::Failed,
            first_read,
            action: ActionModel::Abort(ProxyError::BackendConnectError),
        },
        (Phase::Relaying, EventModel::Forwarded) => Move {
            phase: Phase::Closed,
            first_read,
            action: ActionModel::StartRelays,
        },
        (Phase::Relaying, EventModel::ForwardFailed) => Move {
            phase: Phase::Failed,
            first_read,
            action: ActionModel::Abort(ProxyError::TransportError),
        },
        _ => Move { phase, first_read, action: ActionModel::Ignore },
    }
}

/// How far along a phase is. No move leads back.
pub open spec fn rank(phase: Phase) -> nat {
    match phase {
        Phase::AwaitFirstRead => 0,
        Phase::Parsed => 1,
        Phase::BackendConnecting => 2,
        Phase::Relaying => 3,
        Phase::Closed => 4,
        Phase::Failed => 4,
    }
}

/// The decisions for one accepted connection, from the first read to the
/// hand-over to the relays. It holds the bytes of the first read, so that
/// the backend gets them as they came.
#[derive(Debug)]
pub struct Coordinator {
    phase: Phase,
    first_read: Vec<u8>,
}

impl Coordinator {
    /// The phase that the machine stands at.
    pub closed spec fn spec_phase(&self) -> Phase {
        self.phase
    }

    /// The bytes of the first read; none before it.
    pub closed spec fn first_bytes(&self) -> Seq<u8> {
        self.first_read@
    }

    /// A machine for a connection that was just accepted.
    pub fn new() -> (machine: Coordinator)
        ensures
            machine.phase() == Phase::AwaitFirstRead,
            machine.first_bytes() == Seq::<u8>::empty(),
    {
        Coordinator { phase: Phase::AwaitFirstRead, first_read: Vec::new() }
    }

    /// The phase that the machine stands at.
    #[verifier::when_used_as_spec(spec_phase)]
    pub fn phase(&self) -> (phase: Phase)
        ensures
            phase == self.spec_phase(),
    {
        self.phase
    }

    /// The bytes of the first read, to be forwarded as they are.
    pub fn first_read(&self) -> (bytes: &[u8])
        ensures
            bytes@ == self.first_bytes(),
    {
        self.first_read.as_slice()
    }

    /// Takes in what the first read returned. A machine that waits for
    /// nothing of the kind is left as it is.
    pub fn accept(&mut self, bytes: Vec<u8>)
        ensures
            old(self).phase() == Phase::AwaitFirstRead ==> final(self).phase() == after_read(bytes@)
                && final(self).first_bytes() == bytes@,
            old(self).phase() != Phase::AwaitFirstRead ==> *final(self) == *old(self),
    {
        if self.phase == Phase::AwaitFirstRead {
            self.phase = if bytes.len() == 0 {
                Phase::Closed
            } else {
                Phase::Parsed
            };
            self.first_read = bytes;
        }
    }

    /// What to do once the first bytes are decoded: connect to the backend
    /// that the table gives for the handshake's host name, or give up with
    /// the decoder's error.
    pub fn decide(parsed: Result<Packet, ProxyError>, table: &Config) -> (decided: (Phase, Action))
        ensures
            (decided.0, decided.1@) == after_parse(modelled(parsed), table),
    {
        match parsed {
            Ok(Packet::Handshake(handshake)) => (
                Phase::BackendConnecting,
                Action::Connect(table.resolve(&handshake.server)),
            ),
            Err(error) => (Phase::Failed, Action::Abort(error)),
        }
    }

    /// Decodes the first bytes as a handshake and decides on them. A machine
    /// that holds no undecoded bytes is left as it is.
    pub fn route(&mut self, table: &Config) -> (action: Action)
        ensures
            final(self).first_bytes() == old(self).first_bytes(),
            old(self).phase() == Phase::Parsed ==> (final(self).phase(), action@) == after_parse(
                parse_spec(State::Handshaking, old(self).first_bytes()),
                table,
            ),
            old(self).phase() != Phase::Parsed ==> final(self).phase() == old(self).phase()
                && action@ == ActionModel::Ignore,
    {
        if self.phase == Phase::Parsed {
            let parsed = Packet::parse(State::Handshaking, self.first_read.as_slice());
            let decided = Coordinator::decide(parsed, table);
            self.phase = decided.0;
            decided.1
        } else {
            Action::Ignore
        }
    }

    /// Takes in one event and says what to do next.
    pub fn step(&mut self, event: Event, table: &Config) -> (action: Action)
        ensures
            (Move {
                phase: final(self).phase(),
                first_read: final(self).first_bytes(),
                action: action@,
            }) == transition(old(self).phase(), old(self).first_bytes(), event@, table),
    {
        match self.phase {
            Phase::AwaitFirstRead => match event {
                Event::FirstRead(bytes) => {
                    self.accept(bytes);
                    if self.phase == Phase::Parsed {
                        self.route(table)
                    } else {
                        Action::Close
                    }
                },
                Event::ReadFailed => {
                    self.phase = Phase::Failed;
                    Action::Abort(ProxyError::TransportError)
                },
                _ => Action::Ignore,
            },
            Phase::BackendConnecting => match event {
                Event::Connected => {
                    self.phase = Phase::Relaying;
                    Action::Forward
                },
                Event::ConnectFailed => {
                    self.phase = Phase::Failed;
                    Action::Abort(ProxyError::BackendConnectError)
                },
                _ => Action::Ignore,
            },
            Phase::Relaying => match event {
                Event::Forwarded => {
                    self.phase = Phase::Closed;
                    Action::StartRelays
                },
                Event::ForwardFailed => {
                    self.phase = Phase::Failed;
                    Action::Abort(ProxyError::TransportError)
                },
                _ => Action::Ignore,
            },
            _ => Action::Ignore,
        }
    }
}

/// A connection that is closed or was given up stays so, and asks for
/// nothing more.
pub proof fn lemma_terminal_phases_stay(
    phase: Phase,
    first_read: Seq<u8>,
    event: EventModel,
    table: &Config,
)
    requires
        phase == Phase::Closed || phase == Phase::Failed,
    ensures
        transition(phase, first_read, event, table) == (Move {
            phase,
            first_read,
            action: ActionModel::Ignore,
        }),
{
}

/// No move leads back to an earlier phase, and `step` never rests at the
/// phase in which the bytes wait to be decoded.
pub proof fn lemma_moves_go_forward(
    phase: Phase,
    first_read: Seq<u8>,
    event: EventModel,
    table: &Config,
)
    ensures
        rank(transition(phase, first_read, event, table).phase) >= rank(phase),
        phase != Phase::Parsed ==> transition(phase, first_read, event, table).phase
            != Phase::Parsed,
{
}

/// A backend is connected to only for a first read that decodes to a
/// handshake, and then to the destination that the table gives for its host
/// name. So a first read that is refused, for an intent that is neither
/// status nor login or for anything else, never reaches a backend.
pub proof fn lemma_connect_only_for_handshake(
    phase: Phase,
    first_read: Seq<u8>,
    event: EventModel,
    table: &Config,
)
    ensures
        transition(phase, first_read, event, table).action is Connect ==> {
            &&& phase == Phase::AwaitFirstRead
            &&& event is FirstRead
            &&& parse_spec(State::Handshaking, event->FirstRead_0) is Ok
            &&& transition(phase, first_read, event, table).phase == Phase::BackendConnecting
            &&& transition(phase, first_read, event, table).action == ActionModel::Connect(
                table.destination(
                    parse_spec(State::Handshaking, event->FirstRead_0)->Ok_0->Handshake_0.server,
                ),
            )
        },
        event is FirstRead && parse_spec(State::Handshaking, event->FirstRead_0) is Err
            ==> !(transition(phase, first_read, event, table).action is Connect),
{
}

/// The bytes that go to the backend are those of the first read: once they
/// are in, no move changes them, and they are asked to be forwarded only
/// when the backend has accepted the connection.
pub proof fn lemma_first_read_is_kept(
    phase: Phase,
    first_read: Seq<u8>,
    event: EventModel,
    table: &Config,
)
    ensures
        phase != Phase::AwaitFirstRead ==> transition(phase, first_read, event, table).first_read
            == first_read,
        phase == Phase::AwaitFirstRead && event is FirstRead ==> transition(
            phase,
            first_read,
            event,
            table,
        ).first_read == event->FirstRead_0,
        transition(phase, first_read, event, table).action is Forward ==> phase
            == Phase::BackendConnecting && event is Connected,
        transition(phase, first_read, event, table).action is StartRelays ==> phase
            == Phase::Relaying && event is Forwarded,
{
}

} // verus!
