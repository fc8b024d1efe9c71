use mcproxy::{
    Action, Config, Coordinator, Event, HandshakePacket, Packet, Phase, ProxyError, RelayAction,
    RelayEvent, RelayPhase, Server, State,
};

fn table() -> Config {
    Config {
        config_version: 1,
        listen: "0.0.0.0:25565".to_string(),
        default_server: "10.0.0.9:25565".to_string(),
        servers: vec![
            Server {
                hostname: "lobby.example".to_string(),
                dest: "10.0.0.1:25565".to_string(),
            },
            Server {
                hostname: "play.example".to_string(),
                dest: "10.0.0.2:25565".to_string(),
            },
        ],
    }
}

fn hello(name: &str, intent: u8) -> Vec<u8> {
    let mut body = vec![0x00, 0xfd, 0x05, name.len() as u8];
    body.extend_from_slice(name.as_bytes());
    body.extend_from_slice(&[0x63, 0xdd, intent]);
    let mut packet = vec![body.len() as u8];
    packet.extend_from_slice(&body);
    packet
}

#[test]
fn new_connection_awaits_its_first_read() {
    let machine = Coordinator::new();
    assert_eq!(machine.phase(), Phase::AwaitFirstRead);
    assert_eq!(machine.first_read(), &[] as &[u8]);
}

#[test]
fn handshake_is_routed_connected_and_forwarded_unchanged() {
    let config = table();
    let first = hello("play.example", 2);
    let mut machine = Coordinator::new();

    let action = machine.step(Event::FirstRead(first.clone()), &config);
    assert_eq!(action, Action::Connect("10.0.0.2:25565".to_string()));
    assert_eq!(machine.phase(), Phase::BackendConnecting);

    let action = machine.step(Event::Connected, &config);
    assert_eq!(action, Action::Forward);
    assert_eq!(machine.phase(), Phase::Relaying);
    assert_eq!(machine.first_read(), &first[..]);

    let action = machine.step(Event::Forwarded, &config);
    assert_eq!(action, Action::StartRelays);
    assert_eq!(machine.phase(), Phase::Closed);
    assert_eq!(machine.first_read(), &first[..]);

    let mut backend: Vec<u8> = Vec::new();
    backend.extend_from_slice(machine.first_read());
    let mut phase = RelayPhase::start();
    let chunks: [&[u8]; 3] = [&[1, 2, 3], &[4], &[5, 6]];
    for chunk in chunks {
        let (next, action) = phase.step(RelayEvent::Read(chunk.len()));
        assert_eq!(action, RelayAction::Write(chunk.len()));
        backend.extend_from_slice(&chunk[..chunk.len()]);
        let (next, action) = next.step(RelayEvent::Written);
        assert_eq!(action, RelayAction::Read);
        phase = next;
    }
    let (phase, action) = phase.step(RelayEvent::Read(0));
    assert_eq!(action, RelayAction::Stop);
    assert_eq!(phase, RelayPhase::Finished);

    let mut expected = first.clone();
    expected.extend_from_slice(&[1, 2, 3, 4, 5, 6]);
    assert_eq!(backend, expected);
}

#[test]
fn handshake_for_an_unknown_host_goes_to_the_default() {
    let config = table();
    let mut machine = Coordinator::new();
    let action = machine.step(Event::FirstRead(hello("other.example", 1)), &config);
    assert_eq!(action, Action::Connect("10.0.0.9:25565".to_string()));
    assert_eq!(machine.phase(), Phase::BackendConnecting);
}

#[test]
fn handshake_with_next_state_five_reaches_no_backend() {
    let config = table();
    let first = hello("play.example", 5);
    let mut machine = Coordinator::new();
    let action = machine.step(Event::FirstRead(first), &config);
    assert_eq!(action, Action::Abort(ProxyError::InvalidIntent));
    assert_eq!(machine.phase(), Phase::Failed);
    for event in [Event::Connected, Event::Forwarded, Event::ConnectFailed] {
        assert_eq!(machine.step(event, &config), Action::Ignore);
        assert_eq!(machine.phase(), Phase::Failed);
    }
}

#[test]
fn handshake_cut_short_reaches_no_backend() {
    let config = table();
    let mut first = hello("play.example", 2);
    first.truncate(6);
    let mut machine = Coordinator::new();
    let action = machine.step(Event::FirstRead(first), &config);
    assert_eq!(action, Action::Abort(ProxyError::UnexpectedEnd));
    assert_eq!(machine.phase(), Phase::Failed);
}

#[test]
fn client_that_sends_nothing_is_closed_without_an_error() {
    let config = table();
    let mut machine = Coordinator::new();
    let action = machine.step(Event::FirstRead(Vec::new()), &config);
    assert_eq!(action, Action::Close);
    assert_eq!(machine.phase(), Phase::Closed);
    assert_eq!(machine.step(Event::Connected, &config), Action::Ignore);
    assert_eq!(machine.phase(), Phase::Closed);
}

#[test]
fn first_read_that_fails_is_a_transport_error() {
    let config = table();
    let mut machine = Coordinator::new();
    let action = machine.step(Event::ReadFailed, &config);
    assert_eq!(action, Action::Abort(ProxyError::TransportError));
    assert_eq!(machine.phase(), Phase::Failed);
}

#[test]
fn backend_that_cannot_be_reached_is_a_connect_error() {
    let config = table();
    let mut machine = Coordinator::new();
    machine.step(Event::FirstRead(hello("play.example", 2)), &config);
    let action = machine.step(Event::ConnectFailed, &config);
    assert_eq!(action, Action::Abort(ProxyError::BackendConnectError));
    assert_eq!(machine.phase(), Phase::Failed);
    assert_eq!(machine.step(Event::Connected, &config), Action::Ignore);
}

#[test]
fn forwarding_that_fails_is_a_transport_error() {
    let config = table();
    let mut machine = Coordinator::new();
    machine.step(Event::FirstRead(hello("play.example", 2)), &config);
    machine.step(Event::Connected, &config);
    let action = machine.step(Event::ForwardFailed, &config);
    assert_eq!(action, Action::Abort(ProxyError::TransportError));
    assert_eq!(machine.phase(), Phase::Failed);
}

#[test]
fn events_that_are_not_awaited_change_nothing() {
    let config = table();
    let first = hello("play.example", 2);
    let mut machine = Coordinator::new();
    for event in [
        Event::Connected,
        Event::ConnectFailed,
        Event::Forwarded,
        Event::ForwardFailed,
    ] {
        assert_eq!(machine.step(event, &config), Action::Ignore);
        assert_eq!(machine.phase(), Phase::AwaitFirstRead);
    }
    machine.step(Event::FirstRead(first.clone()), &config);
    for event in [
        Event::FirstRead(vec![1, 2, 3]),
        Event::ReadFailed,
        Event::Forwarded,
        Event::ForwardFailed,
    ] {
        assert_eq!(machine.step(event, &config), Action::Ignore);
        assert_eq!(machine.phase(), Phase::BackendConnecting);
        assert_eq!(machine.first_read(), &first[..]);
    }
    machine.step(Event::Connected, &config);
    for event in [
        Event::FirstRead(Vec::new()),
        Event::ReadFailed,
        Event::Connected,
        Event::ConnectFailed,
    ] {
        assert_eq!(machine.step(event, &config), Action::Ignore);
        assert_eq!(machine.phase(), Phase::Relaying);
        assert_eq!(machine.first_read(), &first[..]);
    }
}

#[test]
fn accept_and_route_take_the_two_halves_of_the_first_step() {
    let config = table();
    let first = hello("lobby.example", 1);
    let mut machine = Coordinator::new();
    assert_eq!(machine.route(&config), Action::Ignore);
    assert_eq!(machine.phase(), Phase::AwaitFirstRead);
    machine.accept(first.clone());
    assert_eq!(machine.phase(), Phase::Parsed);
    assert_eq!(machine.first_read(), &first[..]);
    machine.accept(vec![9, 9]);
    assert_eq!(machine.phase(), Phase::Parsed);
    assert_eq!(machine.first_read(), &first[..]);
    assert_eq!(machine.step(Event::Connected, &config), Action::Ignore);
    assert_eq!(machine.phase(), Phase::Parsed);
    assert_eq!(
        machine.route(&config),
        Action::Connect("10.0.0.1:25565".to_string())
    );
    assert_eq!(machine.phase(), Phase::BackendConnecting);
    assert_eq!(machine.route(&config), Action::Ignore);
}

#[test]
fn accept_of_nothing_closes() {
    let mut machine = Coordinator::new();
    machine.accept(Vec::new());
    assert_eq!(machine.phase(), Phase::Closed);
}

#[test]
fn decide_connects_for_a_handshake_and_gives_up_on_an_error() {
    let config = table();
    let packet = Packet::Handshake(HandshakePacket {
        server: "play.example".to_string(),
        port: 25565,
        intent: State::Login,
    });
    assert_eq!(
        Coordinator::decide(Ok(packet), &config),
        (
            Phase::BackendConnecting,
            Action::Connect("10.0.0.2:25565".to_string())
        )
    );
    let packet = Packet::Handshake(HandshakePacket {
        server: "nowhere.example".to_string(),
        port: 1,
        intent: State::Status,
    });
    assert_eq!(
        Coordinator::decide(Ok(packet), &config),
        (
            Phase::BackendConnecting,
            Action::Connect("10.0.0.9:25565".to_string())
        )
    );
    for error in [
        ProxyError::UnexpectedEnd,
        ProxyError::VarIntTooLong,
        ProxyError::PacketTooLarge,
        ProxyError::InvalidIntent,
        ProxyError::UnimplementedState,
    ] {
        assert_eq!(
            Coordinator::decide(Err(error), &config),
            (Phase::Failed, Action::Abort(error))
        );
    }
}

#[test]
fn relay_reads_writes_and_reads_again() {
    let phase = RelayPhase::start();
    assert_eq!(phase, RelayPhase::Reading);
    assert_eq!(
        phase.step(RelayEvent::Read(17)),
        (RelayPhase::Writing, RelayAction::Write(17))
    );
    assert_eq!(
        RelayPhase::Writing.step(RelayEvent::Written),
        (RelayPhase::Reading, RelayAction::Read)
    );
}

#[test]
fn relay_stops_at_the_end_of_the_stream() {
    assert_eq!(
        RelayPhase::Reading.step(RelayEvent::Read(0)),
        (RelayPhase::Finished, RelayAction::Stop)
    );
}

#[test]
fn relay_gives_up_on_a_failed_transfer() {
    assert_eq!(
        RelayPhase::Reading.step(RelayEvent::ReadFailed),
        (
            RelayPhase::Failed,
            RelayAction::Abort(ProxyError::TransportError)
        )
    );
    assert_eq!(
        RelayPhase::Writing.step(RelayEvent::WriteFailed),
        (
            RelayPhase::Failed,
            RelayAction::Abort(ProxyError::TransportError)
        )
    );
}

#[test]
fn relay_that_has_ended_stays_ended() {
    for phase in [RelayPhase::Finished, RelayPhase::Failed] {
        for event in [
            RelayEvent::Read(0),
            RelayEvent::Read(5),
            RelayEvent::ReadFailed,
            RelayEvent::Written,
            RelayEvent::WriteFailed,
        ] {
            assert_eq!(phase.step(event), (phase, RelayAction::Ignore));
        }
    }
}

#[test]
fn relay_ignores_what_it_does_not_await() {
    for event in [RelayEvent::Written, RelayEvent::WriteFailed] {
        assert_eq!(
            RelayPhase::Reading.step(event),
            (RelayPhase::Reading, RelayAction::Ignore)
        );
    }
    for event in [RelayEvent::Read(0), RelayEvent::Read(3), RelayEvent::ReadFailed] {
        assert_eq!(
            RelayPhase::Writing.step(event),
            (RelayPhase::Writing, RelayAction::Ignore)
        );
    }
}
