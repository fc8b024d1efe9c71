use crate::cursor::Cursor;
use crate::decode::{
    read_string, read_ushort, read_varint, string_at, ushort_at, varint_at, Decoded,
};
use crate::error::{modelled, ProxyError};
use crate::MAX_PACKET_SIZE;
use vstd::prelude::*;

verus! {

/// The protocol states that the proxy knows by name.
#[derive(Clone, Copy, Debug, PartialEq, Eq, Structural)]
pub enum State {
    Handshaking,
    Status,
    Login,
}

/// The first packet of a connection, as far as the proxy looks at it.
#[derive(Debug, PartialEq, Eq)]
pub struct HandshakePacket {
    /// The host name that the client asked for: the routing key.
    pub server: String,
    pub port: u16,
    /// The state that the client wants to enter next.
    pub intent: State,
}

/// A decoded packet.
#[derive(Debug, PartialEq, Eq)]
pub enum Packet {
    Handshake(HandshakePacket),
}

/// What a handshake says, with the host name as a sequence of characters.
pub struct HandshakeModel {
    pub server: Seq<char>,
    pub port: u16,
    pub intent: State,
}

/// What a packet says.
pub enum PacketModel {
    Handshake(HandshakeModel),
}

impl View for HandshakePacket {
    type V = HandshakeModel;

    open spec fn view(&self) -> HandshakeModel {
        HandshakeModel { server: self.server@, port: self.port, intent: self.intent }
    }
}

impl View for Packet {
    type V = PacketModel;

    open spec fn view(&self) -> PacketModel {
        match self {
            Packet::Handshake(handshake) => PacketModel::Handshake(handshake@),
        }
    }
}

/// The state that a next-state code of the handshake names.
pub open spec fn intent_of(code: i32) -> Result<State, ProxyError> {
    if code == 1 {
        Ok(State::Status)
    } else if code == 2 {
        Ok(State::Login)
    } else {
        Err(ProxyError::InvalidIntent)
    }
}

/// The end of a handshake at `pos`, behind the host name `server`: the
/// port, then the code of the next state.
pub open spec fn handshake_tail_at(server: Seq<char>, bytes: Seq<u8>, pos: int) -> Decoded<
    PacketModel,
> {
    let port = ushort_at(bytes, pos);
    match port.result {
        Err(error) => Decoded { result: Err(error), next: port.next },
        Ok(number) => {
            let code = varint_at(bytes, port.next);
            match code.result {
                Err(error) => Decoded { result: Err(error), next: code.next },
                Ok(value) => match intent_of(value) {
                    Err(error) => Decoded { result: Err(error), next: code.next },
                    Ok(intent) => Decoded {
                        result: Ok(
                            PacketModel::Handshake(
                                HandshakeModel { server, port: number, intent },
                            ),
                        ),
                        next: code.next,
                    },
                },
            }
        },
    }
}

/// The body of a handshake at `pos`: the protocol version, which is read and
/// dropped, the host name, the port and the code of the next state.
pub open spec fn handshake_at(bytes: Seq<u8>, pos: int) -> Decoded<PacketModel> {
    let version = varint_at(bytes, pos);
    match version.result {
        Err(error) => Decoded { result: Err(error), next: version.next },
        Ok(_) => {
            let server = string_at(bytes, version.next);
            match server.result {
                Err(error) => Decoded { result: Err(error), next: server.next },
                Ok(name) => handshake_tail_at(name, bytes, server.next),
            }
        },
    }
}

/// A packet at the start of `bytes`, met in the state `state`: its length
/// and its id, neither of which is looked at, then the body that the state
/// calls for. Only the handshake has one.
pub open spec fn packet_at(state: State, bytes: Seq<u8>) -> Decoded<PacketModel> {
    let length = varint_at(bytes, 0);
    match length.result {
        Err(error) => Decoded { result: Err(error), next: length.next },
        Ok(_) => {
            let id = varint_at(bytes, length.next);
            match id.result {
                Err(error) => Decoded { result: Err(error), next: id.next },
                Ok(_) => match state {
                    State::Handshaking => handshake_at(bytes, id.next),
                    _ => Decoded { result: Err(ProxyError::UnimplementedState), next: id.next },
                },
            }
        },
    }
}

/// What the first read of a connection decodes to, in the state `state`. A
/// buffer of exactly the greatest size is refused unread.
pub open spec fn parse_spec(state: State, bytes: Seq<u8>) -> Result<PacketModel, ProxyError> {
    if bytes.len() == MAX_PACKET_SIZE {
        Err(ProxyError::PacketTooLarge)
    } else {
        packet_at(state, bytes).result
    }
}

impl Packet {
    /// Decodes the packet that `bytes` starts with.
    ///
    /// A buffer that the read filled to the brim is refused before anything
    /// is decoded. The packet's length and id are read and not checked.
    pub fn parse(state: State, bytes: &[u8]) -> (r: Result<Packet, ProxyError>)
        ensures
            modelled(r) == parse_spec(state, bytes@),
    {
        if bytes.len() == MAX_PACKET_SIZE {
            return Err(ProxyError::PacketTooLarge);
        }
        let mut reader = Cursor::new(bytes);
        let _len: i32 = read_varint(&mut reader)?;
        let _packet_id: i32 = read_varint(&mut reader)?;
        match state {
            State::Handshaking => Packet::parse_handshake(&mut reader),
            _ => Err(ProxyError::UnimplementedState),
        }
    }

    /// Decodes the body of a handshake from the cursor's position on.
    pub fn parse_handshake(reader: &mut Cursor<'_>) -> (r: Result<Packet, ProxyError>)
        ensures
            final(reader).buffer() == old(reader).buffer(),
            modelled(r) == handshake_at(old(reader).buffer(), old(reader).position()).result,
            final(reader).position() == handshake_at(
                old(reader).buffer(),
                old(reader).position(),
            ).next,
    {
        let _protocol_version: i32 = read_varint(reader)?;
        let server = read_string(reader)?;
        Packet::handshake_after_server(server, reader)
    }

    /// Decodes what follows the host name, the port and the next state, and
    /// puts the handshake together.
    pub fn handshake_after_server(server: String, reader: &mut Cursor<'_>) -> (r: Result<
        Packet,
        ProxyError,
    >)
        ensures
            final(reader).buffer() == old(reader).buffer(),
            modelled(r) == handshake_tail_at(
                server@,
                old(reader).buffer(),
                old(reader).position(),
            ).result,
            final(reader).position() == handshake_tail_at(
                server@,
                old(reader).buffer(),
                old(reader).position(),
            ).next,
    {
        let port: u16 = read_ushort(reader)?;
        let intent = match read_varint(reader)? {
            1 => State::Status,
            2 => State::Login,
            _ => {
                return Err(ProxyError::InvalidIntent);
            },
        };
        Ok(Packet::Handshake(HandshakePacket { server, port, intent }))
    }
}

} // verus!
