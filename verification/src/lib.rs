use vstd::prelude::*;

pub mod config;
pub mod connection;
pub mod cursor;
pub mod decode;
pub mod error;
pub mod format;
pub mod packet;
pub mod relay;
pub mod text;

pub use config::{Config, ConfigSource, Server};
pub use connection::{Action, Coordinator, Event, Phase};
pub use cursor::Cursor;
pub use decode::{read_string, read_ushort, read_varint};
pub use error::ProxyError;
pub use packet::{HandshakePacket, Packet, State};
pub use relay::{RelayAction, RelayEvent, RelayPhase};

verus! {

/// Size of the buffer offered to the first read. A read that fills it
/// completely is taken for an oversized packet and refused.
pub const MAX_PACKET_SIZE: usize = 1024 * 2048;

/// Capacity that a connection's buffers start with.
pub const ALLOCATE_SIZE: usize = MAX_PACKET_SIZE / 8;

} // verus!
