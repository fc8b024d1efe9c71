use vstd::prelude::*;

verus! {

/// Everything that can end a connection early.
#[derive(Clone, Copy, Debug, PartialEq, Eq, Structural)]
pub enum ProxyError {
    /// The buffer ran out before a field was complete.
    UnexpectedEnd,
    /// A variable-length integer went on past the width of 32 bits.
    VarIntTooLong,
    /// The first read filled the whole buffer.
    PacketTooLarge,
    /// The handshake asked for a next state other than status or login.
    InvalidIntent,
    /// A packet arrived in a state other than the initial handshake.
    UnimplementedState,
    /// The backend could not be reached.
    BackendConnectError,
    /// A read or a write on an open connection failed.
    TransportError,
}

impl ProxyError {
    /// The text of the message, as a sequence of characters.
    pub open spec fn spec_message(self) -> Seq<char> {
        match self {
            ProxyError::UnexpectedEnd => "no bytes"@,
            ProxyError::VarIntTooLong => "VarInt too long"@,
            ProxyError::PacketTooLarge => "too big packets!"@,
            ProxyError::InvalidIntent => "wrong intent"@,
            ProxyError::UnimplementedState => "unimplemented state"@,
            ProxyError::BackendConnectError => "backend connection failed"@,
            ProxyError::TransportError => "transport failure"@,
        }
    }

    /// A short human-readable message for the log.
    pub fn message(&self) -> (text: &'static str)
        ensures
            text@ == self.spec_message(),
    {
        match self {
            ProxyError::UnexpectedEnd => "no bytes",
            ProxyError::VarIntTooLong => "VarInt too long",
            ProxyError::PacketTooLarge => "too big packets!",
            ProxyError::InvalidIntent => "wrong intent",
            ProxyError::UnimplementedState => "unimplemented state",
            ProxyError::BackendConnectError => "backend connection failed",
            ProxyError::TransportError => "transport failure",
        }
    }
}

/// The outcome of a fallible step with its value replaced by the value's
/// model; an error stands for itself.
pub open spec fn modelled<T: View>(outcome: Result<T, ProxyError>) -> Result<T::V, ProxyError> {
    match outcome {
        Ok(value) => Ok(value@),
        Err(error) => Err(error),
    }
}

} // verus!
