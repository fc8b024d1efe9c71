use crate::error::ProxyError;
use vstd::prelude::*;

verus! {

/// Where one direction of a relay stands.
#[derive(Clone, Copy, Debug, PartialEq, Eq, Structural)]
pub enum RelayPhase {
    /// A read from the source is under way.
    Reading,
    /// A chunk is being written to the destination and flushed.
    Writing,
    /// The source has reached its end.
    Finished,
    /// A read or a write failed.
    Failed,
}

/// What the outside reports back to a relay.
#[derive(Clone, Copy, Debug, PartialEq, Eq, Structural)]
pub enum RelayEvent {
    /// The read returned with this many bytes; none means end of stream.
    Read(usize),
    /// The read failed.
    ReadFailed,
    /// The chunk was written and flushed.
    Written,
    /// Writing or flushing failed.
    WriteFailed,
}

/// What a relay asks for next.
#[derive(Clone, Copy, Debug, PartialEq, Eq, Structural)]
pub enum RelayAction {
    /// Read the next chunk from the source.
    Read,
    /// Write the chunk of this many bytes that was just read, all of it and
    /// as it is, then flush.
    Write(usize),
    /// End this direction. The other one is not told.
    Stop,
    /// End this direction and report the error.
    Abort(ProxyError),
    /// Nothing: the event was not awaited.
    Ignore,
}

/// The move that `event` brings about in a relay that stands at `phase`.
pub open spec fn relay_transition(phase: RelayPhase, event: RelayEvent) -> (
    RelayPhase,
    RelayAction,
) {
    match (phase, event) {
        (RelayPhase::Reading, RelayEvent::Read(count)) => if count == 0 {
            (RelayPhase::Finished, RelayAction::Stop)
        } else {
            (RelayPhase::Writing, RelayAction::Write(count))
        },
        (RelayPhase::Reading, RelayEvent::ReadFailed) => (
            RelayPhase::Failed,
            RelayAction::Abort(ProxyError::TransportError),
        ),
        (RelayPhase::Writing, RelayEvent::Written) => (RelayPhase::Reading, RelayAction::Read),
        (RelayPhase::Writing, RelayEvent::WriteFailed) => (
            RelayPhase::Failed,
            RelayAction::Abort(ProxyError::TransportError),
        ),
        _ => (phase, RelayAction::Ignore),
    }
}

impl RelayPhase {
    /// The phase that a relay starts in, with its first read under way.
    pub fn start() -> (phase: RelayPhase)
        ensures
            phase == RelayPhase::Reading,
    {
        RelayPhase::Reading
    }

    /// Takes in one event and says where the relay stands then and what to
    /// do next.
    pub fn step(self, event: RelayEvent) -> (next: (RelayPhase, RelayAction))
        ensures
            next == relay_transition(self, event),
    {
        match self {
            RelayPhase::Reading => match event {
                RelayEvent::Read(count) => {
                    if count == 0 {
                        (RelayPhase::Finished, RelayAction::Stop)
                    } else {
                        (RelayPhase::Writing, RelayAction::Write(count))
                    }
                },
                RelayEvent::ReadFailed => (
                    RelayPhase::Failed,
                    RelayAction::Abort(ProxyError::TransportError),
                ),
                _ => (self, RelayAction::Ignore),
            },
            RelayPhase::Writing => match event {
                RelayEvent::Written => (RelayPhase::Reading, RelayAction::Read),
                RelayEvent::WriteFailed => (
                    RelayPhase::Failed,
                    RelayAction::Abort(ProxyError::TransportError),
                ),
                _ => (self, RelayAction::Ignore),
            },
            _ => (self, RelayAction::Ignore),
        }
    }
}

/// A relay writes exactly what it read: a write is asked for only after a
/// read that brought bytes, and for all of them.
pub proof fn lemma_relay_writes_what_it_read(phase: RelayPhase, event: RelayEvent)
    ensures
        relay_transition(phase, event).1 is Write ==> phase == RelayPhase::Reading
            && event == RelayEvent::Read(relay_transition(phase, event).1->Write_0)
            && relay_transition(phase, event).1->Write_0 > 0,
{
}

/// A relay reads again only when the chunk before is written and flushed,
/// so chunks leave in the order in which they came.
pub proof fn lemma_relay_reads_after_flush(phase: RelayPhase, event: RelayEvent)
    ensures
        relay_transition(phase, event).1 is Read ==> phase == RelayPhase::Writing && event
            == RelayEvent::Written,
        relay_transition(phase, event).0 == RelayPhase::Reading ==> phase == RelayPhase::Reading
            || (phase == RelayPhase::Writing && event == RelayEvent::Written),
{
}

/// A relay ends when its source is at its end or a transfer fails, and
/// then stays ended.
pub proof fn lemma_relay_ends(phase: RelayPhase, event: RelayEvent)
    ensures
        relay_transition(phase, event).0 == RelayPhase::Finished <==> (phase
            == RelayPhase::Finished || (phase == RelayPhase::Reading && event == RelayEvent::Read(
            0,
        ))),
        relay_transition(phase, event).0 == RelayPhase::Failed <==> (phase == RelayPhase::Failed
            || (phase == RelayPhase::Reading && event == RelayEvent::ReadFailed) || (phase
            == RelayPhase::Writing && event == RelayEvent::WriteFailed)),
        phase == RelayPhase::Finished || phase == RelayPhase::Failed ==> relay_transition(
            phase,
            event,
        ) == (phase, RelayAction::Ignore),
{
}

} // verus!
