use vstd::prelude::*;

verus! {

/// The failures the runtime can report.
///
/// Endpoint resolution, transport, and decoding failures are kept
/// distinct, and an envelope of the wrong type is told apart from a
/// corrupt payload.
#[derive(Clone, Copy, Debug, PartialEq, Eq, Structural)]
pub enum ErrorKind {
    /// An endpoint identifier does not resolve to an open port.
    BadAddress,
    /// A send or receive failed: the destination port is gone, closed,
    /// or still at capacity.
    Transport,
    /// A read found no pending envelope; a blocking transport would
    /// have suspended the caller here.
    WouldBlock,
    /// The scheduler's round budget was spent while work was still
    /// pending — the deterministic stand-in for a run that never
    /// reaches termination.
    Busy,
    /// The envelope on the port does not carry a message type code.
    MismatchedType,
    /// The envelope carries the message type code but its bytes are
    /// not a valid flattened message.
    CorruptPayload,
}

} // verus!
