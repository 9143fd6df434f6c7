use vstd::prelude::*;

verus! {

/// The error kinds of the node core.
#[derive(Debug, Clone, Copy, PartialEq, Eq, Structural)]
pub enum CustomError {
    /// A parser ran out of bytes, or the buffer's shape is wrong.
    SerializedBufferIsInvalid,
    /// A block header failed the proof-of-work check.
    HeaderInvalidPoW,
    /// A block's computed Merkle root disagrees with its header.
    InvalidMerkleRoot,
    /// A header page does not chain from the current tip.
    HeaderChainBroken,
    /// A socket or file error.
    Io,
    /// A send or receive against a dropped channel endpoint.
    ChannelClosed,
    /// The shared state's lock was poisoned.
    LockPoisoned,
}

} // verus!
