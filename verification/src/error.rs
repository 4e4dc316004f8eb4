use vstd::prelude::*;

verus! {

/// Everything that can end a session or reject an input.
#[derive(Clone, Copy, Debug, PartialEq, Eq, Structural)]
pub enum Error {
    /// Every connection attempt failed.
    ConnectFailed,
    /// The peer closed or reset the connection.
    ConnectionClosed,
    /// A variable-length integer ran past five bytes or past the end of its source.
    MalformedVarInt,
    /// A frame announced more bytes than its source holds.
    TruncatedFrame,
    /// A compressed body did not inflate, or not to the length it declared.
    DecompressionError,
    /// A packet of a handled kind did not have the shape of that kind.
    ProtocolDecodeError,
    /// A console line was too long to be sent.
    LocalInputRejected,
}

} // verus!
