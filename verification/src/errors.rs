//! The typed failures that decoding or encoding a DNS message can surface.

use vstd::prelude::*;

verus! {

/// Every malformed-input condition surfaces as one of these; the codec
/// never panics and never retries.
#[derive(Clone, Copy, Debug, PartialEq, Eq, Structural)]
pub enum DnsError {
    /// A fixed-width field read would run past the end of the buffer.
    InsufficientBuffer,
    /// A record's declared rdata length exceeds the remaining bytes.
    TruncatedRdata,
    /// A domain-name segment handed to the encoder is longer than 63 bytes.
    LabelTooLong,
    /// A label sequence ends without its terminating zero byte.
    MalformedLabelSequence,
    /// A compression pointer's offset lies at or past the end of the message.
    PointerOutOfBounds,
    /// A compression-pointer chain never reaches a terminator.
    CompressionLoopDetected,
    /// A textual query-type token is not one the encoder recognises.
    UnknownRequestType,
}

} // verus!
