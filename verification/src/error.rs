//! Errors of the sACN library.
use vstd::prelude::*;

verus! {

/// Errors that arise while parsing or packing sACN packets.
#[derive(Debug, Clone, Copy, PartialEq, Eq)]
pub enum ParsePackError {
    /// Data provided to parse into a packet is invalid.
    ParseInvalidData,
    /// A priority outwith the allowed range [0, E131_MAX_PRIORITY] was parsed.
    ParseInvalidPriority,
    /// A synchronisation address outwith [0, E131_MAX_MULTICAST_UNIVERSE] was parsed.
    ParseInvalidSyncAddr,
    /// A universe outwith [E131_MIN_MULTICAST_UNIVERSE, E131_MAX_MULTICAST_UNIVERSE] was parsed.
    ParseInvalidUniverse,
    /// Invalid data was encountered when packing a packet into a buffer.
    PackInvalidData,
    /// The supplied buffer is not large enough to pack the packet into.
    PackBufferInsufficient,
    /// The supplied buffer does not contain enough data.
    ParseInsufficientData,
    /// The PDU flags (the top four bits of the flags and length field) are invalid.
    ParsePduInvalidFlags(u8),
    /// The PDU length is invalid.
    PduInvalidLength(usize),
    /// The PDU vector is invalid or unsupported.
    PduInvalidVector(u32),
    /// The received CID could not be read.
    UuidError,
    /// A received string was not valid UTF-8.
    Utf8Error,
    /// The source name field is not null terminated.
    SourceNameInvalid,
    /// A universe discovery page is higher than the last page.
    ParseInvalidPage,
    /// The universes of a universe discovery packet are not in ascending order.
    ParseInvalidUniverseOrder,
}

/// Errors of the sACN library.
#[derive(Debug, Clone, Copy, PartialEq, Eq)]
pub enum SacnError {
    /// A string was not valid UTF-8.
    Str,
    /// A UUID could not be handled.
    Uuid,
    /// A packet could not be parsed or packed.
    SacnParsePackError(ParsePackError),
    /// An invalid or malformed source name was used.
    MalformedSourceName,
    /// An action was attempted with a priority above E131_MAX_PRIORITY.
    InvalidPriority,
    /// The limit for the number of supported sources has been reached.
    SourcesExceededError,
    /// A source was discovered.
    SourceDiscovered,
    /// The capacity of a single universe (UNIVERSE_CHANNEL_CAPACITY) was exceeded.
    ExceedUniverseCapacity,
    /// A universe outwith [E131_MIN_MULTICAST_UNIVERSE, E131_MAX_MULTICAST_UNIVERSE] + E131_DISCOVERY_UNIVERSE was used.
    IllegalUniverse,
    /// A universe was used that was not registered first.
    UniverseNotRegistered,
    /// An IP version was used when the other was expected.
    IpVersionError,
    /// An IP version other than IPv4 or IPv6 was used.
    UnsupportedIpVersion,
    /// A sender that has already been terminated was used.
    SenderAlreadyTerminated,
    /// DMX data could not be merged.
    DmxMergeError,
    /// A packet was received out of sequence.
    OutOfSequence,
    /// A source terminated a universe: the source CID and the universe.
    UniverseTerminated([u8; 16], u16),
    /// A source universe timed out: the source CID and the universe.
    UniverseTimeout([u8; 16], u16),
    /// A universe that was looked for was not found.
    UniverseNotFound,
    /// A source that was looked for was not found.
    SourceNotFound,
    /// The operation is unsupported on the current OS.
    OsOperationUnsupported,
    /// The source has been corrupted.
    SourceCorrupt,
    /// An argument was invalid, for example empty data to send.
    InvalidInput,
}

/// The parse/pack error `e` lifted into the library's error type.
pub open spec fn pp(e: ParsePackError) -> SacnError {
    SacnError::SacnParsePackError(e)
}

} // verus!
