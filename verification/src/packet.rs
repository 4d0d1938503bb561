//! Parsing and packing of sACN packets (ANSI E1.31-2018) and the constants of
//! the protocol.
//!
//! A packet is parsed from bytes into an [`AcnRootLayerProtocol`] and packed
//! back into bytes. Both directions are specified byte for byte:
//! `spec_parse_packet` says what parsing a buffer gives (a packet, an error,
//! or nothing where a buffer is not accepted at all), and `encode_packet`
//! says which bytes a packet packs into.
use vstd::prelude::*;

use crate::codec::{be16, be_value, overlay, read_u16_at, read_uint_at, u16_bytes, u16s_bytes, u32_bytes, write_u16_at, write_u16s_at, write_u32_at, zero_bytes};
use crate::error::{pp, ParsePackError, SacnError};

verus! {

/// The maximum number of universes per page in a universe discovery packet.
pub const DISCOVERY_UNI_PER_PAGE: usize = 512;

/// The universe used for universe discovery as defined in ANSI E1.31-2018 Appendix A.
pub const E131_DISCOVERY_UNIVERSE: u16 = 64214;

/// The default priority used for the E1.31 packet priority field, as per ANSI E1.31-2018 Section 4.1 Table 4-1.
pub const E131_DEFAULT_PRIORITY: u8 = 100;

/// The maximum allowed priority for a E1.31 packet, as per ANSI E1.31-2018 Section 6.2.3.
pub const E131_MAX_PRIORITY: u8 = 200;

/// Value of the highest byte of the IPv4 multicast address as specified in section 9.3.1 of ANSI E1.31-2018.
pub const E131_MULTICAST_IPV4_HIGHEST_BYTE: u8 = 239;

/// Value of the second highest byte of the IPv4 multicast address as specified in section 9.3.1 of ANSI E1.31-2018.
pub const E131_MULTICAST_IPV4_SECOND_BYTE: u8 = 255;

/// The maximum universe number that can be used with the E1.31 protocol as specified in section 9.1.1 of ANSI E1.31-2018.
pub const E131_MAX_MULTICAST_UNIVERSE: u16 = 63999;

/// The minimum universe number that can be used with the E1.31 protocol as specified in section 9.1.1 of ANSI E1.31-2018.
pub const E131_MIN_MULTICAST_UNIVERSE: u16 = 1;

/// The synchronisation address used to indicate that no synchronisation is required, ANSI E1.31-2018 Section 6.2.4.1.
pub const E131_NO_SYNC_ADDR: u16 = 0;

/// The interval between universe discovery adverts in milliseconds, ANSI E1.31-2018 Appendix A.
pub const E131_UNIVERSE_DISCOVERY_INTERVAL: u64 = 10000;

/// The exclusive lower bound of the sequence number difference within which a packet is discarded,
/// ANSI E1.31-2018 Section 6.7.2.
pub const E131_SEQ_DIFF_DISCARD_LOWER_BOUND: isize = -20;

/// The inclusive upper bound of the sequence number difference within which a packet is discarded,
/// ANSI E1.31-2018 Section 6.7.2.
pub const E131_SEQ_DIFF_DISCARD_UPPER_BOUND: isize = 0;

/// The bit mask of the preview-data option within the options field, ANSI E1.31-2018 Section 6.2.6.
pub const E131_PREVIEW_DATA_OPTION_BIT_MASK: u8 = 0b1000_0000;

/// The bit mask of the stream-termination option within the options field, ANSI E1.31-2018 Section 6.2.6.
pub const E131_STREAM_TERMINATION_OPTION_BIT_MASK: u8 = 0b0100_0000;

/// The bit mask of the force-synchronisation option within the options field, ANSI E1.31-2018 Section 6.2.6.
pub const E131_FORCE_SYNCHRONISATION_OPTION_BIT_MASK: u8 = 0b0010_0000;

/// The minimum length of the discovery layer of a universe discovery packet, ANSI E1.31-2018 Section 8 Table 8-9.
pub const E131_UNIVERSE_DISCOVERY_LAYER_MIN_LENGTH: usize = 8;

/// The maximum length of the discovery layer of a universe discovery packet, ANSI E1.31-2018 Section 8 Table 8-9.
pub const E131_UNIVERSE_DISCOVERY_LAYER_MAX_LENGTH: usize = 1032;

/// The root layer length of a synchronisation packet, ANSI E1.31-2018 Section 4.2 Table 4-2.
pub const E131_UNIVERSE_SYNC_PACKET_ROOT_LENGTH: usize = 33;

/// The framing layer length of a synchronisation packet, ANSI E1.31-2018 Section 4.2 Table 4-2.
pub const E131_UNIVERSE_SYNC_PACKET_FRAMING_LAYER_LENGTH: usize = 11;

/// The minimum framing layer length of a universe discovery packet, ANSI E1.31-2018 Section 4.3 Table 4-3.
pub const E131_UNIVERSE_DISCOVERY_FRAMING_LAYER_MIN_LENGTH: usize = 82;

/// The number of stream termination packets sent when a source terminates a stream, ANSI E1.31-2018 Section 6.2.6.
pub const E131_TERMINATE_STREAM_PACKET_COUNT: usize = 3;

/// The length of the PDU flags and length field in bytes.
pub const E131_PDU_LENGTH_FLAGS_LENGTH: usize = 2;

/// The PDU flags of an ANSI E1.31-2018 packet, ANSI E1.31-2018 Section 4 Tables 4-1, 4-2, 4-3.
pub const E131_PDU_FLAGS: u8 = 0x70;

/// The length in bytes of the root layer vector field.
pub const E131_ROOT_LAYER_VECTOR_LENGTH: usize = 4;

/// The length in bytes of the E1.31 framing layer vector field.
pub const E131_FRAMING_LAYER_VECTOR_LENGTH: usize = 4;

/// The length in bytes of the CID field.
pub const E131_CID_FIELD_LENGTH: usize = 16;

/// The length in bytes of the Source Name field.
pub const E131_SOURCE_NAME_FIELD_LENGTH: usize = 64;

/// The length in bytes of the Synchronisation Address field.
pub const E131_SYNC_ADDR_FIELD_LENGTH: usize = 2;

/// The initial sequence number.
pub const STARTING_SEQUENCE_NUMBER: u8 = 0;

/// The root layer vector of an E1.31 data packet, ANSI E1.31-2018 Appendix A.
pub const VECTOR_ROOT_E131_DATA: u32 = 0x0000_0004;

/// The root layer vector of an E1.31 universe discovery or synchronisation packet, ANSI E1.31-2018 Appendix A.
pub const VECTOR_ROOT_E131_EXTENDED: u32 = 0x0000_0008;

/// The framing layer vector of a synchronisation packet, ANSI E1.31-2018 Appendix A.
pub const VECTOR_E131_EXTENDED_SYNCHRONIZATION: u32 = 0x0000_0001;

/// The framing layer vector of a universe discovery packet, ANSI E1.31-2018 Appendix A.
pub const VECTOR_E131_EXTENDED_DISCOVERY: u32 = 0x0000_0002;

/// The framing layer vector of a data packet, ANSI E1.31-2018 Appendix A.
pub const VECTOR_E131_DATA_PACKET: u32 = 0x0000_0002;

/// The DMP layer vector of a data packet (set property message), ANSI E1.31-2018 Appendix A.
pub const VECTOR_DMP_SET_PROPERTY: u8 = 0x02;

/// The universe discovery layer vector (list of universes), ANSI E1.31-2018 Appendix A.
pub const VECTOR_UNIVERSE_DISCOVERY_UNIVERSE_LIST: u32 = 0x0000_0001;

/// The port used by the ACN family of protocols, ANSI E1.31-2018 Appendix A.
pub const ACN_SDT_MULTICAST_PORT: u16 = 5568;

/// The payload capacity of a universe: 512 DMX slots and a start code.
pub const UNIVERSE_CHANNEL_CAPACITY: usize = 513;

/// The synchronisation universe of packets that need no synchronisation, ANSI E1.31-2018 Section 6.2.4.1.
pub const NO_SYNC_UNIVERSE: u16 = 0;

/// The timeout before data loss is assumed for a source, in milliseconds, ANSI E1.31-2018 Appendix A.
pub const E131_NETWORK_DATA_LOSS_TIMEOUT: u64 = 2500;

/// The timeout before a discovered source is assumed lost, in milliseconds, ANSI E1.31-2018 Section 12.2.
pub const UNIVERSE_DISCOVERY_SOURCE_TIMEOUT: u64 = 2500;

/// The value of the "Address Type and Data Type" field of a data packet DMP layer.
pub const E131_DMP_LAYER_ADDRESS_DATA_FIELD: u8 = 0xa1;

/// The size of the root layer preamble.
pub const E131_PREAMBLE_SIZE: u16 = 0x0010;

/// The size of the root layer postamble.
pub const E131_POSTAMBLE_SIZE: u16 = 0x0;

/// The ACN packet identifier, ANSI E1.31-2018 Section 5.3.
pub const E131_ACN_PACKET_IDENTIFIER: [u8; 12] = [0x41, 0x53, 0x43, 0x2d, 0x45, 0x31, 0x2e, 0x31, 0x37, 0x00, 0x00, 0x00];

/// The ACN packet identifier as a sequence of bytes.
pub open spec fn acn_packet_identifier() -> Seq<u8> {
    seq![0x41u8, 0x53, 0x43, 0x2d, 0x45, 0x31, 0x2e, 0x31, 0x37, 0x00, 0x00, 0x00]
}

/// A universe that may be used: a multicast universe or the discovery universe.
pub open spec fn universe_in_range(universe: u16) -> bool {
    universe == E131_DISCOVERY_UNIVERSE || (E131_MIN_MULTICAST_UNIVERSE <= universe
        && universe <= E131_MAX_MULTICAST_UNIVERSE)
}

/// Checks that the given universe may be used: within
/// [E131_MIN_MULTICAST_UNIVERSE, E131_MAX_MULTICAST_UNIVERSE] or the discovery universe.
///
/// # Errors
/// IllegalUniverse: returned if the universe is outwith that range.
pub fn is_universe_in_range(universe: u16) -> (r: Result<(), SacnError>)
    ensures
        r is Ok <==> universe_in_range(universe),
        r is Err ==> r == Err::<(), SacnError>(SacnError::IllegalUniverse),
{
    if (universe != E131_DISCOVERY_UNIVERSE) && (universe < E131_MIN_MULTICAST_UNIVERSE
        || universe > E131_MAX_MULTICAST_UNIVERSE) {
        return Err(SacnError::IllegalUniverse);
    }
    Ok(())
}

/// An IPv4 multicast socket address.
#[derive(Debug, Clone, Copy, PartialEq, Eq)]
pub struct Ipv4MulticastAddr {
    /// The four octets of the address.
    pub octets: [u8; 4],
    /// The port.
    pub port: u16,
}

/// An IPv6 multicast socket address.
#[derive(Debug, Clone, Copy, PartialEq, Eq)]
pub struct Ipv6MulticastAddr {
    /// The eight 16-bit segments of the address.
    pub segments: [u16; 8],
    /// The port.
    pub port: u16,
}

/// Converts the given universe into its IPv4 multicast address with the ACN port,
/// as specified in section 9.3.1 of ANSI E1.31-2018: 239.255.<high byte>.<low byte>.
///
/// # Errors
/// IllegalUniverse: returned if the universe is outwith the allowed range of universes.
pub fn universe_to_ipv4_multicast_addr(universe: u16) -> (r: Result<Ipv4MulticastAddr, SacnError>)
    ensures
        r is Ok <==> universe_in_range(universe),
        r is Err ==> r == Err::<Ipv4MulticastAddr, SacnError>(SacnError::IllegalUniverse),
        r matches Ok(a) ==> a.octets@ == seq![239u8, 255u8, (universe / 256) as u8, (universe % 256) as u8]
            && a.port == ACN_SDT_MULTICAST_PORT,
{
    is_universe_in_range(universe)?;
    let high_byte: u8 = (universe / 256) as u8;
    let low_byte: u8 = (universe % 256) as u8;
    let octets: [u8; 4] = [E131_MULTICAST_IPV4_HIGHEST_BYTE, E131_MULTICAST_IPV4_SECOND_BYTE, high_byte, low_byte];
    let r = Ipv4MulticastAddr { octets, port: ACN_SDT_MULTICAST_PORT };
    assert(r.octets@ =~= seq![239u8, 255u8, (universe / 256) as u8, (universe % 256) as u8]);
    Ok(r)
}

/// Converts the given universe into its IPv6 multicast address with the ACN port,
/// as specified in section 9.3.2 of ANSI E1.31-2018: FF18::8300:<universe>.
///
/// # Errors
/// IllegalUniverse: returned if the universe is outwith the allowed range of universes.
pub fn universe_to_ipv6_multicast_addr(universe: u16) -> (r: Result<Ipv6MulticastAddr, SacnError>)
    ensures
        r is Ok <==> universe_in_range(universe),
        r is Err ==> r == Err::<Ipv6MulticastAddr, SacnError>(SacnError::IllegalUniverse),
        r matches Ok(a) ==> a.segments@ == seq![0xFF18u16, 0, 0, 0, 0, 0, 0x8300, universe]
            && a.port == ACN_SDT_MULTICAST_PORT,
{
    is_universe_in_range(universe)?;
    let segments: [u16; 8] = [0xFF18, 0, 0, 0, 0, 0, 0x8300, universe];
    let r = Ipv6MulticastAddr { segments, port: ACN_SDT_MULTICAST_PORT };
    assert(r.segments@ =~= seq![0xFF18u16, 0, 0, 0, 0, 0, 0x8300, universe]);
    Ok(r)
}

/// Fills the first `n` bytes of `buf` (all of it where it is shorter) with 0.
pub fn zeros(buf: &mut [u8], n: usize)
    ensures
        final(buf)@ == overlay(old(buf)@, 0, zero_bytes(if n <= old(buf)@.len() { n as nat } else { old(buf)@.len() })),
{
    zero_range(buf, 0, n);
}

/// Fills `n` bytes of `buf` from `start` on with 0, stopping at the end of `buf`.
fn zero_range(buf: &mut [u8], start: usize, n: usize)
    requires
        start <= old(buf)@.len(),
    ensures
        final(buf)@ == overlay(old(buf)@, start as int, zero_bytes(
            if n <= old(buf)@.len() - start { n as nat } else { (old(buf)@.len() - start) as nat })),
{
    let len = buf.len();
    let end: usize = if n <= len - start { start + n } else { len };
    let ghost old_buf = buf@;
    let mut i = start;
    while i < end
        invariant
            start <= i <= end <= len,
            len == old_buf.len(),
            buf@ == overlay(old_buf, start as int, zero_bytes((i - start) as nat)),
        decreases end - i,
    {
        buf[i] = 0;
        i = i + 1;
        assert(buf@ =~= overlay(old_buf, start as int, zero_bytes((i - start) as nat)));
    }
}

/// The index of the first null byte of `f`, or its length where it holds none.
pub open spec fn null_index(f: Seq<u8>) -> nat
    decreases f.len(),
{
    if f.len() == 0 {
        0
    } else if f[0] == 0 {
        0
    } else {
        1 + null_index(f.drop_first())
    }
}

/// `null_index` is the first null byte.
pub proof fn lemma_null_index(f: Seq<u8>)
    ensures
        null_index(f) <= f.len(),
        forall|j: int| 0 <= j < null_index(f) ==> f[j] != 0,
        null_index(f) < f.len() ==> f[null_index(f) as int] == 0,
    decreases f.len(),
{
    if f.len() > 0 && f[0] != 0 {
        lemma_null_index(f.drop_first());
        assert forall|j: int| 0 <= j < null_index(f) implies f[j] != 0 by {
            if j > 0 {
                assert(f[j] == f.drop_first()[j - 1]);
            }
        }
    }
}

/// A position `n` whose bytes before are not null and that is the end or a null byte is `null_index`.
pub proof fn lemma_null_index_unique(f: Seq<u8>, n: int)
    requires
        0 <= n <= f.len(),
        forall|j: int| 0 <= j < n ==> f[j] != 0,
        n < f.len() ==> f[n] == 0,
    ensures
        null_index(f) == n,
    decreases f.len(),
{
    if n > 0 {
        assert(f[0] != 0);
        lemma_null_index_unique(f.drop_first(), n - 1);
    }
}

/// The source name held in the null terminated field `f`: the UTF-8 text
/// before the first null byte.
pub open spec fn spec_source_name(f: Seq<u8>) -> Result<Seq<char>, SacnError> {
    let n = null_index(f);
    if n == f.len() {
        Err(pp(ParsePackError::SourceNameInvalid))
    } else if !vstd::utf8::valid_utf8(f.take(n as int)) {
        Err(SacnError::Str)
    } else {
        Ok(vstd::utf8::decode_utf8(f.take(n as int)))
    }
}

/// Takes the given null terminated byte buffer (e.g. a C char array) and
/// parses it into a str.
///
/// # Errors
/// SourceNameInvalid: returned if the buffer holds no null byte, as required by ANSI E1.31-2018 Section 6.2.2.
///
/// Str: returned if the bytes before the first null byte are not valid UTF-8.
pub fn parse_source_name_str(buf: &[u8]) -> (r: Result<&str, SacnError>)
    ensures
        match r {
            Ok(s) => spec_source_name(buf@) == Ok::<Seq<char>, SacnError>(s@),
            Err(e) => spec_source_name(buf@) == Err::<Seq<char>, SacnError>(e),
        },
{
    let mut source_name_length = buf.len();
    let mut i: usize = 0;
    while i < buf.len()
        invariant_except_break
            source_name_length == buf@.len(),
        invariant
            0 <= i <= buf@.len(),
            forall|j: int| 0 <= j < i ==> buf@[j] != 0,
        ensures
            source_name_length <= buf@.len(),
            forall|j: int| 0 <= j < source_name_length ==> buf@[j] != 0,
            source_name_length < buf@.len() ==> buf@[source_name_length as int] == 0,
        decreases buf@.len() - i,
    {
        if buf[i] == 0 {
            source_name_length = i;
            break;
        }
        i = i + 1;
    }
    proof {
        lemma_null_index_unique(buf@, source_name_length as int);
    }
    if source_name_length == buf.len() {
        return Err(pp_err(ParsePackError::SourceNameInvalid));
    }
    let name_bytes = vstd::slice::slice_subrange(buf, 0, source_name_length);
    assert(name_bytes@ =~= buf@.take(source_name_length as int));
    match crate::codec::utf8_str(name_bytes) {
        Some(s) => Ok(s),
        None => Err(SacnError::Str),
    }
}

/// The parse/pack error `e` lifted into the library's error type.
pub fn pp_err(e: ParsePackError) -> (r: SacnError)
    ensures
        r == pp(e),
{
    SacnError::SacnParsePackError(e)
}

/// Device Management Protocol PDU with SET PROPERTY vector, used for sACN data packets.
#[derive(Debug, Clone, PartialEq, Eq, Hash)]
pub struct DataPacketDmpLayer {
    /// DMX data property values (DMX start code + 512 slots).
    pub property_values: Vec<u8>,
}

impl View for DataPacketDmpLayer {
    type V = Seq<u8>;

    open spec fn view(&self) -> Seq<u8> {
        self.property_values@
    }
}

/// Framing layer PDU for sACN data packets.
#[derive(Debug, Clone, PartialEq, Eq, Hash)]
pub struct DataPacketFramingLayer {
    /// The name of the source.
    pub source_name: String,
    /// Priority of this data packet.
    pub priority: u8,
    /// Synchronization address.
    pub synchronization_address: u16,
    /// The sequence number of this packet.
    pub sequence_number: u8,
    /// If this packet's data is preview data.
    pub preview_data: bool,
    /// If transmission on this universe is terminated.
    pub stream_terminated: bool,
    /// Force synchronization if no synchronization packets are received.
    pub force_synchronization: bool,
    /// The universe the DMX data is transmitted for.
    pub universe: u16,
    /// DMP layer containing the DMX data.
    pub data: DataPacketDmpLayer,
}

/// The model of a data packet framing layer.
pub struct DataPacketModel {
    pub source_name: Seq<char>,
    pub priority: u8,
    pub synchronization_address: u16,
    pub sequence_number: u8,
    pub preview_data: bool,
    pub stream_terminated: bool,
    pub force_synchronization: bool,
    pub universe: u16,
    pub property_values: Seq<u8>,
}

impl View for DataPacketFramingLayer {
    type V = DataPacketModel;

    open spec fn view(&self) -> DataPacketModel {
        DataPacketModel {
            source_name: self.source_name@,
            priority: self.priority,
            synchronization_address: self.synchronization_address,
            sequence_number: self.sequence_number,
            preview_data: self.preview_data,
            stream_terminated: self.stream_terminated,
            force_synchronization: self.force_synchronization,
            universe: self.universe,
            property_values: self.data@,
        }
    }
}

/// sACN synchronization packet PDU.
#[derive(Debug, Clone, Copy, PartialEq, Eq, Hash)]
pub struct SynchronizationPacketFramingLayer {
    /// The sequence number of the packet.
    pub sequence_number: u8,
    /// The address to synchronize.
    pub synchronization_address: u16,
}

impl View for SynchronizationPacketFramingLayer {
    type V = SynchronizationPacketFramingLayer;

    open spec fn view(&self) -> SynchronizationPacketFramingLayer {
        *self
    }
}

/// Universe discovery layer PDU.
#[derive(Debug, Clone, PartialEq, Eq, Hash)]
pub struct UniverseDiscoveryPacketUniverseDiscoveryLayer {
    /// Current page of the discovery packet.
    pub page: u8,
    /// The number of the final page.
    pub last_page: u8,
    /// List of universes.
    pub universes: Vec<u16>,
}

/// The model of a universe discovery layer.
pub struct DiscoveryLayerModel {
    pub page: u8,
    pub last_page: u8,
    pub universes: Seq<u16>,
}

impl View for UniverseDiscoveryPacketUniverseDiscoveryLayer {
    type V = DiscoveryLayerModel;

    open spec fn view(&self) -> DiscoveryLayerModel {
        DiscoveryLayerModel { page: self.page, last_page: self.last_page, universes: self.universes@ }
    }
}

/// Framing layer PDU for sACN universe discovery packets.
#[derive(Debug, Clone, PartialEq, Eq, Hash)]
pub struct UniverseDiscoveryPacketFramingLayer {
    /// Name of the source.
    pub source_name: String,
    /// Universe discovery layer.
    pub data: UniverseDiscoveryPacketUniverseDiscoveryLayer,
}

/// The model of a universe discovery packet framing layer.
pub struct DiscoveryPacketModel {
    pub source_name: Seq<char>,
    pub data: DiscoveryLayerModel,
}

impl View for UniverseDiscoveryPacketFramingLayer {
    type V = DiscoveryPacketModel;

    open spec fn view(&self) -> DiscoveryPacketModel {
        DiscoveryPacketModel { source_name: self.source_name@, data: self.data@ }
    }
}

/// Payload of the Root Layer PDU.
#[derive(Debug, Clone, PartialEq, Eq, Hash)]
pub enum E131RootLayerData {
    /// DMX data packet.
    DataPacket(DataPacketFramingLayer),
    /// Synchronization packet.
    SynchronizationPacket(SynchronizationPacketFramingLayer),
    /// Universe discovery packet.
    UniverseDiscoveryPacket(UniverseDiscoveryPacketFramingLayer),
}

/// The model of the payload of the root layer PDU.
pub enum RootDataModel {
    DataPacket(DataPacketModel),
    SynchronizationPacket(SynchronizationPacketFramingLayer),
    UniverseDiscoveryPacket(DiscoveryPacketModel),
}

impl View for E131RootLayerData {
    type V = RootDataModel;

    open spec fn view(&self) -> RootDataModel {
        match self {
            E131RootLayerData::DataPacket(d) => RootDataModel::DataPacket(d@),
            E131RootLayerData::SynchronizationPacket(s) => RootDataModel::SynchronizationPacket(*s),
            E131RootLayerData::UniverseDiscoveryPacket(u) => RootDataModel::UniverseDiscoveryPacket(u@),
        }
    }
}

/// Root layer protocol data unit (PDU).
#[derive(Debug, Clone, PartialEq, Eq, Hash)]
pub struct E131RootLayer {
    /// Sender CID (a UUID, as its 16 bytes).
    pub cid: [u8; 16],
    /// Data carried by the Root Layer PDU.
    pub data: E131RootLayerData,
}

/// The model of a packet: the CID bytes and the payload.
pub struct PacketModel {
    pub cid: Seq<u8>,
    pub data: RootDataModel,
}

impl View for E131RootLayer {
    type V = PacketModel;

    open spec fn view(&self) -> PacketModel {
        PacketModel { cid: self.cid@, data: self.data@ }
    }
}

/// Root layer protocol of the Architecture for Control Networks (ACN) protocol.
#[derive(Debug, Clone, PartialEq, Eq, Hash)]
pub struct AcnRootLayerProtocol {
    /// The PDU this packet carries.
    pub pdu: E131RootLayer,
}

impl View for AcnRootLayerProtocol {
    type V = PacketModel;

    open spec fn view(&self) -> PacketModel {
        self.pdu@
    }
}

/// The model of a parse outcome: `None` where the buffer is not accepted at
/// all (the bounds of the buffer are not checked before it is read),
/// otherwise the packet or the error.
pub open spec fn lift<T: View>(r: Option<Result<T, SacnError>>) -> Option<Result<T::V, SacnError>> {
    match r {
        None => None,
        Some(Ok(t)) => Some(Ok(t@)),
        Some(Err(e)) => Some(Err(e)),
    }
}

/// The model of a parse result.
pub open spec fn lift_result<T: View>(r: Result<T, SacnError>) -> Result<T::V, SacnError> {
    match r {
        Ok(t) => Ok(t@),
        Err(e) => Err(e),
    }
}

/// The PDU length held in the low 12 bits of the flags and length field at the start of `b`.
pub open spec fn pdu_length(b: Seq<u8>) -> nat {
    (be16(b[0], b[1]) % 4096) as nat
}

/// The flags and length and the vector at the start of a PDU: its length and its vector.
pub open spec fn spec_pdu_info(b: Seq<u8>, vector_length: nat) -> Result<(nat, nat), SacnError> {
    if b.len() < 2 + vector_length {
        Err(pp(ParsePackError::ParseInsufficientData))
    } else if b[0] & 0xf0u8 != 0x70u8 {
        Err(pp(ParsePackError::ParsePduInvalidFlags(b[0] & 0xf0u8)))
    } else {
        Ok((pdu_length(b), be_value(b.subrange(2, 2 + vector_length as int))))
    }
}

/// The DMP layer of a data packet held in `b`: its property values.
pub open spec fn spec_parse_dmp(b: Seq<u8>) -> Option<Result<Seq<u8>, SacnError>> {
    match spec_pdu_info(b, 1) {
        Err(e) => Some(Err(e)),
        Ok((length, vector)) => if b.len() < length {
            Some(Err(pp(ParsePackError::ParseInsufficientData)))
        } else if vector != VECTOR_DMP_SET_PROPERTY {
            Some(Err(pp(ParsePackError::PduInvalidVector(vector as u32))))
        } else if b.len() < 4 {
            None
        } else if b[3] != E131_DMP_LAYER_ADDRESS_DATA_FIELD {
            Some(Err(pp(ParsePackError::ParseInvalidData)))
        } else if b.len() < 6 {
            None
        } else if be16(b[4], b[5]) != 0 {
            Some(Err(pp(ParsePackError::ParseInvalidData)))
        } else if b.len() < 8 {
            None
        } else if be16(b[6], b[7]) != 1 {
            Some(Err(pp(ParsePackError::ParseInvalidData)))
        } else if b.len() < 10 {
            None
        } else if be16(b[8], b[9]) + 10 != length {
            Some(Err(pp(ParsePackError::ParseInsufficientData)))
        } else if length - 10 > UNIVERSE_CHANNEL_CAPACITY {
            Some(Err(pp(ParsePackError::ParseInvalidData)))
        } else {
            Some(Ok(b.subrange(10, length as int)))
        },
    }
}

/// A universe that data may be sent on: within
/// [E131_MIN_MULTICAST_UNIVERSE, E131_MAX_MULTICAST_UNIVERSE].
pub open spec fn multicast_universe(u: int) -> bool {
    E131_MIN_MULTICAST_UNIVERSE <= u <= E131_MAX_MULTICAST_UNIVERSE
}

/// The framing layer of a data packet held in `b`.
pub open spec fn spec_parse_data_framing(b: Seq<u8>) -> Option<Result<DataPacketModel, SacnError>> {
    match spec_pdu_info(b, 4) {
        Err(e) => Some(Err(e)),
        Ok((length, vector)) => if b.len() < length {
            Some(Err(pp(ParsePackError::ParseInsufficientData)))
        } else if vector != VECTOR_E131_DATA_PACKET {
            Some(Err(pp(ParsePackError::PduInvalidVector(vector as u32))))
        } else if b.len() < 70 {
            None
        } else {
            match spec_source_name(b.subrange(6, 70)) {
                Err(e) => Some(Err(e)),
                Ok(name) => if b.len() < 71 {
                    None
                } else if b[70] > E131_MAX_PRIORITY {
                    Some(Err(pp(ParsePackError::ParseInvalidPriority)))
                } else if b.len() < 73 {
                    None
                } else if be16(b[71], b[72]) > E131_MAX_MULTICAST_UNIVERSE {
                    Some(Err(pp(ParsePackError::ParseInvalidSyncAddr)))
                } else if b.len() < 77 {
                    None
                } else if !multicast_universe(be16(b[75], b[76])) {
                    Some(Err(pp(ParsePackError::ParseInvalidUniverse)))
                } else if length < 77 {
                    None
                } else {
                    match spec_parse_dmp(b.subrange(77, length as int)) {
                        None => None,
                        Some(Err(e)) => Some(Err(e)),
                        Some(Ok(values)) => Some(Ok(DataPacketModel {
                            source_name: name,
                            priority: b[70],
                            synchronization_address: be16(b[71], b[72]) as u16,
                            sequence_number: b[73],
                            preview_data: b[74] & E131_PREVIEW_DATA_OPTION_BIT_MASK != 0,
                            stream_terminated: b[74] & E131_STREAM_TERMINATION_OPTION_BIT_MASK != 0,
                            force_synchronization: b[74] & E131_FORCE_SYNCHRONISATION_OPTION_BIT_MASK != 0,
                            universe: be16(b[75], b[76]) as u16,
                            property_values: values,
                        })),
                    }
                },
            }
        },
    }
}

/// The framing layer of a synchronization packet held in `b`.
pub open spec fn spec_parse_sync(b: Seq<u8>) -> Result<SynchronizationPacketFramingLayer, SacnError> {
    match spec_pdu_info(b, 4) {
        Err(e) => Err(e),
        Ok((length, vector)) => if b.len() < length {
            Err(pp(ParsePackError::ParseInsufficientData))
        } else if vector != VECTOR_E131_EXTENDED_SYNCHRONIZATION {
            Err(pp(ParsePackError::PduInvalidVector(vector as u32)))
        } else if length != E131_UNIVERSE_SYNC_PACKET_FRAMING_LAYER_LENGTH {
            Err(pp(ParsePackError::PduInvalidLength(length as usize)))
        } else if !multicast_universe(be16(b[7], b[8])) {
            Err(pp(ParsePackError::ParseInvalidUniverse))
        } else {
            Ok(SynchronizationPacketFramingLayer {
                sequence_number: b[6],
                synchronization_address: be16(b[7], b[8]) as u16,
            })
        },
    }
}

/// The `k` network byte order `u16` values at the start of `b`.
pub open spec fn be16_values(b: Seq<u8>, k: nat) -> Seq<u16> {
    Seq::new(k, |j: int| be16(b[2 * j], b[2 * j + 1]) as u16)
}

/// Every value of `s` is lower than the values after it.
pub open spec fn strictly_ascending(s: Seq<u16>) -> bool {
    forall|i: int, j: int| 0 <= i < j < s.len() ==> s[i] < s[j]
}

/// The universe discovery layer held in `b`.
pub open spec fn spec_parse_discovery_layer(b: Seq<u8>) -> Result<DiscoveryLayerModel, SacnError> {
    match spec_pdu_info(b, 4) {
        Err(e) => Err(e),
        Ok((length, vector)) => if b.len() < length {
            Err(pp(ParsePackError::ParseInsufficientData))
        } else if vector != VECTOR_UNIVERSE_DISCOVERY_UNIVERSE_LIST {
            Err(pp(ParsePackError::PduInvalidVector(vector as u32)))
        } else if length < E131_UNIVERSE_DISCOVERY_LAYER_MIN_LENGTH || length
            > E131_UNIVERSE_DISCOVERY_LAYER_MAX_LENGTH {
            Err(pp(ParsePackError::PduInvalidLength(length as usize)))
        } else if b[6] > b[7] {
            Err(pp(ParsePackError::ParseInvalidPage))
        } else if !strictly_ascending(be16_values(b.subrange(8, length as int), ((length - 8) / 2) as nat)) {
            Err(pp(ParsePackError::ParseInvalidUniverseOrder))
        } else if (length - 8) % 2 != 0 {
            Err(pp(ParsePackError::ParseInsufficientData))
        } else {
            Ok(DiscoveryLayerModel {
                page: b[6],
                last_page: b[7],
                universes: be16_values(b.subrange(8, length as int), ((length - 8) / 2) as nat),
            })
        },
    }
}

/// The framing layer of a universe discovery packet held in `b`.
pub open spec fn spec_parse_discovery_framing(b: Seq<u8>) -> Result<DiscoveryPacketModel, SacnError> {
    match spec_pdu_info(b, 4) {
        Err(e) => Err(e),
        Ok((length, vector)) => if b.len() < length {
            Err(pp(ParsePackError::ParseInsufficientData))
        } else if vector != VECTOR_E131_EXTENDED_DISCOVERY {
            Err(pp(ParsePackError::PduInvalidVector(vector as u32)))
        } else if length < E131_UNIVERSE_DISCOVERY_FRAMING_LAYER_MIN_LENGTH {
            Err(pp(ParsePackError::PduInvalidLength(length as usize)))
        } else {
            match spec_source_name(b.subrange(6, 70)) {
                Err(e) => Err(e),
                Ok(name) => match spec_parse_discovery_layer(b.subrange(74, length as int)) {
                    Err(e) => Err(e),
                    Ok(layer) => Ok(DiscoveryPacketModel { source_name: name, data: layer }),
                },
            }
        },
    }
}

/// The root layer PDU held in `b`.
pub open spec fn spec_parse_root(b: Seq<u8>) -> Option<Result<PacketModel, SacnError>> {
    match spec_pdu_info(b, 4) {
        Err(e) => Some(Err(e)),
        Ok((length, vector)) => if b.len() < length {
            Some(Err(pp(ParsePackError::ParseInsufficientData)))
        } else if vector != VECTOR_ROOT_E131_DATA && vector != VECTOR_ROOT_E131_EXTENDED {
            Some(Err(pp(ParsePackError::PduInvalidVector(vector as u32))))
        } else if length < 22 {
            None
        } else if vector == VECTOR_ROOT_E131_DATA {
            match spec_parse_data_framing(b.subrange(22, length as int)) {
                None => None,
                Some(Err(e)) => Some(Err(e)),
                Some(Ok(d)) => Some(Ok(PacketModel { cid: b.subrange(6, 22), data: RootDataModel::DataPacket(d) })),
            }
        } else {
            let data = b.subrange(22, length as int);
            match spec_pdu_info(data, 4) {
                Err(e) => Some(Err(e)),
                Ok((data_length, data_vector)) => if b.len() < data_length {
                    Some(Err(pp(ParsePackError::ParseInsufficientData)))
                } else if data_vector == VECTOR_E131_EXTENDED_SYNCHRONIZATION {
                    match spec_parse_sync(data) {
                        Err(e) => Some(Err(e)),
                        Ok(s) => Some(Ok(PacketModel { cid: b.subrange(6, 22), data: RootDataModel::SynchronizationPacket(s) })),
                    }
                } else if data_vector == VECTOR_E131_EXTENDED_DISCOVERY {
                    match spec_parse_discovery_framing(data) {
                        Err(e) => Some(Err(e)),
                        Ok(u) => Some(Ok(PacketModel { cid: b.subrange(6, 22), data: RootDataModel::UniverseDiscoveryPacket(u) })),
                    }
                } else {
                    Some(Err(pp(ParsePackError::PduInvalidVector(data_vector as u32))))
                },
            }
        },
    }
}

/// The packet held in `b`: the preamble, postamble and ACN packet identifier,
/// then the root layer PDU.
pub open spec fn spec_parse_packet(b: Seq<u8>) -> Option<Result<PacketModel, SacnError>> {
    if b.len() < E131_PREAMBLE_SIZE {
        Some(Err(pp(ParsePackError::ParseInsufficientData)))
    } else if be16(b[0], b[1]) != E131_PREAMBLE_SIZE {
        Some(Err(pp(ParsePackError::ParseInvalidData)))
    } else if be16(b[2], b[3]) != E131_POSTAMBLE_SIZE {
        Some(Err(pp(ParsePackError::ParseInvalidData)))
    } else if b.subrange(4, 16) != acn_packet_identifier() {
        Some(Err(pp(ParsePackError::ParseInvalidData)))
    } else {
        spec_parse_root(b.subrange(16, b.len() as int))
    }
}

/// The length and vector of a PDU.
struct PduInfo {
    length: usize,
    vector: u32,
}

/// Takes the given byte buffer and parses the flags, length and vector fields.
///
/// # Errors
/// ParseInsufficientData: if the buffer is shorter than the flags, length and vector fields.
///
/// ParsePduInvalidFlags: if the flags are not those of an ANSI E1.31-2018 packet.
fn pdu_info(buf: &[u8], vector_length: usize) -> (r: Result<PduInfo, SacnError>)
    requires
        1 <= vector_length <= 4,
    ensures
        match r {
            Ok(i) => spec_pdu_info(buf@, vector_length as nat) == Ok::<(nat, nat), SacnError>((i.length as nat, i.vector as nat)),
            Err(e) => spec_pdu_info(buf@, vector_length as nat) == Err::<(nat, nat), SacnError>(e),
        },
{
    if buf.len() < E131_PDU_LENGTH_FLAGS_LENGTH + vector_length {
        return Err(pp_err(ParsePackError::ParseInsufficientData));
    }
    let flags = buf[0] & 0xf0;
    if flags != E131_PDU_FLAGS {
        return Err(pp_err(ParsePackError::ParsePduInvalidFlags(flags)));
    }
    let flags_and_length = read_u16_at(buf, 0);
    assert(flags_and_length & 0x0fff == flags_and_length % 4096) by (bit_vector);
    let length = (flags_and_length & 0x0fff) as usize;
    let raw_vector = read_uint_at(buf, E131_PDU_LENGTH_FLAGS_LENGTH, vector_length);
    proof {
        let v = buf@.subrange(2, 2 + vector_length as int);
        crate::codec::lemma_be_value_bound(v);
        reveal_with_fuel(crate::codec::pow256, 5);
        assert(crate::codec::pow256(vector_length as nat) <= 0x1_0000_0000);
    }
    let vector = raw_vector as u32;
    Ok(PduInfo { length, vector })
}

impl DataPacketDmpLayer {
    /// Parses the DMP layer of a data packet; `None` where the buffer is not accepted at all.
    fn parse_checked(buf: &[u8]) -> (r: Option<Result<DataPacketDmpLayer, SacnError>>)
        ensures
            lift(r) == spec_parse_dmp(buf@),
    {
        let info = match pdu_info(buf, 1) {
            Ok(i) => i,
            Err(e) => return Some(Err(e)),
        };
        let length = info.length;
        if buf.len() < length {
            return Some(Err(pp_err(ParsePackError::ParseInsufficientData)));
        }
        if info.vector != VECTOR_DMP_SET_PROPERTY as u32 {
            return Some(Err(pp_err(ParsePackError::PduInvalidVector(info.vector))));
        }
        if buf.len() < 4 {
            return None;
        }
        if buf[3] != E131_DMP_LAYER_ADDRESS_DATA_FIELD {
            return Some(Err(pp_err(ParsePackError::ParseInvalidData)));
        }
        if buf.len() < 6 {
            return None;
        }
        if read_u16_at(buf, 4) != 0 {
            return Some(Err(pp_err(ParsePackError::ParseInvalidData)));
        }
        if buf.len() < 8 {
            return None;
        }
        if read_u16_at(buf, 6) != 1 {
            return Some(Err(pp_err(ParsePackError::ParseInvalidData)));
        }
        if buf.len() < 10 {
            return None;
        }
        let property_value_count = read_u16_at(buf, 8);
        if property_value_count as usize + 10 != length {
            return Some(Err(pp_err(ParsePackError::ParseInsufficientData)));
        }
        if length - 10 > UNIVERSE_CHANNEL_CAPACITY {
            return Some(Err(pp_err(ParsePackError::ParseInvalidData)));
        }
        let property_values = vstd::slice::slice_to_vec(vstd::slice::slice_subrange(buf, 10, length));
        Some(Ok(DataPacketDmpLayer { property_values }))
    }
}

impl DataPacketFramingLayer {
    /// Parses the framing layer of a data packet; `None` where the buffer is not accepted at all.
    fn parse_checked(buf: &[u8]) -> (r: Option<Result<DataPacketFramingLayer, SacnError>>)
        ensures
            lift(r) == spec_parse_data_framing(buf@),
    {
        let info = match pdu_info(buf, 4) {
            Ok(i) => i,
            Err(e) => return Some(Err(e)),
        };
        let length = info.length;
        if buf.len() < length {
            return Some(Err(pp_err(ParsePackError::ParseInsufficientData)));
        }
        if info.vector != VECTOR_E131_DATA_PACKET {
            return Some(Err(pp_err(ParsePackError::PduInvalidVector(info.vector))));
        }
        if buf.len() < 70 {
            return None;
        }
        let source_name = match parse_source_name_str(vstd::slice::slice_subrange(buf, 6, 70)) {
            Ok(s) => s.to_owned(),
            Err(e) => return Some(Err(e)),
        };
        if buf.len() < 71 {
            return None;
        }
        let priority = buf[70];
        if priority > E131_MAX_PRIORITY {
            return Some(Err(pp_err(ParsePackError::ParseInvalidPriority)));
        }
        if buf.len() < 73 {
            return None;
        }
        let synchronization_address = read_u16_at(buf, 71);
        if synchronization_address > E131_MAX_MULTICAST_UNIVERSE {
            return Some(Err(pp_err(ParsePackError::ParseInvalidSyncAddr)));
        }
        if buf.len() < 77 {
            return None;
        }
        let sequence_number = buf[73];
        let preview_data = buf[74] & E131_PREVIEW_DATA_OPTION_BIT_MASK != 0;
        let stream_terminated = buf[74] & E131_STREAM_TERMINATION_OPTION_BIT_MASK != 0;
        let force_synchronization = buf[74] & E131_FORCE_SYNCHRONISATION_OPTION_BIT_MASK != 0;
        let universe = read_u16_at(buf, 75);
        if universe < E131_MIN_MULTICAST_UNIVERSE || universe > E131_MAX_MULTICAST_UNIVERSE {
            return Some(Err(pp_err(ParsePackError::ParseInvalidUniverse)));
        }
        if length < 77 {
            return None;
        }
        let data = match DataPacketDmpLayer::parse_checked(vstd::slice::slice_subrange(buf, 77, length)) {
            None => return None,
            Some(Err(e)) => return Some(Err(e)),
            Some(Ok(d)) => d,
        };
        Some(
            Ok(
                DataPacketFramingLayer {
                    source_name,
                    priority,
                    synchronization_address,
                    sequence_number,
                    preview_data,
                    stream_terminated,
                    force_synchronization,
                    universe,
                    data,
                },
            ),
        )
    }
}

impl SynchronizationPacketFramingLayer {
    /// Parses the framing layer of a synchronization packet.
    pub fn parse(buf: &[u8]) -> (r: Result<SynchronizationPacketFramingLayer, SacnError>)
        ensures
            r == spec_parse_sync(buf@),
    {
        let info = pdu_info(buf, 4)?;
        let length = info.length;
        if buf.len() < length {
            return Err(pp_err(ParsePackError::ParseInsufficientData));
        }
        if info.vector != VECTOR_E131_EXTENDED_SYNCHRONIZATION {
            return Err(pp_err(ParsePackError::PduInvalidVector(info.vector)));
        }
        if length != E131_UNIVERSE_SYNC_PACKET_FRAMING_LAYER_LENGTH {
            return Err(pp_err(ParsePackError::PduInvalidLength(length)));
        }
        let sequence_number = buf[6];
        let synchronization_address = read_u16_at(buf, 7);
        if synchronization_address > E131_MAX_MULTICAST_UNIVERSE || synchronization_address
            < E131_MIN_MULTICAST_UNIVERSE {
            return Err(pp_err(ParsePackError::ParseInvalidUniverse));
        }
        Ok(SynchronizationPacketFramingLayer { sequence_number, synchronization_address })
    }
}

impl UniverseDiscoveryPacketUniverseDiscoveryLayer {
    /// Parses the universe discovery layer of a universe discovery packet.
    fn parse(buf: &[u8]) -> (r: Result<UniverseDiscoveryPacketUniverseDiscoveryLayer, SacnError>)
        ensures
            lift_result(r) == spec_parse_discovery_layer(buf@),
    {
        let info = pdu_info(buf, 4)?;
        let length = info.length;
        if buf.len() < length {
            return Err(pp_err(ParsePackError::ParseInsufficientData));
        }
        if info.vector != VECTOR_UNIVERSE_DISCOVERY_UNIVERSE_LIST {
            return Err(pp_err(ParsePackError::PduInvalidVector(info.vector)));
        }
        if length < E131_UNIVERSE_DISCOVERY_LAYER_MIN_LENGTH || length > E131_UNIVERSE_DISCOVERY_LAYER_MAX_LENGTH {
            return Err(pp_err(ParsePackError::PduInvalidLength(length)));
        }
        let page = buf[6];
        let last_page = buf[7];
        if page > last_page {
            return Err(pp_err(ParsePackError::ParseInvalidPage));
        }
        let ghost body = buf@.subrange(8, length as int);
        let ghost k = ((length - 8) / 2) as nat;
        let mut universes: Vec<u16> = Vec::new();
        let mut i: usize = 8;
        let mut last_universe: i32 = -1;
        #[verifier::loop_isolation(false)]
        while i + 2 <= length
            invariant
                8 <= i <= length,
                length <= buf@.len(),
                length <= E131_UNIVERSE_DISCOVERY_LAYER_MAX_LENGTH,
                (i - 8) % 2 == 0,
                body == buf@.subrange(8, length as int),
                k == ((length - 8) / 2) as nat,
                universes@ == be16_values(body, ((i - 8) / 2) as nat),
                strictly_ascending(universes@),
                universes@.len() == 0 ==> last_universe == -1,
                universes@.len() > 0 ==> last_universe == universes@.last() as i32,
            decreases length - i,
        {
            let u = read_u16_at(buf, i);
            if (u as i32) > last_universe {
                let ghost old_universes = universes@;
                universes.push(u);
                last_universe = u as i32;
                i = i + 2;
                assert(universes@ =~= be16_values(body, ((i - 8) / 2) as nat));
            } else {
                proof {
                    let m = ((i - 8) / 2) as int;
                    let full = be16_values(body, k);
                    assert(universes@.len() == m);
                    assert(m >= 1);
                    assert(m < k);
                    assert(full[m] == u);
                    assert(full[m - 1] == universes@[m - 1]);
                    assert(universes@[m - 1] == universes@.last());
                    assert(!(full[m - 1] < full[m]));
                    assert(!strictly_ascending(full));
                }
                return Err(pp_err(ParsePackError::ParseInvalidUniverseOrder));
            }
        }
        assert(universes@ =~= be16_values(body, k));
        if i != length {
            return Err(pp_err(ParsePackError::ParseInsufficientData));
        }
        Ok(UniverseDiscoveryPacketUniverseDiscoveryLayer { page, last_page, universes })
    }
}

impl UniverseDiscoveryPacketFramingLayer {
    /// Parses the framing layer of a universe discovery packet.
    fn parse(buf: &[u8]) -> (r: Result<UniverseDiscoveryPacketFramingLayer, SacnError>)
        ensures
            lift_result(r) == spec_parse_discovery_framing(buf@),
    {
        let info = pdu_info(buf, 4)?;
        let length = info.length;
        if buf.len() < length {
            return Err(pp_err(ParsePackError::ParseInsufficientData));
        }
        if info.vector != VECTOR_E131_EXTENDED_DISCOVERY {
            return Err(pp_err(ParsePackError::PduInvalidVector(info.vector)));
        }
        if length < E131_UNIVERSE_DISCOVERY_FRAMING_LAYER_MIN_LENGTH {
            return Err(pp_err(ParsePackError::PduInvalidLength(length)));
        }
        let source_name = parse_source_name_str(vstd::slice::slice_subrange(buf, 6, 70))?.to_owned();
        let data = UniverseDiscoveryPacketUniverseDiscoveryLayer::parse(vstd::slice::slice_subrange(buf, 74, length))?;
        Ok(UniverseDiscoveryPacketFramingLayer { source_name, data })
    }
}

/// The 16 bytes of `buf` from `pos` on.
fn cid_at(buf: &[u8], pos: usize) -> (r: [u8; 16])
    requires
        pos + 16 <= buf@.len(),
    ensures
        r@ == buf@.subrange(pos as int, pos + 16),
{
    let mut cid: [u8; 16] = [0; 16];
    let mut j: usize = 0;
    let len = buf.len();
    while j < 16
        invariant
            0 <= j <= 16,
            len == buf@.len(),
            pos + 16 <= buf@.len(),
            forall|x: int| 0 <= x < j ==> cid@[x] == buf@[pos + x],
        decreases 16 - j,
    {
        cid[j] = buf[pos + j];
        j = j + 1;
    }
    assert(cid@ =~= buf@.subrange(pos as int, pos + 16));
    cid
}

impl E131RootLayer {
    /// Parses the root layer PDU; `None` where the buffer is not accepted at all.
    fn parse_checked(buf: &[u8]) -> (r: Option<Result<E131RootLayer, SacnError>>)
        ensures
            lift(r) == spec_parse_root(buf@),
    {
        let info = match pdu_info(buf, E131_ROOT_LAYER_VECTOR_LENGTH) {
            Ok(i) => i,
            Err(e) => return Some(Err(e)),
        };
        let length = info.length;
        let vector = info.vector;
        if buf.len() < length {
            return Some(Err(pp_err(ParsePackError::ParseInsufficientData)));
        }
        if vector != VECTOR_ROOT_E131_DATA && vector != VECTOR_ROOT_E131_EXTENDED {
            return Some(Err(pp_err(ParsePackError::PduInvalidVector(vector))));
        }
        if length < 22 {
            return None;
        }
        let cid = cid_at(buf, 6);
        let data_buf = vstd::slice::slice_subrange(buf, 22, length);
        let data = if vector == VECTOR_ROOT_E131_DATA {
            match DataPacketFramingLayer::parse_checked(data_buf) {
                None => return None,
                Some(Err(e)) => return Some(Err(e)),
                Some(Ok(d)) => E131RootLayerData::DataPacket(d),
            }
        } else {
            let data_info = match pdu_info(data_buf, E131_FRAMING_LAYER_VECTOR_LENGTH) {
                Ok(i) => i,
                Err(e) => return Some(Err(e)),
            };
            if buf.len() < data_info.length {
                return Some(Err(pp_err(ParsePackError::ParseInsufficientData)));
            }
            if data_info.vector == VECTOR_E131_EXTENDED_SYNCHRONIZATION {
                match SynchronizationPacketFramingLayer::parse(data_buf) {
                    Err(e) => return Some(Err(e)),
                    Ok(s) => E131RootLayerData::SynchronizationPacket(s),
                }
            } else if data_info.vector == VECTOR_E131_EXTENDED_DISCOVERY {
                match UniverseDiscoveryPacketFramingLayer::parse(data_buf) {
                    Err(e) => return Some(Err(e)),
                    Ok(u) => E131RootLayerData::UniverseDiscoveryPacket(u),
                }
            } else {
                return Some(Err(pp_err(ParsePackError::PduInvalidVector(data_info.vector))));
            }
        };
        Some(Ok(E131RootLayer { cid, data }))
    }
}

/// Whether the ACN packet identifier is at bytes 4 to 16 of `buf`.
fn has_acn_packet_identifier(buf: &[u8]) -> (r: bool)
    requires
        buf@.len() >= 16,
    ensures
        r == (buf@.subrange(4, 16) == acn_packet_identifier()),
{
    let ident: [u8; 12] = E131_ACN_PACKET_IDENTIFIER;
    assert(ident@ =~= acn_packet_identifier());
    let mut j: usize = 0;
    while j < 12
        invariant
            0 <= j <= 12,
            buf@.len() >= 16,
            ident@ == acn_packet_identifier(),
            forall|x: int| 0 <= x < j ==> buf@[4 + x] == acn_packet_identifier()[x],
        decreases 12 - j,
    {
        if buf[4 + j] != ident[j] {
            assert(buf@.subrange(4, 16)[j as int] != acn_packet_identifier()[j as int]);
            return false;
        }
        j = j + 1;
    }
    assert(buf@.subrange(4, 16) =~= acn_packet_identifier());
    true
}

impl AcnRootLayerProtocol {
    /// Parses the packet from the given buffer; `None` where the buffer is not
    /// accepted at all (see [`AcnRootLayerProtocol::parse`]).
    pub fn parse_checked(buf: &[u8]) -> (r: Option<Result<AcnRootLayerProtocol, SacnError>>)
        ensures
            lift(r) == spec_parse_packet(buf@),
    {
        if buf.len() < E131_PREAMBLE_SIZE as usize {
            return Some(Err(pp_err(ParsePackError::ParseInsufficientData)));
        }
        if read_u16_at(buf, 0) != E131_PREAMBLE_SIZE {
            return Some(Err(pp_err(ParsePackError::ParseInvalidData)));
        }
        if read_u16_at(buf, 2) != E131_POSTAMBLE_SIZE {
            return Some(Err(pp_err(ParsePackError::ParseInvalidData)));
        }
        if !has_acn_packet_identifier(buf) {
            return Some(Err(pp_err(ParsePackError::ParseInvalidData)));
        }
        match E131RootLayer::parse_checked(vstd::slice::slice_subrange(buf, 16, buf.len())) {
            None => None,
            Some(Err(e)) => Some(Err(e)),
            Some(Ok(pdu)) => Some(Ok(AcnRootLayerProtocol { pdu })),
        }
    }

    /// Parses the packet from the given buffer.
    ///
    /// The buffer must be one that is accepted at all: its PDU lengths must
    /// cover the fixed fields of the layers they announce
    /// (`spec_parse_packet(buf@) is Some`, which
    /// [`AcnRootLayerProtocol::parse_checked`] tells).
    ///
    /// # Errors
    /// Returns the error that `spec_parse_packet` gives for the buffer, for
    /// example ParseInsufficientData for a short buffer, ParsePduInvalidFlags
    /// for wrong flags, PduInvalidVector for an unknown vector.
    pub fn parse(buf: &[u8]) -> (r: Result<AcnRootLayerProtocol, SacnError>)
        requires
            spec_parse_packet(buf@) is Some,
        ensures
            Some(lift_result(r)) == spec_parse_packet(buf@),
    {
        match Self::parse_checked(buf) {
            Some(r) => r,
            None => {
                assert(false);
                Err(pp_err(ParsePackError::ParseInsufficientData))
            },
        }
    }
}

/// The flags and length field of a PDU of `len` bytes: the flags 0x7 in the top
/// four bits and the length in the low twelve bits.
pub open spec fn flags_and_length(len: nat) -> Seq<u8> {
    u16_bytes((0x7000 + len % 4096) as u16)
}

/// The UTF-8 bytes of a source name.
pub open spec fn name_bytes(name: Seq<char>) -> Seq<u8> {
    vstd::utf8::encode_utf8(name)
}

/// The 64 byte source name field holding `name`: padded with null bytes, or
/// its first 64 bytes where it is longer.
pub open spec fn name_field(name: Seq<u8>) -> Seq<u8> {
    if name.len() <= 64 {
        name + zero_bytes((64 - name.len()) as nat)
    } else {
        name.take(64)
    }
}

/// The packed length of the DMP layer holding `values`.
pub open spec fn dmp_len(values: Seq<u8>) -> nat {
    10 + values.len()
}

/// The bytes of the DMP layer holding `values`.
pub open spec fn encode_dmp(values: Seq<u8>) -> Seq<u8> {
    flags_and_length(dmp_len(values)) + seq![VECTOR_DMP_SET_PROPERTY, E131_DMP_LAYER_ADDRESS_DATA_FIELD, 0u8, 0u8, 0u8, 1u8]
        + u16_bytes(values.len() as u16) + values
}

/// Copies `src` into `buf` from `pos` on.
fn copy_bytes(buf: &mut [u8], pos: usize, src: &[u8])
    requires
        pos + src@.len() <= old(buf)@.len(),
    ensures
        final(buf)@ == overlay(old(buf)@, pos as int, src@),
{
    let ghost old_buf = buf@;
    let blen = buf.len();
    let mut j: usize = 0;
    while j < src.len()
        invariant
            0 <= j <= src@.len(),
            blen == old_buf.len(),
            pos + src@.len() <= old_buf.len(),
            buf@ == overlay(old_buf, pos as int, src@.take(j as int)),
        decreases src@.len() - j,
    {
        buf[pos + j] = src[j];
        j = j + 1;
        assert(buf@ =~= overlay(old_buf, pos as int, src@.take(j as int)));
    }
    assert(src@.take(src@.len() as int) =~= src@);
}

impl DataPacketDmpLayer {
    /// The length of the layer when packed.
    fn len(&self) -> (r: usize)
        requires
            dmp_len(self@) <= usize::MAX,
        ensures
            r == dmp_len(self@),
    {
        E131_PDU_LENGTH_FLAGS_LENGTH + 1 + 1 + 2 + 2 + 2 + self.property_values.len()
    }

    /// Packs the layer into `buf` from `pos` on.
    ///
    /// # Errors
    /// PackInvalidData: returned, with `buf` unchanged, if there are more than
    /// UNIVERSE_CHANNEL_CAPACITY property values.
    fn pack_at(&self, buf: &mut [u8], pos: usize) -> (r: Result<(), SacnError>)
        requires
            pos + dmp_len(self@) <= old(buf)@.len(),
        ensures
            r is Ok <==> self@.len() <= UNIVERSE_CHANNEL_CAPACITY,
            r is Err ==> r == Err::<(), SacnError>(pp(ParsePackError::PackInvalidData)) && final(buf)@ == old(buf)@,
            r is Ok ==> final(buf)@ == overlay(old(buf)@, pos as int, encode_dmp(self@)),
    {
        if self.property_values.len() > UNIVERSE_CHANNEL_CAPACITY {
            return Err(pp_err(ParsePackError::PackInvalidData));
        }
        let len = self.len();
        if buf.len() - pos < len {
            return Err(pp_err(ParsePackError::PackBufferInsufficient));
        }
        let ghost old_buf = buf@;
        write_u16_at(buf, pos, 0x7000u16 + (len % 4096) as u16);
        buf[pos + 2] = VECTOR_DMP_SET_PROPERTY;
        buf[pos + 3] = E131_DMP_LAYER_ADDRESS_DATA_FIELD;
        zero_range(buf, pos + 4, 2);
        write_u16_at(buf, pos + 6, 0x0001);
        write_u16_at(buf, pos + 8, self.property_values.len() as u16);
        copy_bytes(buf, pos + 10, self.property_values.as_slice());
        assert(buf@ =~= overlay(old_buf, pos as int, encode_dmp(self@)));
        Ok(())
    }
}

/// The options field of a data packet: the preview data, stream terminated and
/// force synchronisation bits.
pub open spec fn options_byte(preview_data: bool, stream_terminated: bool, force_synchronization: bool) -> u8 {
    (if preview_data { E131_PREVIEW_DATA_OPTION_BIT_MASK } else { 0u8 }) | (if stream_terminated {
        E131_STREAM_TERMINATION_OPTION_BIT_MASK
    } else {
        0u8
    }) | (if force_synchronization { E131_FORCE_SYNCHRONISATION_OPTION_BIT_MASK } else { 0u8 })
}

/// The packed length of a data packet framing layer.
pub open spec fn data_framing_len(d: DataPacketModel) -> nat {
    77 + dmp_len(d.property_values)
}

/// The bytes of a data packet framing layer.
pub open spec fn encode_data_framing(d: DataPacketModel) -> Seq<u8> {
    flags_and_length(data_framing_len(d)) + u32_bytes(VECTOR_E131_DATA_PACKET) + name_field(
        name_bytes(d.source_name),
    ) + seq![d.priority] + u16_bytes(d.synchronization_address) + seq![
        d.sequence_number,
        options_byte(d.preview_data, d.stream_terminated, d.force_synchronization),
    ] + u16_bytes(d.universe) + encode_dmp(d.property_values)
}

/// Packing a data packet succeeds: it holds at most UNIVERSE_CHANNEL_CAPACITY values.
pub open spec fn data_pack_ok(d: DataPacketModel) -> bool {
    d.property_values.len() <= UNIVERSE_CHANNEL_CAPACITY
}

/// How many bytes of a data packet framing layer packing writes before it
/// succeeds or fails.
pub open spec fn data_framing_written(d: DataPacketModel) -> nat {
    if data_pack_ok(d) {
        data_framing_len(d)
    } else {
        77
    }
}

impl DataPacketFramingLayer {
    /// The length of the layer when packed.
    fn len(&self) -> (r: usize)
        requires
            data_framing_len(self@) <= usize::MAX,
        ensures
            r == data_framing_len(self@),
    {
        E131_PDU_LENGTH_FLAGS_LENGTH + E131_FRAMING_LAYER_VECTOR_LENGTH + E131_SOURCE_NAME_FIELD_LENGTH + 1
            + E131_SYNC_ADDR_FIELD_LENGTH + 1 + 1 + 2 + self.data.len()
    }

    /// Packs the layer into `buf` from `pos` on.
    ///
    /// The source name bytes are copied whole after the field is zeroed: a name
    /// longer than the 64 byte field runs on into the following bytes, of
    /// which those within the packet are then overwritten.
    ///
    /// # Errors
    /// PackInvalidData: returned if there are more than UNIVERSE_CHANNEL_CAPACITY
    /// property values, after the framing layer fields have been written.
    #[verifier::spinoff_prover]
    #[verifier::rlimit(60)]
    fn pack_at(&self, buf: &mut [u8], pos: usize) -> (r: Result<(), SacnError>)
        requires
            data_framing_len(self@) <= usize::MAX,
            pos + data_framing_len(self@) <= old(buf)@.len(),
            pos + 6 + name_bytes(self@.source_name).len() <= old(buf)@.len(),
        ensures
            r is Ok <==> data_pack_ok(self@),
            r is Err ==> r == Err::<(), SacnError>(pp(ParsePackError::PackInvalidData)),
            final(buf)@ == overlay(
                overlay(old(buf)@, pos + 6, name_bytes(self@.source_name)),
                pos as int,
                encode_data_framing(self@).take(data_framing_written(self@) as int),
            ),
    {
        let len = self.len();
        if buf.len() - pos < len {
            return Err(pp_err(ParsePackError::PackBufferInsufficient));
        }
        let ghost old_buf = buf@;
        let ghost nb = name_bytes(self@.source_name);
        let ghost e = encode_data_framing(self@);
        write_u16_at(buf, pos, 0x7000u16 + (len % 4096) as u16);
        write_u32_at(buf, pos + 2, VECTOR_E131_DATA_PACKET);
        zero_range(buf, pos + 6, E131_SOURCE_NAME_FIELD_LENGTH);
        let name = self.source_name.as_str().as_bytes();
        copy_bytes(buf, pos + 6, name);
        buf[pos + 70] = self.priority;
        write_u16_at(buf, pos + 71, self.synchronization_address);
        buf[pos + 73] = self.sequence_number;
        buf[pos + 74] = 0;
        if self.preview_data {
            buf[pos + 74] = E131_PREVIEW_DATA_OPTION_BIT_MASK;
        }
        if self.stream_terminated {
            buf[pos + 74] = buf[pos + 74] | E131_STREAM_TERMINATION_OPTION_BIT_MASK;
        }
        if self.force_synchronization {
            buf[pos + 74] = buf[pos + 74] | E131_FORCE_SYNCHRONISATION_OPTION_BIT_MASK;
        }
        proof {
            let p = self.preview_data;
            let t = self.stream_terminated;
            let f = self.force_synchronization;
            let b = buf@[pos + 74];
            assert(b == options_byte(p, t, f)) by {
                assert(0u8 | 0u8 | 0u8 == 0u8) by (bit_vector);
                assert(0x80u8 | 0u8 | 0u8 == 0x80u8) by (bit_vector);
                assert(0u8 | 0x40u8 == 0x40u8) by (bit_vector);
                assert(0u8 | 0x40u8 | 0u8 == 0x40u8) by (bit_vector);
                assert(0u8 | 0u8 | 0x20u8 == 0x20u8) by (bit_vector);
                assert(0u8 | 0x20u8 == 0x20u8) by (bit_vector);
                assert(0x80u8 | 0u8 | 0x20u8 == 0x80u8 | 0x20u8) by (bit_vector);
                assert(0x80u8 | 0x40u8 | 0u8 == 0x80u8 | 0x40u8) by (bit_vector);
                assert(0u8 | 0x40u8 | 0x20u8 == 0x40u8 | 0x20u8) by (bit_vector);
            }
        }
        write_u16_at(buf, pos + 75, self.universe);
        let ghost before_data = buf@;
        assert(before_data =~= overlay(overlay(old_buf, pos + 6, nb), pos as int, e.take(77)));
        let r = self.data.pack_at(buf, pos + 77);
        assert(buf@ =~= overlay(overlay(old_buf, pos + 6, nb), pos as int, e.take(data_framing_written(self@) as int)));
        r
    }
}

/// The bytes of a synchronization packet framing layer.
pub open spec fn encode_sync(s: SynchronizationPacketFramingLayer) -> Seq<u8> {
    flags_and_length(11) + u32_bytes(VECTOR_E131_EXTENDED_SYNCHRONIZATION) + seq![s.sequence_number]
        + u16_bytes(s.synchronization_address) + seq![0u8, 0u8]
}

impl SynchronizationPacketFramingLayer {
    /// The length of the layer when packed.
    pub fn len(&self) -> (r: usize)
        ensures
            r == 11,
    {
        2 + 4 + 1 + 2 + 2
    }

    /// Packs the layer at the start of `buf`.
    ///
    /// Where the synchronisation address is a multicast universe, the layer
    /// parses back both from the whole buffer and from its first `len()` bytes.
    ///
    /// # Errors
    /// PackBufferInsufficient: returned if the buffer is shorter than the
    /// layer; the buffer is then left as it was.
    pub fn pack(&self, buf: &mut [u8]) -> (r: Result<(), SacnError>)
        ensures
            old(buf)@.len() < 11 ==> r == Err::<(), SacnError>(pp(ParsePackError::PackBufferInsufficient))
                && final(buf)@ == old(buf)@,
            old(buf)@.len() >= 11 ==> r is Ok && final(buf)@ == overlay(old(buf)@, 0, encode_sync(*self)),
            r is Ok && multicast_universe(self.synchronization_address as int) ==> spec_parse_sync(final(buf)@)
                == Ok::<SynchronizationPacketFramingLayer, SacnError>(*self) && spec_parse_sync(
                final(buf)@.take(11),
            ) == Ok::<SynchronizationPacketFramingLayer, SacnError>(*self),
    {
        if buf.len() < self.len() {
            return Err(pp_err(ParsePackError::PackBufferInsufficient));
        }
        let ghost before = buf@;
        let r = self.pack_at(buf, 0);
        proof {
            if multicast_universe(self.synchronization_address as int) {
                crate::packet_laws::lemma_sync_pack_then_parse(*self, before);
            }
        }
        r
    }

    /// Packs the layer into `buf` from `pos` on.
    fn pack_at(&self, buf: &mut [u8], pos: usize) -> (r: Result<(), SacnError>)
        requires
            pos + 11 <= old(buf)@.len(),
        ensures
            r is Ok,
            final(buf)@ == overlay(old(buf)@, pos as int, encode_sync(*self)),
    {
        let len = self.len();
        if buf.len() - pos < len {
            return Err(pp_err(ParsePackError::PackBufferInsufficient));
        }
        let ghost old_buf = buf@;
        write_u16_at(buf, pos, 0x7000u16 + (len % 4096) as u16);
        write_u32_at(buf, pos + 2, VECTOR_E131_EXTENDED_SYNCHRONIZATION);
        buf[pos + 6] = self.sequence_number;
        write_u16_at(buf, pos + 7, self.synchronization_address);
        zero_range(buf, pos + 9, 2);
        assert(buf@ =~= overlay(old_buf, pos as int, encode_sync(*self)));
        Ok(())
    }
}

/// The packed length of a universe discovery layer.
pub open spec fn discovery_layer_len(l: DiscoveryLayerModel) -> nat {
    8 + 2 * l.universes.len()
}

/// The bytes of a universe discovery layer.
pub open spec fn encode_discovery_layer(l: DiscoveryLayerModel) -> Seq<u8> {
    flags_and_length(discovery_layer_len(l)) + u32_bytes(VECTOR_UNIVERSE_DISCOVERY_UNIVERSE_LIST) + seq![
        l.page,
        l.last_page,
    ] + u16s_bytes(l.universes)
}

/// Packing a universe discovery layer succeeds: at most DISCOVERY_UNI_PER_PAGE
/// universes, in strictly ascending order.
pub open spec fn discovery_pack_ok(l: DiscoveryLayerModel) -> bool {
    l.universes.len() <= DISCOVERY_UNI_PER_PAGE && strictly_ascending(l.universes)
}

/// How many bytes of a universe discovery layer packing writes before it
/// succeeds or fails.
pub open spec fn discovery_layer_written(l: DiscoveryLayerModel) -> nat {
    if l.universes.len() > DISCOVERY_UNI_PER_PAGE {
        0
    } else if !strictly_ascending(l.universes) {
        8
    } else {
        discovery_layer_len(l)
    }
}

impl UniverseDiscoveryPacketUniverseDiscoveryLayer {
    /// The length of the layer when packed.
    fn len(&self) -> (r: usize)
        requires
            discovery_layer_len(self@) <= usize::MAX,
        ensures
            r == discovery_layer_len(self@),
    {
        2 + 4 + 1 + 1 + self.universes.len() * 2
    }

    /// Packs the layer into `buf` from `pos` on.
    ///
    /// # Errors
    /// PackInvalidData: returned, with `buf` unchanged, if there are more than
    /// DISCOVERY_UNI_PER_PAGE universes; and, after the header fields have been
    /// written, if the universes are not unique and in ascending order.
    fn pack_at(&self, buf: &mut [u8], pos: usize) -> (r: Result<(), SacnError>)
        requires
            discovery_layer_len(self@) <= usize::MAX,
            pos + discovery_layer_len(self@) <= old(buf)@.len(),
        ensures
            r is Ok <==> discovery_pack_ok(self@),
            r is Err ==> r == Err::<(), SacnError>(pp(ParsePackError::PackInvalidData)),
            final(buf)@ == overlay(
                old(buf)@,
                pos as int,
                encode_discovery_layer(self@).take(discovery_layer_written(self@) as int),
            ),
    {
        let ghost old_buf = buf@;
        let ghost e = encode_discovery_layer(self@);
        if self.universes.len() > DISCOVERY_UNI_PER_PAGE {
            assert(buf@ =~= overlay(old_buf, pos as int, e.take(0)));
            return Err(pp_err(ParsePackError::PackInvalidData));
        }
        let len = self.len();
        if buf.len() - pos < len {
            return Err(pp_err(ParsePackError::PackBufferInsufficient));
        }
        write_u16_at(buf, pos, 0x7000u16 + (len % 4096) as u16);
        write_u32_at(buf, pos + 2, VECTOR_UNIVERSE_DISCOVERY_UNIVERSE_LIST);
        buf[pos + 6] = self.page;
        buf[pos + 7] = self.last_page;
        assert(buf@ =~= overlay(old_buf, pos as int, e.take(8)));
        let n = self.universes.len();
        let mut i: usize = 1;
        #[verifier::loop_isolation(false)]
        while i < n
            invariant
                1 <= i,
                n == self.universes@.len(),
                forall|a: int, b: int| 0 <= a < b < i && b < n ==> self.universes@[a] < self.universes@[b],
            decreases n - i,
        {
            if self.universes[i] == self.universes[i - 1] {
                assert(!strictly_ascending(self@.universes));
                return Err(pp_err(ParsePackError::PackInvalidData));
            }
            if self.universes[i] <= self.universes[i - 1] {
                assert(!strictly_ascending(self@.universes));
                return Err(pp_err(ParsePackError::PackInvalidData));
            }
            i = i + 1;
        }
        assert(strictly_ascending(self@.universes));
        write_u16s_at(self.universes.as_slice(), buf, pos + 8);
        assert(buf@ =~= overlay(old_buf, pos as int, e.take(discovery_layer_written(self@) as int)));
        Ok(())
    }
}

/// The packed length of a universe discovery packet framing layer.
pub open spec fn discovery_framing_len(f: DiscoveryPacketModel) -> nat {
    74 + discovery_layer_len(f.data)
}

/// The bytes of a universe discovery packet framing layer.
pub open spec fn encode_discovery_framing(f: DiscoveryPacketModel) -> Seq<u8> {
    flags_and_length(discovery_framing_len(f)) + u32_bytes(VECTOR_E131_EXTENDED_DISCOVERY) + name_field(
        name_bytes(f.source_name),
    ) + zero_bytes(4) + encode_discovery_layer(f.data)
}

impl UniverseDiscoveryPacketFramingLayer {
    /// The length of the layer when packed.
    fn len(&self) -> (r: usize)
        requires
            discovery_framing_len(self@) <= usize::MAX,
        ensures
            r == discovery_framing_len(self@),
    {
        2 + 4 + 64 + 4 + self.data.len()
    }

    /// Packs the layer into `buf` from `pos` on, the source name as in
    /// [`DataPacketFramingLayer`].
    ///
    /// # Errors
    /// PackInvalidData: see the universe discovery layer.
    fn pack_at(&self, buf: &mut [u8], pos: usize) -> (r: Result<(), SacnError>)
        requires
            discovery_framing_len(self@) <= usize::MAX,
            pos + discovery_framing_len(self@) <= old(buf)@.len(),
            pos + 6 + name_bytes(self@.source_name).len() <= old(buf)@.len(),
        ensures
            r is Ok <==> discovery_pack_ok(self@.data),
            r is Err ==> r == Err::<(), SacnError>(pp(ParsePackError::PackInvalidData)),
            final(buf)@ == overlay(
                overlay(old(buf)@, pos + 6, name_bytes(self@.source_name)),
                pos as int,
                encode_discovery_framing(self@).take(74 + discovery_layer_written(self@.data) as int),
            ),
    {
        let len = self.len();
        if buf.len() - pos < len {
            return Err(pp_err(ParsePackError::PackBufferInsufficient));
        }
        let ghost old_buf = buf@;
        let ghost nb = name_bytes(self@.source_name);
        let ghost e = encode_discovery_framing(self@);
        write_u16_at(buf, pos, 0x7000u16 + (len % 4096) as u16);
        write_u32_at(buf, pos + 2, VECTOR_E131_EXTENDED_DISCOVERY);
        zero_range(buf, pos + 6, 64);
        let name = self.source_name.as_str().as_bytes();
        copy_bytes(buf, pos + 6, name);
        zero_range(buf, pos + 70, 4);
        assert(buf@ =~= overlay(overlay(old_buf, pos + 6, nb), pos as int, e.take(74)));
        let r = self.data.pack_at(buf, pos + 74);
        assert(buf@ =~= overlay(overlay(old_buf, pos + 6, nb), pos as int, e.take(74 + discovery_layer_written(self@.data) as int)));
        r
    }
}

/// The packed length of the payload of a root layer PDU.
pub open spec fn root_data_len(d: RootDataModel) -> nat {
    match d {
        RootDataModel::DataPacket(x) => data_framing_len(x),
        RootDataModel::SynchronizationPacket(_) => 11,
        RootDataModel::UniverseDiscoveryPacket(x) => discovery_framing_len(x),
    }
}

/// The packed length of a root layer PDU.
pub open spec fn root_len(p: PacketModel) -> nat {
    22 + root_data_len(p.data)
}

/// The packed length of a packet.
pub open spec fn packet_len(p: PacketModel) -> nat {
    16 + root_len(p)
}

/// The root layer vector of a payload.
pub open spec fn root_vector(d: RootDataModel) -> u32 {
    match d {
        RootDataModel::DataPacket(_) => VECTOR_ROOT_E131_DATA,
        _ => VECTOR_ROOT_E131_EXTENDED,
    }
}

/// The bytes of the payload of a root layer PDU.
pub open spec fn encode_root_data(d: RootDataModel) -> Seq<u8> {
    match d {
        RootDataModel::DataPacket(x) => encode_data_framing(x),
        RootDataModel::SynchronizationPacket(x) => encode_sync(x),
        RootDataModel::UniverseDiscoveryPacket(x) => encode_discovery_framing(x),
    }
}

/// The bytes of a root layer PDU.
pub open spec fn encode_root(p: PacketModel) -> Seq<u8> {
    flags_and_length(root_len(p)) + u32_bytes(root_vector(p.data)) + p.cid + encode_root_data(p.data)
}

/// The bytes of a packet: preamble size, postamble size, ACN packet identifier
/// and the root layer PDU.
pub open spec fn encode_packet(p: PacketModel) -> Seq<u8> {
    u16_bytes(E131_PREAMBLE_SIZE) + zero_bytes(2) + acn_packet_identifier() + encode_root(p)
}

/// Packing a packet succeeds (given a buffer that is long enough): a data
/// packet holds at most UNIVERSE_CHANNEL_CAPACITY values, a universe
/// discovery packet at most DISCOVERY_UNI_PER_PAGE universes in strictly
/// ascending order.
pub open spec fn pack_ok(p: PacketModel) -> bool {
    match p.data {
        RootDataModel::DataPacket(x) => data_pack_ok(x),
        RootDataModel::SynchronizationPacket(_) => true,
        RootDataModel::UniverseDiscoveryPacket(x) => discovery_pack_ok(x.data),
    }
}

/// How many bytes of the payload of a root layer PDU packing writes.
pub open spec fn root_data_written(d: RootDataModel) -> nat {
    match d {
        RootDataModel::DataPacket(x) => data_framing_written(x),
        RootDataModel::SynchronizationPacket(_) => 11,
        RootDataModel::UniverseDiscoveryPacket(x) => 74 + discovery_layer_written(x.data),
    }
}

/// How many bytes of a packet packing writes before it succeeds or fails.
pub open spec fn packet_written(p: PacketModel) -> nat {
    38 + root_data_written(p.data)
}

/// The source name bytes that packing copies into the 64 byte name field of
/// the framing layer (nothing for a synchronization packet).
pub open spec fn name_spill(d: RootDataModel) -> Seq<u8> {
    match d {
        RootDataModel::DataPacket(x) => name_bytes(x.source_name),
        RootDataModel::SynchronizationPacket(_) => Seq::empty(),
        RootDataModel::UniverseDiscoveryPacket(x) => name_bytes(x.source_name),
    }
}

impl E131RootLayer {
    /// The length of the PDU when packed.
    fn len(&self) -> (r: usize)
        requires
            root_len(self@) <= usize::MAX,
        ensures
            r == root_len(self@),
    {
        E131_PDU_LENGTH_FLAGS_LENGTH + E131_ROOT_LAYER_VECTOR_LENGTH + E131_CID_FIELD_LENGTH + match &self.data {
            E131RootLayerData::DataPacket(data) => data.len(),
            E131RootLayerData::SynchronizationPacket(data) => data.len(),
            E131RootLayerData::UniverseDiscoveryPacket(data) => data.len(),
        }
    }

    /// Packs the PDU into `buf` from `pos` on.
    fn pack_at(&self, buf: &mut [u8], pos: usize) -> (r: Result<(), SacnError>)
        requires
            root_len(self@) <= usize::MAX,
            pos + root_len(self@) <= old(buf)@.len(),
            pos + 28 + name_spill(self@.data).len() <= old(buf)@.len(),
        ensures
            r is Ok <==> pack_ok(self@),
            r is Err ==> r == Err::<(), SacnError>(pp(ParsePackError::PackInvalidData)),
            final(buf)@ == overlay(
                overlay(old(buf)@, pos + 28, name_spill(self@.data)),
                pos as int,
                encode_root(self@).take(22 + root_data_written(self@.data) as int),
            ),
    {
        let len = self.len();
        if buf.len() - pos < len {
            return Err(pp_err(ParsePackError::PackBufferInsufficient));
        }
        let ghost old_buf = buf@;
        let ghost e = encode_root(self@);
        let ghost spill = name_spill(self@.data);
        write_u16_at(buf, pos, 0x7000u16 + (len % 4096) as u16);
        match &self.data {
            E131RootLayerData::DataPacket(_) => {
                write_u32_at(buf, pos + 2, VECTOR_ROOT_E131_DATA);
            },
            E131RootLayerData::SynchronizationPacket(_) | E131RootLayerData::UniverseDiscoveryPacket(_) => {
                write_u32_at(buf, pos + 2, VECTOR_ROOT_E131_EXTENDED);
            },
        }
        copy_bytes(buf, pos + 6, vstd::array::array_as_slice(&self.cid));
        assert(buf@ =~= overlay(old_buf, pos as int, e.take(22)));
        let r = match &self.data {
            E131RootLayerData::DataPacket(data) => data.pack_at(buf, pos + 22),
            E131RootLayerData::SynchronizationPacket(data) => data.pack_at(buf, pos + 22),
            E131RootLayerData::UniverseDiscoveryPacket(data) => data.pack_at(buf, pos + 22),
        };
        assert(buf@ =~= overlay(overlay(old_buf, pos + 28, spill), pos as int, e.take(22 + root_data_written(self@.data) as int)));
        r
    }
}

impl AcnRootLayerProtocol {
    /// The length of the packet when packed.
    pub fn len(&self) -> (r: usize)
        requires
            packet_len(self@) <= usize::MAX,
        ensures
            r == packet_len(self@),
    {
        2 + 2 + 12 + self.pdu.len()
    }

    /// Packs the packet into the given buffer.
    ///
    /// On success the first `self.len()` bytes of `buf` hold the packet. The
    /// source name is copied whole into its 64 byte field: a longer name runs
    /// on into the following bytes (those within the packet are then
    /// overwritten), and the buffer must hold it.
    ///
    /// # Errors
    /// ParseInvalidData: returned, with `buf` unchanged, if `buf` is shorter than the packet.
    ///
    /// PackInvalidData: returned if a data packet holds more than
    /// UNIVERSE_CHANNEL_CAPACITY values or a universe discovery packet more than
    /// DISCOVERY_UNI_PER_PAGE universes or universes not in strictly ascending
    /// order; the fields before the offending layer have then been written.
    pub fn pack(&self, buf: &mut [u8]) -> (r: Result<(), SacnError>)
        requires
            packet_len(self@) <= usize::MAX,
            old(buf)@.len() >= packet_len(self@) ==> 44 + name_spill(self@.data).len() <= old(buf)@.len(),
        ensures
            old(buf)@.len() < packet_len(self@) ==> r == Err::<(), SacnError>(pp(ParsePackError::ParseInvalidData))
                && final(buf)@ == old(buf)@,
            old(buf)@.len() >= packet_len(self@) ==> {
                &&& (r is Ok <==> pack_ok(self@))
                &&& (r is Err ==> r == Err::<(), SacnError>(pp(ParsePackError::PackInvalidData)))
                &&& final(buf)@ == overlay(
                    overlay(old(buf)@, 44, name_spill(self@.data)),
                    0,
                    encode_packet(self@).take(packet_written(self@) as int),
                )
            },
    {
        if buf.len() < self.len() {
            return Err(pp_err(ParsePackError::ParseInvalidData));
        }
        let ghost old_buf = buf@;
        let ghost e = encode_packet(self@);
        let ghost spill = name_spill(self@.data);
        write_u16_at(buf, 0, E131_PREAMBLE_SIZE);
        zero_range(buf, 2, 2);
        let ident: [u8; 12] = E131_ACN_PACKET_IDENTIFIER;
        assert(ident@ =~= acn_packet_identifier());
        copy_bytes(buf, 4, vstd::array::array_as_slice(&ident));
        assert(buf@ =~= overlay(old_buf, 0, e.take(16)));
        let r = self.pdu.pack_at(buf, 16);
        assert(buf@ =~= overlay(overlay(old_buf, 44, spill), 0, e.take(packet_written(self@) as int)));
        r
    }
}

/// The packed bytes of a packet are as long as the packet.
pub proof fn lemma_encode_packet_len(p: PacketModel)
    requires
        p.cid.len() == 16,
    ensures
        encode_packet(p).len() == packet_len(p),
{
    match p.data {
        RootDataModel::DataPacket(x) => {
            assert(encode_dmp(x.property_values).len() == dmp_len(x.property_values));
            assert(name_field(name_bytes(x.source_name)).len() == 64);
            assert(encode_data_framing(x).len() == data_framing_len(x));
        },
        RootDataModel::SynchronizationPacket(x) => {},
        RootDataModel::UniverseDiscoveryPacket(x) => {
            assert(encode_discovery_layer(x.data).len() == discovery_layer_len(x.data));
            assert(name_field(name_bytes(x.source_name)).len() == 64);
            assert(encode_discovery_framing(x).len() == discovery_framing_len(x));
        },
    }
}

/// A zero filled vector of `n` bytes.
fn zeroed_vec(n: usize) -> (r: Vec<u8>)
    ensures
        r@ == zero_bytes(n as nat),
{
    let mut v: Vec<u8> = Vec::with_capacity(n);
    let mut i: usize = 0;
    while i < n
        invariant
            0 <= i <= n,
            v@ == zero_bytes(i as nat),
        decreases n - i,
    {
        v.push(0);
        i = i + 1;
        assert(v@ =~= zero_bytes(i as nat));
    }
    v
}

impl AcnRootLayerProtocol {
    /// Packs the packet into the given vector, which is first cleared and sized
    /// to the packet (zero filled).
    ///
    /// # Errors
    /// PackInvalidData: as for [`AcnRootLayerProtocol::pack`]; the vector then
    /// holds the fields written before the offending layer.
    pub fn pack_vec(&self, buf: &mut Vec<u8>) -> (r: Result<(), SacnError>)
        requires
            packet_len(self@) <= usize::MAX,
            44 + name_spill(self@.data).len() <= packet_len(self@),
        ensures
            r is Ok <==> pack_ok(self@),
            r is Err ==> r == Err::<(), SacnError>(pp(ParsePackError::PackInvalidData)),
            final(buf)@ == overlay(
                overlay(zero_bytes(packet_len(self@)), 44, name_spill(self@.data)),
                0,
                encode_packet(self@).take(packet_written(self@) as int),
            ),
            r is Ok ==> final(buf)@ == encode_packet(self@),
    {
        let len = self.len();
        *buf = zeroed_vec(len);
        let r = self.pack(buf.as_mut_slice());
        proof {
            lemma_encode_packet_len(self@);
            if r is Ok {
                assert(buf@ =~= encode_packet(self@));
            }
        }
        r
    }

    /// Packs the packet into heap allocated memory.
    ///
    /// # Errors
    /// PackInvalidData: as for [`AcnRootLayerProtocol::pack`].
    pub fn pack_alloc(&self) -> (r: Result<Vec<u8>, SacnError>)
        requires
            packet_len(self@) <= usize::MAX,
            44 + name_spill(self@.data).len() <= packet_len(self@),
        ensures
            r is Ok <==> pack_ok(self@),
            r is Err ==> r == Err::<Vec<u8>, SacnError>(pp(ParsePackError::PackInvalidData)),
            r matches Ok(v) ==> v@ == encode_packet(self@),
    {
        let mut buf: Vec<u8> = Vec::new();
        match self.pack_vec(&mut buf) {
            Ok(()) => Ok(buf),
            Err(e) => Err(e),
        }
    }
}

} // verus!
