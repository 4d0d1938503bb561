//! Laws of the packet layer: what parsing gives back of the bytes that
//! packing writes.
use vstd::prelude::*;

use crate::codec::{be_value, overlay, lemma_be_value_1, lemma_u16_bytes, lemma_u32_bytes, u16_bytes, u16s_bytes, u32_bytes, zero_bytes};
use crate::packet::{
    data_framing_len, dmp_len, encode_data_framing, encode_dmp, flags_and_length, lemma_null_index_unique,
    multicast_universe, name_bytes, name_field, options_byte, pdu_length, spec_parse_data_framing, spec_parse_dmp,
    spec_pdu_info, spec_source_name, DataPacketModel, E131_FORCE_SYNCHRONISATION_OPTION_BIT_MASK,
    E131_MAX_MULTICAST_UNIVERSE, E131_MAX_PRIORITY, E131_PREVIEW_DATA_OPTION_BIT_MASK,
    E131_STREAM_TERMINATION_OPTION_BIT_MASK, UNIVERSE_CHANNEL_CAPACITY, encode_sync, spec_parse_sync,
    SynchronizationPacketFramingLayer, be16_values, strictly_ascending, discovery_layer_len,
    encode_discovery_layer, spec_parse_discovery_layer, DiscoveryLayerModel, DISCOVERY_UNI_PER_PAGE,
    discovery_framing_len, encode_discovery_framing, spec_parse_discovery_framing, DiscoveryPacketModel,
    acn_packet_identifier, encode_packet, encode_root, encode_root_data, root_data_len, root_len, spec_parse_packet,
    spec_parse_root, PacketModel, RootDataModel, lemma_encode_packet_len, name_spill, pack_ok, packet_len,
    packet_written,
};

verus! {

broadcast use {vstd::utf8::encode_utf8_valid_utf8, vstd::utf8::encode_utf8_decode_utf8};

/// A source name that survives packing and parsing: its UTF-8 bytes fit the
/// 64 byte field with room for the terminating null, and hold no null byte.
pub open spec fn name_ok(name: Seq<char>) -> bool {
    &&& name_bytes(name).len() < 64
    &&& forall|i: int| 0 <= i < name_bytes(name).len() ==> name_bytes(name)[i] != 0
}

/// The flags and length field of a PDU shorter than 4096 bytes carries the
/// E1.31 flags and gives back the length.
proof fn lemma_flags_and_length(b: Seq<u8>, len: nat)
    requires
        len < 4096,
        b.len() >= 2,
        b.subrange(0, 2) == flags_and_length(len),
    ensures
        b[0] & 0xf0u8 == 0x70u8,
        pdu_length(b) == len,
{
    let v = (0x7000 + len % 4096) as u16;
    lemma_u16_bytes(v);
    assert(b[0] == u16_bytes(v)[0]);
    assert(b[1] == u16_bytes(v)[1]);
    let hi = b[0];
    assert(0x70 <= hi <= 0x7f);
    assert(0x70u8 <= hi && hi <= 0x7fu8 ==> hi & 0xf0u8 == 0x70u8) by (bit_vector);
}

/// The flags, length and vector at the start of `b` parse to `len` and the
/// value of the vector bytes.
proof fn lemma_pdu_info(b: Seq<u8>, len: nat, vlen: nat)
    requires
        len < 4096,
        b.len() >= 2 + vlen,
        b.subrange(0, 2) == flags_and_length(len),
    ensures
        spec_pdu_info(b, vlen) == Ok::<(nat, nat), crate::error::SacnError>(
            (len, be_value(b.subrange(2, 2 + vlen as int))),
        ),
{
    lemma_flags_and_length(b, len);
}

/// A name that is ok parses back from its field.
proof fn lemma_source_name(name: Seq<char>)
    requires
        name_ok(name),
    ensures
        spec_source_name(name_field(name_bytes(name))) == Ok::<Seq<char>, crate::error::SacnError>(name),
{
    let nb = name_bytes(name);
    let f = name_field(nb);
    let n = nb.len();
    assert(f == nb + zero_bytes((64 - n) as nat));
    assert forall|j: int| 0 <= j < n implies f[j] != 0 by {
        assert(f[j] == nb[j]);
    }
    assert(f[n as int] == 0);
    lemma_null_index_unique(f, n as int);
    assert(f.take(n as int) =~= nb);
}

/// The DMP layer of at most UNIVERSE_CHANNEL_CAPACITY values parses back from its bytes.
pub proof fn lemma_parse_encode_dmp(values: Seq<u8>)
    requires
        values.len() <= UNIVERSE_CHANNEL_CAPACITY,
    ensures
        spec_parse_dmp(encode_dmp(values)) == Some(Ok::<Seq<u8>, crate::error::SacnError>(values)),
{
    let b = encode_dmp(values);
    let len = 10 + values.len();
    assert(b.subrange(0, 2) =~= flags_and_length(len));
    lemma_pdu_info(b, len, 1);
    assert(b.subrange(2, 3) =~= seq![2u8]);
    lemma_be_value_1(b.subrange(2, 3));
    assert(b[3] == 0xa1);
    assert(b[4] == 0 && b[5] == 0);
    assert(b[6] == 0 && b[7] == 1);
    lemma_u16_bytes(values.len() as u16);
    assert(b[8] == u16_bytes(values.len() as u16)[0]);
    assert(b[9] == u16_bytes(values.len() as u16)[1]);
    assert(b.subrange(10, len as int) =~= values);
}

/// Each option bit of the options field reads back as the flag it was packed from.
proof fn lemma_options_byte(p: bool, t: bool, f: bool)
    ensures
        (options_byte(p, t, f) & E131_PREVIEW_DATA_OPTION_BIT_MASK != 0) == p,
        (options_byte(p, t, f) & E131_STREAM_TERMINATION_OPTION_BIT_MASK != 0) == t,
        (options_byte(p, t, f) & E131_FORCE_SYNCHRONISATION_OPTION_BIT_MASK != 0) == f,
{
    let a: u8 = if p { 0x80u8 } else { 0u8 };
    let c: u8 = if t { 0x40u8 } else { 0u8 };
    let d: u8 = if f { 0x20u8 } else { 0u8 };
    assert(options_byte(p, t, f) == a | c | d);
    assert((a == 0x80u8 || a == 0u8) && (c == 0x40u8 || c == 0u8) && (d == 0x20u8 || d == 0u8) ==> {
        &&& ((a | c | d) & 0x80u8 != 0) == (a == 0x80u8)
        &&& ((a | c | d) & 0x40u8 != 0) == (c == 0x40u8)
        &&& ((a | c | d) & 0x20u8 != 0) == (d == 0x20u8)
    }) by (bit_vector);
}

/// A data packet framing layer that holds only values that the parser
/// accepts: a name that fits, a priority of at most E131_MAX_PRIORITY, a
/// synchronisation address of at most E131_MAX_MULTICAST_UNIVERSE, a
/// multicast universe and at most UNIVERSE_CHANNEL_CAPACITY values.
pub open spec fn data_packet_ok(d: DataPacketModel) -> bool {
    &&& name_ok(d.source_name)
    &&& d.priority <= E131_MAX_PRIORITY
    &&& d.synchronization_address <= E131_MAX_MULTICAST_UNIVERSE
    &&& multicast_universe(d.universe as int)
    &&& d.property_values.len() <= UNIVERSE_CHANNEL_CAPACITY
}

/// A data packet framing layer parses back from its bytes.
pub proof fn lemma_parse_encode_data_framing(d: DataPacketModel)
    requires
        data_packet_ok(d),
    ensures
        spec_parse_data_framing(encode_data_framing(d)) == Some(Ok::<DataPacketModel, crate::error::SacnError>(d)),
{
    let b = encode_data_framing(d);
    let len = data_framing_len(d);
    let nf = name_field(name_bytes(d.source_name));
    assert(nf.len() == 64);
    assert(encode_dmp(d.property_values).len() == dmp_len(d.property_values));
    assert(b.len() == len);
    assert(b.subrange(0, 2) =~= flags_and_length(len));
    lemma_pdu_info(b, len, 4);
    assert(b.subrange(2, 6) =~= u32_bytes(2));
    lemma_u32_bytes(2);
    assert(b.subrange(6, 70) =~= nf);
    lemma_source_name(d.source_name);
    assert(b[70] == d.priority);
    lemma_u16_bytes(d.synchronization_address);
    assert(b[71] == u16_bytes(d.synchronization_address)[0]);
    assert(b[72] == u16_bytes(d.synchronization_address)[1]);
    assert(b[73] == d.sequence_number);
    assert(b[74] == options_byte(d.preview_data, d.stream_terminated, d.force_synchronization));
    lemma_options_byte(d.preview_data, d.stream_terminated, d.force_synchronization);
    lemma_u16_bytes(d.universe);
    assert(b[75] == u16_bytes(d.universe)[0]);
    assert(b[76] == u16_bytes(d.universe)[1]);
    assert(b.subrange(77, len as int) =~= encode_dmp(d.property_values));
    lemma_parse_encode_dmp(d.property_values);
}

/// A synchronization packet framing layer parses back from its bytes when its
/// synchronisation address is a multicast universe.
pub proof fn lemma_parse_encode_sync(s: SynchronizationPacketFramingLayer)
    requires
        multicast_universe(s.synchronization_address as int),
    ensures
        spec_parse_sync(encode_sync(s)) == Ok::<SynchronizationPacketFramingLayer, crate::error::SacnError>(s),
{
    let b = encode_sync(s);
    assert(b.len() == 11);
    assert(b.subrange(0, 2) =~= flags_and_length(11));
    lemma_pdu_info(b, 11, 4);
    assert(b.subrange(2, 6) =~= u32_bytes(1));
    lemma_u32_bytes(1);
    assert(b[6] == s.sequence_number);
    lemma_u16_bytes(s.synchronization_address);
    assert(b[7] == u16_bytes(s.synchronization_address)[0]);
    assert(b[8] == u16_bytes(s.synchronization_address)[1]);
}

/// A synchronization packet framing layer packed at the start of a buffer of
/// at least its length parses back from the whole buffer and from its first
/// bytes alike, when its synchronisation address is a multicast universe.
pub proof fn lemma_sync_pack_then_parse(s: SynchronizationPacketFramingLayer, buf: Seq<u8>)
    requires
        multicast_universe(s.synchronization_address as int),
        buf.len() >= 11,
    ensures
        spec_parse_sync(overlay(buf, 0, encode_sync(s))) == Ok::<SynchronizationPacketFramingLayer, crate::error::SacnError>(s),
        spec_parse_sync(overlay(buf, 0, encode_sync(s)).take(11)) == Ok::<SynchronizationPacketFramingLayer, crate::error::SacnError>(s),
{
    let e = encode_sync(s);
    lemma_parse_encode_sync(s);
    let b = overlay(buf, 0, e);
    assert(e.len() == 11);
    assert(b.take(11) =~= e);
    assert(b.subrange(2, 6) =~= e.subrange(2, 6));
    assert(b[0] == e[0] && b[1] == e[1] && b[6] == e[6] && b[7] == e[7] && b[8] == e[8]);
    assert(spec_pdu_info(b, 4) == spec_pdu_info(e, 4));
}

/// The network byte order values read back from the bytes of a sequence of `u16` are that sequence.
pub proof fn lemma_be16_values_u16s_bytes(us: Seq<u16>)
    ensures
        be16_values(u16s_bytes(us), us.len()) == us,
{
    let b = u16s_bytes(us);
    assert forall|j: int| 0 <= j < us.len() implies be16_values(b, us.len())[j] == us[j] by {
        assert((2 * j) / 2 == j && (2 * j) % 2 == 0);
        assert((2 * j + 1) / 2 == j && (2 * j + 1) % 2 == 1);
        lemma_u16_bytes(us[j]);
        assert(b[2 * j] == u16_bytes(us[j])[0]);
        assert(b[2 * j + 1] == u16_bytes(us[j])[1]);
    }
    assert(be16_values(b, us.len()) =~= us);
}

/// A universe discovery layer that the parser accepts: its page is not
/// after its last page, and it lists at most DISCOVERY_UNI_PER_PAGE universes
/// in strictly ascending order.
pub open spec fn discovery_layer_ok(l: DiscoveryLayerModel) -> bool {
    &&& l.page <= l.last_page
    &&& l.universes.len() <= DISCOVERY_UNI_PER_PAGE
    &&& strictly_ascending(l.universes)
}

/// A universe discovery layer parses back from its bytes.
pub proof fn lemma_parse_encode_discovery_layer(l: DiscoveryLayerModel)
    requires
        discovery_layer_ok(l),
    ensures
        spec_parse_discovery_layer(encode_discovery_layer(l)) == Ok::<DiscoveryLayerModel, crate::error::SacnError>(l),
{
    let b = encode_discovery_layer(l);
    let len = discovery_layer_len(l);
    let n = l.universes.len();
    assert(b.len() == len);
    assert(b.subrange(0, 2) =~= flags_and_length(len));
    lemma_pdu_info(b, len, 4);
    assert(b.subrange(2, 6) =~= u32_bytes(1));
    lemma_u32_bytes(1);
    assert(b[6] == l.page);
    assert(b[7] == l.last_page);
    assert(b.subrange(8, len as int) =~= u16s_bytes(l.universes));
    assert((len - 8) / 2 == n && (len - 8) % 2 == 0);
    lemma_be16_values_u16s_bytes(l.universes);
}

/// A universe discovery packet framing layer that the parser accepts.
pub open spec fn discovery_packet_ok(f: DiscoveryPacketModel) -> bool {
    name_ok(f.source_name) && discovery_layer_ok(f.data)
}

/// A universe discovery packet framing layer parses back from its bytes.
pub proof fn lemma_parse_encode_discovery_framing(f: DiscoveryPacketModel)
    requires
        discovery_packet_ok(f),
    ensures
        spec_parse_discovery_framing(encode_discovery_framing(f)) == Ok::<DiscoveryPacketModel, crate::error::SacnError>(f),
{
    let b = encode_discovery_framing(f);
    let len = discovery_framing_len(f);
    let nf = name_field(name_bytes(f.source_name));
    assert(nf.len() == 64);
    assert(encode_discovery_layer(f.data).len() == discovery_layer_len(f.data));
    assert(b.len() == len);
    assert(b.subrange(0, 2) =~= flags_and_length(len));
    lemma_pdu_info(b, len, 4);
    assert(b.subrange(2, 6) =~= u32_bytes(2));
    lemma_u32_bytes(2);
    assert(b.subrange(6, 70) =~= nf);
    lemma_source_name(f.source_name);
    assert(b.subrange(74, len as int) =~= encode_discovery_layer(f.data));
    lemma_parse_encode_discovery_layer(f.data);
}

/// A packet that the parser accepts: a 16 byte CID and a payload whose
/// fields are all within the ranges that parsing checks.
pub open spec fn packet_ok(p: PacketModel) -> bool {
    &&& p.cid.len() == 16
    &&& match p.data {
        RootDataModel::DataPacket(d) => data_packet_ok(d),
        RootDataModel::SynchronizationPacket(s) => multicast_universe(s.synchronization_address as int),
        RootDataModel::UniverseDiscoveryPacket(f) => discovery_packet_ok(f),
    }
}

/// The bytes of the payload of an accepted packet are as long as stated, and shorter than 4096 - 22.
proof fn lemma_root_data_len(p: PacketModel)
    requires
        packet_ok(p),
    ensures
        encode_root_data(p.data).len() == root_data_len(p.data),
        root_len(p) < 4096,
{
    match p.data {
        RootDataModel::DataPacket(d) => {
            assert(name_field(name_bytes(d.source_name)).len() == 64);
            assert(encode_dmp(d.property_values).len() == dmp_len(d.property_values));
        },
        RootDataModel::SynchronizationPacket(_) => {},
        RootDataModel::UniverseDiscoveryPacket(f) => {
            assert(name_field(name_bytes(f.source_name)).len() == 64);
            assert(encode_discovery_layer(f.data).len() == discovery_layer_len(f.data));
        },
    }
}

/// The root layer PDU of an accepted packet parses back from its bytes,
/// whatever follows them.
pub proof fn lemma_parse_encode_root(p: PacketModel, rest: Seq<u8>)
    requires
        packet_ok(p),
    ensures
        spec_parse_root(encode_root(p) + rest) == Some(Ok::<PacketModel, crate::error::SacnError>(p)),
{
    let e = encode_root(p);
    let b = e + rest;
    let len = root_len(p);
    lemma_root_data_len(p);
    assert(e.len() == len);
    assert(b.subrange(0, 2) =~= flags_and_length(len));
    lemma_pdu_info(b, len, 4);
    assert(b.subrange(6, 22) =~= p.cid);
    let data = b.subrange(22, len as int);
    assert(data =~= encode_root_data(p.data));
    match p.data {
        RootDataModel::DataPacket(d) => {
            assert(b.subrange(2, 6) =~= u32_bytes(4));
            lemma_u32_bytes(4);
            lemma_parse_encode_data_framing(d);
        },
        RootDataModel::SynchronizationPacket(s) => {
            assert(b.subrange(2, 6) =~= u32_bytes(8));
            lemma_u32_bytes(8);
            assert(data.subrange(0, 2) =~= flags_and_length(11));
            lemma_pdu_info(data, 11, 4);
            assert(data.subrange(2, 6) =~= u32_bytes(1));
            lemma_u32_bytes(1);
            lemma_parse_encode_sync(s);
        },
        RootDataModel::UniverseDiscoveryPacket(f) => {
            assert(b.subrange(2, 6) =~= u32_bytes(8));
            lemma_u32_bytes(8);
            let flen = discovery_framing_len(f);
            assert(data.subrange(0, 2) =~= flags_and_length(flen));
            lemma_pdu_info(data, flen, 4);
            assert(data.subrange(2, 6) =~= u32_bytes(2));
            lemma_u32_bytes(2);
            lemma_parse_encode_discovery_framing(f);
        },
    }
}

/// Parsing gives back every packet that the parser accepts from the bytes
/// that packing writes for it, whatever bytes follow them in the buffer:
/// a packet survives the trip through the wire unchanged.
pub proof fn lemma_parse_encode_packet(p: PacketModel, rest: Seq<u8>)
    requires
        packet_ok(p),
    ensures
        spec_parse_packet(encode_packet(p) + rest) == Some(Ok::<PacketModel, crate::error::SacnError>(p)),
{
    let b = encode_packet(p) + rest;
    let r = encode_root(p);
    lemma_u16_bytes(0x0010);
    assert(b[0] == u16_bytes(0x0010)[0] && b[1] == u16_bytes(0x0010)[1]);
    assert(b[2] == 0 && b[3] == 0);
    assert(b.subrange(4, 16) =~= acn_packet_identifier());
    assert(b.subrange(16, b.len() as int) =~= r + rest);
    lemma_parse_encode_root(p, rest);
}

/// A packet that the parser accepts packs without error, and its source name
/// stays within the name field.
pub proof fn lemma_packet_ok_packs(p: PacketModel)
    requires
        packet_ok(p),
    ensures
        pack_ok(p),
        packet_written(p) == packet_len(p),
        44 + name_spill(p.data).len() <= packet_len(p),
        packet_len(p) < 4096 + 16,
{
    lemma_root_data_len(p);
}

/// Packing a packet that the parser accepts into a buffer at least as long,
/// then parsing the buffer, gives the packet back.
pub proof fn lemma_pack_then_parse(p: PacketModel, buf: Seq<u8>)
    requires
        packet_ok(p),
        buf.len() >= packet_len(p),
    ensures
        spec_parse_packet(
            overlay(overlay(buf, 44, name_spill(p.data)), 0, encode_packet(p).take(packet_written(p) as int)),
        ) == Some(Ok::<PacketModel, crate::error::SacnError>(p)),
{
    lemma_packet_ok_packs(p);
    lemma_encode_packet_len(p);
    let len = packet_len(p) as int;
    let packed = overlay(overlay(buf, 44, name_spill(p.data)), 0, encode_packet(p).take(packet_written(p) as int));
    assert(encode_packet(p).take(len) =~= encode_packet(p));
    assert(packed =~= encode_packet(p) + buf.skip(len));
    lemma_parse_encode_packet(p, buf.skip(len));
}

} // verus!
