//! Laws of what a source puts on the wire: the bytes of every packet that it
//! produces parse back to a packet that carries what was asked for.
use vstd::prelude::*;

use crate::packet::{
    encode_packet, multicast_universe, spec_parse_packet, strictly_ascending, DataPacketModel, DiscoveryPacketModel,
    PacketModel, RootDataModel, SynchronizationPacketFramingLayer, DISCOVERY_UNI_PER_PAGE, E131_DEFAULT_PRIORITY,
    E131_MAX_MULTICAST_UNIVERSE, E131_MAX_PRIORITY, NO_SYNC_UNIVERSE,
};
use crate::packet_laws::{lemma_parse_encode_packet, name_ok};
use crate::source::{
    chunk, discovery_packet_model, discovery_pages, page_universes, required_universes,
    send_error, send_packet_ok, source_wf, spec_universe_allowed, sync_packet_model, termination_packet,
    lemma_ascending_len, lemma_first_disallowed_none, OutgoingPacket, SourceModel,
};

verus! {

/// The bytes `b` parse back to the packet `p`.
pub open spec fn parses_to(b: Seq<u8>, p: PacketModel) -> bool {
    spec_parse_packet(b) == Some(Ok::<PacketModel, crate::error::SacnError>(p))
}

/// The bytes of an encoded packet that the parser accepts parse back to it.
proof fn lemma_encoded_parses(p: PacketModel)
    requires
        crate::packet_laws::packet_ok(p),
    ensures
        parses_to(encode_packet(p), p),
{
    lemma_parse_encode_packet(p, Seq::empty());
    assert(encode_packet(p) + Seq::<u8>::empty() =~= encode_packet(p));
}

/// Sending data: packet `i` of a send, whose universes and synchronisation
/// address are multicast universes and whose source name fits the name field,
/// parses back to a data packet from the source's CID and name, on universe
/// `universes[i]`, with the priority asked for (the default priority where
/// none was), the synchronisation address asked for (none where none was),
/// the packet's sequence number, the source's preview flag, and the `i`-th
/// block of the data.
pub proof fn lemma_send_packet_parses_back(
    m: SourceModel,
    pk: OutgoingPacket,
    universes: Seq<u16>,
    data: Seq<u8>,
    priority: Option<u8>,
    unicast: bool,
    sync_addr: Option<u16>,
    i: int,
)
    requires
        source_wf(m),
        name_ok(m.name),
        send_error(m, universes, data, priority, sync_addr) is None,
        0 <= i < required_universes(data.len()),
        multicast_universe(universes[i] as int),
        sync_addr.unwrap_or(NO_SYNC_UNIVERSE) <= E131_MAX_MULTICAST_UNIVERSE,
        send_packet_ok(
            m,
            pk,
            universes,
            data,
            priority.unwrap_or(E131_DEFAULT_PRIORITY),
            unicast,
            sync_addr.unwrap_or(NO_SYNC_UNIVERSE),
            i,
        ),
    ensures
        exists|d: DataPacketModel|
            {
                &&& parses_to(pk.bytes@, PacketModel { cid: m.cid, data: RootDataModel::DataPacket(d) })
                &&& d.source_name == m.name
                &&& d.priority == priority.unwrap_or(E131_DEFAULT_PRIORITY)
                &&& d.universe == universes[i]
                &&& d.synchronization_address == sync_addr.unwrap_or(NO_SYNC_UNIVERSE)
                &&& d.sequence_number == pk.sequence
                &&& d.preview_data == m.preview_data
                &&& !d.stream_terminated
                &&& !d.force_synchronization
                &&& d.property_values == chunk(data, i)
            },
{
    let u = universes[i];
    let seq = pk.sequence;
    let prio = priority.unwrap_or(E131_DEFAULT_PRIORITY);
    let sync = sync_addr.unwrap_or(NO_SYNC_UNIVERSE);
    let model = crate::source::data_packet_model(m, u, chunk(data, i), prio, sync, seq, false);
    assert(pk.bytes@ == encode_packet(model));
    crate::source_laws::lemma_chunk_fits(data, i);
    let d = model.data->DataPacket_0;
    lemma_first_disallowed_none(m, universes);
    assert(spec_universe_allowed(m, universes[i]) is Ok);
    assert(d.priority <= E131_MAX_PRIORITY);
    lemma_encoded_parses(model);
    assert(model == PacketModel { cid: m.cid, data: RootDataModel::DataPacket(d) });
}

/// Synchronizing a universe: the synchronization packet of a multicast
/// universe parses back to a synchronization packet from the source's CID,
/// for that universe, with the packet's sequence number.
pub proof fn lemma_sync_packet_parses_back(m: SourceModel, pk: OutgoingPacket, universe: u16)
    requires
        source_wf(m),
        multicast_universe(universe as int),
        pk.bytes@ == encode_packet(sync_packet_model(m, universe, pk.sequence)),
    ensures
        parses_to(
            pk.bytes@,
            PacketModel {
                cid: m.cid,
                data: RootDataModel::SynchronizationPacket(
                    SynchronizationPacketFramingLayer { sequence_number: pk.sequence, synchronization_address: universe },
                ),
            },
        ),
{
    lemma_encoded_parses(sync_packet_model(m, universe, pk.sequence));
}

/// Advertising universes: page `p` of a source's universe discovery advert,
/// where its name fits the name field, parses back to a universe discovery
/// packet from the source's CID and under the source's own name, numbered
/// `p` of the advert's pages, listing the `p`-th block of its universes.
pub proof fn lemma_discovery_page_parses_back(m: SourceModel, pk: OutgoingPacket, p: int)
    requires
        source_wf(m),
        name_ok(m.name),
        0 <= p < discovery_pages(m.universes.len()),
        pk.bytes@ == encode_packet(discovery_packet_model(m, p)),
    ensures
        exists|f: DiscoveryPacketModel|
            {
                &&& parses_to(pk.bytes@, PacketModel { cid: m.cid, data: RootDataModel::UniverseDiscoveryPacket(f) })
                &&& f.source_name == m.name
                &&& f.data.page == p
                &&& f.data.last_page == discovery_pages(m.universes.len()) - 1
                &&& f.data.universes == page_universes(m.universes, p)
            },
{
    let us = m.universes;
    lemma_ascending_len(us);
    let model = discovery_packet_model(m, p);
    let f = model.data->UniverseDiscoveryPacket_0;
    let n = us.len();
    assert(discovery_pages(n) <= 129) by (nonlinear_arith)
        requires
            n <= 65536,
            discovery_pages(n) == n / 512 + 1,
    ;
    assert(p * 512 <= n) by (nonlinear_arith)
        requires
            0 <= p,
            p < n / 512 + 1,
    ;
    let pu = page_universes(us, p);
    assert(pu.len() <= DISCOVERY_UNI_PER_PAGE);
    assert(strictly_ascending(pu)) by {
        assert forall|a: int, b: int| 0 <= a < b < pu.len() implies pu[a] < pu[b] by {
            assert(pu[a] == us[p * 512 + a] && pu[b] == us[p * 512 + b]);
        }
    }
    lemma_encoded_parses(model);
    assert(model == PacketModel { cid: m.cid, data: RootDataModel::UniverseDiscoveryPacket(f) });
}

/// Terminating a stream: the termination packet of a multicast universe,
/// where the source name fits the name field, parses back to a data packet
/// from the source's CID and name on that universe, with the stream
/// terminated flag set, priority 100, no synchronisation address, the
/// packet's sequence number and the start code as its only value.
pub proof fn lemma_termination_packet_parses_back(
    m0: SourceModel,
    m1: SourceModel,
    universe: u16,
    unicast: bool,
    start_code: u8,
    pk: OutgoingPacket,
)
    requires
        source_wf(m0),
        name_ok(m0.name),
        multicast_universe(universe as int),
        termination_packet(m0, m1, universe, unicast, start_code, Ok(pk)),
    ensures
        exists|d: DataPacketModel|
            {
                &&& parses_to(pk.bytes@, PacketModel { cid: m0.cid, data: RootDataModel::DataPacket(d) })
                &&& d.source_name == m0.name
                &&& d.priority == 100
                &&& d.universe == universe
                &&& d.synchronization_address == 0
                &&& d.sequence_number == pk.sequence
                &&& d.preview_data == m0.preview_data
                &&& d.stream_terminated
                &&& d.property_values == seq![start_code]
            },
{
    let model = crate::source::data_packet_model(m0, universe, seq![start_code], 100, 0, pk.sequence, true);
    assert(spec_universe_allowed(m0, universe) is Ok);
    assert(pk.bytes@ == encode_packet(model));
    let d = model.data->DataPacket_0;
    lemma_encoded_parses(model);
    assert(model == PacketModel { cid: m0.cid, data: RootDataModel::DataPacket(d) });
}

} // verus!
