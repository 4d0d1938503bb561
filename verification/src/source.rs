//! The sending side of sACN: which packets a source sends.
//!
//! A source registers the universes it sends on, numbers the data and
//! synchronization packets of each universe, splits data over universes,
//! terminates streams and advertises its universes in pages of universe
//! discovery packets. The packets come out as bytes with their destination;
//! the caller puts them on the network and reports back each one sent, which
//! advances the sequence number of its universe.
use vstd::prelude::*;

use std::collections::HashMap;

use crate::error::SacnError;
use crate::packet::{
    encode_packet, is_universe_in_range, name_bytes, universe_in_range, universe_to_ipv4_multicast_addr,
    universe_to_ipv6_multicast_addr, AcnRootLayerProtocol, DataPacketDmpLayer, DataPacketFramingLayer,
    DataPacketModel, E131RootLayer, E131RootLayerData, Ipv4MulticastAddr, Ipv6MulticastAddr, PacketModel,
    DiscoveryLayerModel, DiscoveryPacketModel, UniverseDiscoveryPacketFramingLayer,
    UniverseDiscoveryPacketUniverseDiscoveryLayer, DISCOVERY_UNI_PER_PAGE, E131_DISCOVERY_UNIVERSE,
    E131_UNIVERSE_DISCOVERY_INTERVAL,
    RootDataModel, strictly_ascending, SynchronizationPacketFramingLayer, ACN_SDT_MULTICAST_PORT,
    E131_DEFAULT_PRIORITY, E131_MAX_PRIORITY, E131_TERMINATE_STREAM_PACKET_COUNT, NO_SYNC_UNIVERSE,
    STARTING_SEQUENCE_NUMBER,
    UNIVERSE_CHANNEL_CAPACITY,
};
use crate::universe_set::{insert_universe, remove_universe, search_universe};

verus! {

broadcast use vstd::std_specs::hash::group_hash_axioms;

/// The start code of the stream termination packets sent when a source is closed.
pub const DEFAULT_TERMINATE_START_CODE: u8 = 0;

/// The poll period of the periodic update of a source, in milliseconds; it is
/// at most E131_UNIVERSE_DISCOVERY_INTERVAL.
pub const DEFAULT_POLL_PERIOD: u64 = 1000;

/// Where a packet goes: to the address the caller gave, or to the multicast
/// address of a universe.
#[derive(Debug, Clone, Copy, PartialEq, Eq)]
pub enum PacketTarget {
    /// The unicast destination given by the caller.
    Unicast,
    /// An IPv4 multicast address.
    MulticastV4(Ipv4MulticastAddr),
    /// An IPv6 multicast address.
    MulticastV6(Ipv6MulticastAddr),
}

/// A packet to send: its bytes, where it goes, and the universe and
/// sequence number that it carries.
#[derive(Debug, Clone)]
pub struct OutgoingPacket {
    /// The packed packet.
    pub bytes: Vec<u8>,
    /// Where the packet goes.
    pub target: PacketTarget,
    /// The universe the packet is numbered in.
    pub universe: u16,
    /// The sequence number of the packet.
    pub sequence: u8,
}

/// `t` is where a packet for `universe` goes: the caller's address for
/// unicast, else the universe's multicast address of the source's IP version.
pub open spec fn target_for(t: PacketTarget, is_ipv6: bool, unicast: bool, universe: u16) -> bool {
    match t {
        PacketTarget::Unicast => unicast,
        PacketTarget::MulticastV4(a) => {
            &&& !unicast
            &&& !is_ipv6
            &&& a.octets@ == seq![239u8, 255u8, (universe / 256) as u8, (universe % 256) as u8]
            &&& a.port == ACN_SDT_MULTICAST_PORT
        },
        PacketTarget::MulticastV6(a) => {
            &&& !unicast
            &&& is_ipv6
            &&& a.segments@ == seq![0xFF18u16, 0, 0, 0, 0, 0, 0x8300, universe]
            &&& a.port == ACN_SDT_MULTICAST_PORT
        },
    }
}

/// The sequence number after `s`: one more, wrapping from 255 to 0.
pub open spec fn next_sequence(s: u8) -> u8 {
    if s == 255 {
        0
    } else {
        (s + 1) as u8
    }
}

/// The sequence number that the next packet of `universe` carries.
pub open spec fn current_sequence(m: Map<u16, u8>, universe: u16) -> u8 {
    if m.contains_key(universe) {
        m[universe]
    } else {
        STARTING_SEQUENCE_NUMBER
    }
}

/// The state of a source.
pub struct SourceModel {
    pub cid: Seq<u8>,
    pub name: Seq<char>,
    pub preview_data: bool,
    pub data_sequences: Map<u16, u8>,
    pub sync_sequences: Map<u16, u8>,
    pub universes: Seq<u16>,
    pub running: bool,
    pub is_sending_discovery: bool,
    pub is_ipv6: bool,
    pub last_discovery_advert: u64,
}

/// The protocol state of an sACN source.
#[derive(Debug)]
pub struct SacnSourceInternal {
    cid: [u8; 16],
    name: String,
    preview_data: bool,
    data_sequences: HashMap<u16, u8>,
    sync_sequences: HashMap<u16, u8>,
    universes: Vec<u16>,
    running: bool,
    is_sending_discovery: bool,
    is_ipv6: bool,
    last_discovery_advert: u64,
}

impl View for SacnSourceInternal {
    type V = SourceModel;

    closed spec fn view(&self) -> SourceModel {
        SourceModel {
            cid: self.cid@,
            name: self.name@,
            preview_data: self.preview_data,
            data_sequences: self.data_sequences@,
            sync_sequences: self.sync_sequences@,
            universes: self.universes@,
            running: self.running,
            is_sending_discovery: self.is_sending_discovery,
            is_ipv6: self.is_ipv6,
            last_discovery_advert: self.last_discovery_advert,
        }
    }
}

/// The universes registered are in strictly ascending order, and the CID has 16 bytes.
pub open spec fn source_wf(m: SourceModel) -> bool {
    strictly_ascending(m.universes) && m.cid.len() == 16
}

/// The universe may be sent on by the source: `Ok` where it is within the
/// allowed range and registered.
pub open spec fn spec_universe_allowed(m: SourceModel, u: u16) -> Result<(), SacnError> {
    if !universe_in_range(u) {
        Err(SacnError::IllegalUniverse)
    } else if !m.universes.contains(u) {
        Err(SacnError::UniverseNotRegistered)
    } else {
        Ok(())
    }
}

/// `r` is the stream termination packet for `universe` that a source in
/// state `m0` gives, leaving it in state `m1`: a data packet with the stream
/// terminated flag set, priority 100, no synchronisation address and the
/// start code as its only value, numbered with the universe's current
/// sequence number, which the source then forgets until the packet is
/// reported sent; or the error where the universe may not be sent on, the
/// state unchanged.
pub open spec fn termination_packet(
    m0: SourceModel,
    m1: SourceModel,
    universe: u16,
    unicast: bool,
    start_code: u8,
    r: Result<OutgoingPacket, SacnError>,
) -> bool {
    match spec_universe_allowed(m0, universe) {
        Err(e) => r == Err::<OutgoingPacket, SacnError>(e) && m1 == m0,
        Ok(_) => r matches Ok(p) && {
            let seq = current_sequence(m0.data_sequences, universe);
            &&& m1 == (SourceModel { data_sequences: m0.data_sequences.remove(universe), ..m0 })
            &&& p.universe == universe
            &&& p.sequence == seq
            &&& target_for(p.target, m0.is_ipv6, unicast, universe)
            &&& p.bytes@ == encode_packet(data_packet_model(m0, universe, seq![start_code], 100, 0, seq, true))
        },
    }
}

/// The next step of terminating a stream: a termination packet to send, or
/// the end, once the universe is deregistered.
#[derive(Debug, Clone)]
pub enum TerminateStep {
    /// Send this termination packet, then report it sent.
    Send(OutgoingPacket),
    /// The universe is deregistered; the stream is terminated.
    Done,
}

/// The packet that a termination step gives, if it gives one.
pub open spec fn step_packet(r: Result<TerminateStep, SacnError>) -> Result<OutgoingPacket, SacnError> {
    match r {
        Ok(TerminateStep::Send(p)) => Ok(p),
        Ok(TerminateStep::Done) => Err(SacnError::InvalidInput),
        Err(e) => Err(e),
    }
}

impl SacnSourceInternal {
    /// The source's state is well formed.
    pub open spec fn wf(&self) -> bool {
        source_wf(self@)
    }

    /// A new source with the given name and CID, sending over IPv6 or IPv4:
    /// running, sending universe discovery adverts, with no universe registered
    /// and not in preview mode; `now` is taken as the time of the last advert.
    pub fn new(name: &str, cid: [u8; 16], is_ipv6: bool, now: u64) -> (r: SacnSourceInternal)
        ensures
            r.wf(),
            r@ == (SourceModel {
                cid: cid@,
                name: name@,
                preview_data: false,
                data_sequences: Map::empty(),
                sync_sequences: Map::empty(),
                universes: Seq::empty(),
                running: true,
                is_sending_discovery: true,
                is_ipv6,
                last_discovery_advert: now,
            }),
    {
        let r = SacnSourceInternal {
            cid,
            name: name.to_owned(),
            preview_data: false,
            data_sequences: HashMap::new(),
            sync_sequences: HashMap::new(),
            universes: Vec::new(),
            running: true,
            is_sending_discovery: true,
            is_ipv6,
            last_discovery_advert: now,
        };
        assert(r@.universes =~= Seq::<u16>::empty());
        r
    }

    /// Registers the given universe for sending; registering it again has no effect.
    ///
    /// # Errors
    /// IllegalUniverse: returned, with nothing changed, if the universe is
    /// outwith the allowed range (see [`is_universe_in_range`]).
    pub fn register_universe(&mut self, universe: u16) -> (r: Result<(), SacnError>)
        requires
            old(self).wf(),
        ensures
            final(self).wf(),
            r is Ok <==> universe_in_range(universe),
            r is Err ==> r == Err::<(), SacnError>(SacnError::IllegalUniverse) && final(self)@ == old(self)@,
            r is Ok ==> final(self)@.universes.to_set() == old(self)@.universes.to_set().insert(universe),
            final(self)@ == (SourceModel { universes: final(self)@.universes, ..old(self)@ }),
    {
        is_universe_in_range(universe)?;
        insert_universe(&mut self.universes, universe);
        Ok(())
    }

    /// Registers the given universes in turn; those already registered are
    /// left as they are.
    ///
    /// # Errors
    /// IllegalUniverse: returned at the first universe outwith the allowed
    /// range; the universes before it stay registered.
    pub fn register_universes(&mut self, universes: &[u16]) -> (r: Result<(), SacnError>)
        requires
            old(self).wf(),
        ensures
            final(self).wf(),
            final(self)@ == (SourceModel { universes: final(self)@.universes, ..old(self)@ }),
            r is Ok <==> (forall|i: int| 0 <= i < universes@.len() ==> universe_in_range(universes@[i])),
            r is Ok ==> final(self)@.universes.to_set() == old(self)@.universes.to_set() + universes@.to_set(),
            r is Err ==> r == Err::<(), SacnError>(SacnError::IllegalUniverse) && exists|k: int|
                0 <= k < universes@.len() && !universe_in_range(universes@[k]) && (forall|j: int|
                    0 <= j < k ==> universe_in_range(universes@[j]))
                    && final(self)@.universes.to_set() == old(self)@.universes.to_set()
                    + universes@.take(k).to_set(),
    {
        let ghost start = self@.universes.to_set();
        let mut k: usize = 0;
        proof {
            assert(universes@.take(0).to_set() =~= Set::<u16>::empty()) by {
                broadcast use vstd::seq_lib::group_seq_properties;
            }
            assert(start + Set::<u16>::empty() =~= start);
        }
        while k < universes.len()
            invariant
                0 <= k <= universes@.len(),
                self.wf(),
                self@ == (SourceModel { universes: self@.universes, ..old(self)@ }),
                start == old(self)@.universes.to_set(),
                self@.universes.to_set() == start + universes@.take(k as int).to_set(),
                forall|j: int| 0 <= j < k ==> universe_in_range(universes@[j]),
            decreases universes@.len() - k,
        {
            let u = universes[k];
            let r = self.register_universe(u);
            if r.is_err() {
                return r;
            }
            proof {
                vstd::seq_lib::seq_to_set_distributes_over_add(universes@.take(k as int), seq![u]);
                assert(universes@.take(k + 1) =~= universes@.take(k as int) + seq![u]);
                assert(seq![u].to_set() =~= set![u]) by {
                    broadcast use vstd::seq_lib::group_seq_properties;
                }
                assert(self@.universes.to_set() =~= start + universes@.take(k + 1).to_set());
            }
            k = k + 1;
        }
        assert(universes@.take(k as int) =~= universes@);
        Ok(())
    }

    /// Deregisters the given universe.
    ///
    /// # Errors
    /// IllegalUniverse: returned if the universe is outwith the allowed range.
    ///
    /// UniverseNotFound: returned if the universe was not registered.
    pub fn deregister_universe(&mut self, universe: u16) -> (r: Result<(), SacnError>)
        requires
            old(self).wf(),
        ensures
            final(self).wf(),
            final(self)@ == (SourceModel { universes: final(self)@.universes, ..old(self)@ }),
            !universe_in_range(universe) ==> r == Err::<(), SacnError>(SacnError::IllegalUniverse)
                && final(self)@ == old(self)@,
            universe_in_range(universe) && !old(self)@.universes.contains(universe)
                ==> r == Err::<(), SacnError>(SacnError::UniverseNotFound) && final(self)@ == old(self)@,
            universe_in_range(universe) && old(self)@.universes.contains(universe) ==> r is Ok
                && final(self)@.universes == old(self)@.universes.filter(|x: u16| x != universe)
                && final(self)@.universes.to_set() == old(self)@.universes.to_set().remove(universe),
    {
        is_universe_in_range(universe)?;
        if remove_universe(&mut self.universes, universe) {
            Ok(())
        } else {
            Err(SacnError::UniverseNotFound)
        }
    }

    /// Checks that the given universe is within the allowed range and registered.
    ///
    /// # Errors
    /// IllegalUniverse: returned if the universe is outwith the allowed range.
    ///
    /// UniverseNotRegistered: returned if the universe is not registered.
    pub fn universe_allowed(&self, u: u16) -> (r: Result<(), SacnError>)
        requires
            self.wf(),
        ensures
            r == spec_universe_allowed(self@, u),
    {
        is_universe_in_range(u)?;
        match search_universe(&self.universes, u) {
            Ok(_) => Ok(()),
            Err(_) => Err(SacnError::UniverseNotRegistered),
        }
    }
}

/// The data packet that a source in state `m` sends on `universe`.
pub open spec fn data_packet_model(
    m: SourceModel,
    universe: u16,
    values: Seq<u8>,
    priority: u8,
    sync_address: u16,
    sequence: u8,
    stream_terminated: bool,
) -> PacketModel {
    PacketModel {
        cid: m.cid,
        data: RootDataModel::DataPacket(
            DataPacketModel {
                source_name: m.name,
                priority,
                synchronization_address: sync_address,
                sequence_number: sequence,
                preview_data: m.preview_data,
                stream_terminated,
                force_synchronization: false,
                universe,
                property_values: values,
            },
        ),
    }
}

/// The source name can be packed into a data packet of `payload_len` values:
/// the name bytes, copied whole from the name field on, stay within the packet.
pub open spec fn name_fits(m: SourceModel, payload_len: nat) -> bool {
    44 + name_bytes(m.name).len() <= 125 + payload_len
}

/// The sequence number `count` packets after `s`.
pub open spec fn advance(s: u8, count: nat) -> u8 {
    ((s + count) % 256) as u8
}

/// The test that holds of `u` alone.
pub open spec fn is_universe(u: u16) -> spec_fn(u16) -> bool {
    |x: u16| x == u
}

/// The number of universes in `us` before position `i` equal to `us[i]`.
pub open spec fn occurrences_before(us: Seq<u16>, i: int) -> nat {
    us.take(i).filter(is_universe(us[i])).len()
}

/// The number of universes that `len` bytes of data take: one per
/// UNIVERSE_CHANNEL_CAPACITY bytes, rounded up.
pub open spec fn required_universes(len: nat) -> nat {
    ((len + UNIVERSE_CHANNEL_CAPACITY - 1) / UNIVERSE_CHANNEL_CAPACITY as int) as nat
}

/// The bytes of `data` that go to the universe at position `i`.
pub open spec fn chunk(data: Seq<u8>, i: int) -> Seq<u8> {
    let start = i * UNIVERSE_CHANNEL_CAPACITY;
    let end = if (i + 1) * UNIVERSE_CHANNEL_CAPACITY <= data.len() {
        (i + 1) * UNIVERSE_CHANNEL_CAPACITY
    } else {
        data.len() as int
    };
    data.subrange(start, end)
}

/// The number of bytes of `len` bytes of data that go to the universe at position `i`.
pub open spec fn chunk_len(len: nat, i: int) -> int {
    let start = i * UNIVERSE_CHANNEL_CAPACITY;
    let end = if (i + 1) * UNIVERSE_CHANNEL_CAPACITY <= len {
        (i + 1) * UNIVERSE_CHANNEL_CAPACITY
    } else {
        len as int
    };
    end - start
}

/// The source name can be packed into the data packets of every chunk of
/// `len` bytes of data.
pub open spec fn name_fits_all(m: SourceModel, len: nat) -> bool {
    forall|i: int| 0 <= i < required_universes(len) ==> name_fits(m, #[trigger] chunk_len(len, i) as nat)
}

/// The error of the first universe of `us` that may not be sent on, if any.
pub open spec fn first_disallowed(m: SourceModel, us: Seq<u16>) -> Option<SacnError>
    decreases us.len(),
{
    if us.len() == 0 {
        None
    } else {
        match spec_universe_allowed(m, us[0]) {
            Err(e) => Some(e),
            Ok(_) => first_disallowed(m, us.drop_first()),
        }
    }
}

/// Where no universe of `us` is refused, each may be sent on.
pub proof fn lemma_first_disallowed_none(m: SourceModel, us: Seq<u16>)
    requires
        first_disallowed(m, us) is None,
    ensures
        forall|i: int| 0 <= i < us.len() ==> spec_universe_allowed(m, #[trigger] us[i]) is Ok,
    decreases us.len(),
{
    if us.len() > 0 {
        lemma_first_disallowed_none(m, us.drop_first());
        assert forall|i: int| 0 <= i < us.len() implies spec_universe_allowed(m, #[trigger] us[i]) is Ok by {
            if i > 0 {
                assert(us[i] == us.drop_first()[i - 1]);
            }
        }
    }
}

/// The error with which a send request is refused, if it is.
pub open spec fn send_error(
    m: SourceModel,
    universes: Seq<u16>,
    data: Seq<u8>,
    priority: Option<u8>,
    sync_addr: Option<u16>,
) -> Option<SacnError> {
    if !m.running {
        Some(SacnError::SenderAlreadyTerminated)
    } else if data.len() == 0 {
        Some(SacnError::InvalidInput)
    } else if first_disallowed(m, universes) is Some {
        first_disallowed(m, universes)
    } else if sync_addr is Some && spec_universe_allowed(m, sync_addr->0) is Err {
        Some(spec_universe_allowed(m, sync_addr->0)->Err_0)
    } else if universes.len() < required_universes(data.len()) {
        Some(SacnError::InvalidInput)
    } else if priority.unwrap_or(E131_DEFAULT_PRIORITY) > E131_MAX_PRIORITY {
        Some(SacnError::InvalidPriority)
    } else {
        None
    }
}

/// The number of universes that `len` bytes of data take.
fn required_universes_exec(len: usize) -> (r: usize)
    ensures
        r == required_universes(len as nat),
{
    let r: usize = len / UNIVERSE_CHANNEL_CAPACITY + if len % UNIVERSE_CHANNEL_CAPACITY == 0 {
        0
    } else {
        1
    };
    assert(r == required_universes(len as nat)) by (nonlinear_arith)
        requires
            r == len / 513 + if len % 513 == 0 {
                0usize
            } else {
                1usize
            },
    {}
    r
}

/// `p` is the packet that a send request puts at position `i`: the `i`th
/// chunk of the data on the `i`th universe, numbered after the packets of
/// that universe before it in the request.
pub open spec fn send_packet_ok(
    m: SourceModel,
    p: OutgoingPacket,
    universes: Seq<u16>,
    data: Seq<u8>,
    priority: u8,
    unicast: bool,
    sync_address: u16,
    i: int,
) -> bool {
    let u = universes[i];
    let seq = advance(current_sequence(m.data_sequences, u), occurrences_before(universes, i));
    &&& p.universe == u
    &&& p.sequence == seq
    &&& target_for(p.target, m.is_ipv6, unicast, u)
    &&& p.bytes@ == encode_packet(data_packet_model(m, u, chunk(data, i), priority, sync_address, seq, false))
}

impl SacnSourceInternal {
    /// Where a packet for `universe` goes.
    ///
    /// # Errors
    /// IllegalUniverse: returned for multicast if the universe is outwith the allowed range.
    fn target(&self, universe: u16, unicast: bool) -> (r: Result<PacketTarget, SacnError>)
        ensures
            r is Ok <==> (unicast || universe_in_range(universe)),
            r is Err ==> r == Err::<PacketTarget, SacnError>(SacnError::IllegalUniverse),
            r matches Ok(t) ==> target_for(t, self@.is_ipv6, unicast, universe),
    {
        if unicast {
            Ok(PacketTarget::Unicast)
        } else if self.is_ipv6 {
            Ok(PacketTarget::MulticastV6(universe_to_ipv6_multicast_addr(universe)?))
        } else {
            Ok(PacketTarget::MulticastV4(universe_to_ipv4_multicast_addr(universe)?))
        }
    }

    /// The bytes of a data packet of this source.
    fn data_packet_bytes(
        &self,
        universe: u16,
        values: &[u8],
        priority: u8,
        sync_address: u16,
        sequence: u8,
        stream_terminated: bool,
    ) -> (r: Vec<u8>)
        requires
            self.wf(),
            values@.len() <= UNIVERSE_CHANNEL_CAPACITY,
            name_fits(self@, values@.len()),
        ensures
            r@ == encode_packet(
                data_packet_model(self@, universe, values@, priority, sync_address, sequence, stream_terminated),
            ),
    {
        let pkt = AcnRootLayerProtocol {
            pdu: E131RootLayer {
                cid: self.cid,
                data: E131RootLayerData::DataPacket(
                    DataPacketFramingLayer {
                        source_name: self.name.clone(),
                        priority,
                        synchronization_address: sync_address,
                        sequence_number: sequence,
                        preview_data: self.preview_data,
                        stream_terminated,
                        force_synchronization: false,
                        universe,
                        data: DataPacketDmpLayer { property_values: vstd::slice::slice_to_vec(values) },
                    },
                ),
            },
        };
        assert(pkt@ == data_packet_model(self@, universe, values@, priority, sync_address, sequence, stream_terminated));
        match pkt.pack_alloc() {
            Ok(v) => v,
            Err(_) => {
                assert(false);
                Vec::new()
            },
        }
    }

    /// The sequence number that the next data packet of `universe` carries.
    fn data_sequence(&self, universe: u16) -> (r: u8)
        ensures
            r == current_sequence(self@.data_sequences, universe),
    {
        match self.data_sequences.get(&universe) {
            Some(s) => *s,
            None => STARTING_SEQUENCE_NUMBER,
        }
    }

    /// The sequence number that the next synchronization packet of `universe` carries.
    fn sync_sequence(&self, universe: u16) -> (r: u8)
        ensures
            r == current_sequence(self@.sync_sequences, universe),
    {
        match self.sync_sequences.get(&universe) {
            Some(s) => *s,
            None => STARTING_SEQUENCE_NUMBER,
        }
    }

    /// The data packet that sends `data` on `universe` with the given priority
    /// and synchronisation address, numbered with the universe's current
    /// sequence number; the state is left as it is until the packet is
    /// reported sent (see [`SacnSourceInternal::record_data_sent`]).
    ///
    /// # Errors
    /// InvalidPriority: returned if the priority is above E131_MAX_PRIORITY.
    ///
    /// ExceedUniverseCapacity: returned if there are more than UNIVERSE_CHANNEL_CAPACITY bytes of data.
    ///
    /// IllegalUniverse: returned for multicast if the universe is outwith the allowed range.
    pub fn send_universe(
        &self,
        universe: u16,
        data: &[u8],
        priority: u8,
        unicast: bool,
        sync_address: u16,
    ) -> (r: Result<OutgoingPacket, SacnError>)
        requires
            self.wf(),
            priority <= E131_MAX_PRIORITY && data@.len() <= UNIVERSE_CHANNEL_CAPACITY && (unicast || universe_in_range(
                universe,
            )) ==> name_fits(self@, data@.len()),
        ensures
            priority > E131_MAX_PRIORITY ==> r == Err::<OutgoingPacket, SacnError>(SacnError::InvalidPriority),
            priority <= E131_MAX_PRIORITY && data@.len() > UNIVERSE_CHANNEL_CAPACITY ==> r == Err::<
                OutgoingPacket,
                SacnError,
            >(SacnError::ExceedUniverseCapacity),
            priority <= E131_MAX_PRIORITY && data@.len() <= UNIVERSE_CHANNEL_CAPACITY && !unicast && !universe_in_range(
                universe,
            ) ==> r == Err::<OutgoingPacket, SacnError>(SacnError::IllegalUniverse),
            r is Ok <==> priority <= E131_MAX_PRIORITY && data@.len() <= UNIVERSE_CHANNEL_CAPACITY && (unicast
                || universe_in_range(universe)),
            r matches Ok(p) ==> {
                let seq = current_sequence(self@.data_sequences, universe);
                &&& p.universe == universe
                &&& p.sequence == seq
                &&& target_for(p.target, self@.is_ipv6, unicast, universe)
                &&& p.bytes@ == encode_packet(
                    data_packet_model(self@, universe, data@, priority, sync_address, seq, false),
                )
            },
    {
        if priority > E131_MAX_PRIORITY {
            return Err(SacnError::InvalidPriority);
        }
        if data.len() > UNIVERSE_CHANNEL_CAPACITY {
            return Err(SacnError::ExceedUniverseCapacity);
        }
        let sequence = self.data_sequence(universe);
        let target = self.target(universe, unicast)?;
        let bytes = self.data_packet_bytes(universe, data, priority, sync_address, sequence, false);
        Ok(OutgoingPacket { bytes, target, universe, sequence })
    }

    /// Checks a send request as [`SacnSourceInternal::send`] does before it
    /// makes any packet: `Ok` where it is not refused (see [`send_error`]).
    ///
    /// # Errors
    /// As [`send_error`] says.
    #[verifier::loop_isolation(false)]
    pub fn send_precheck(
        &self,
        universes: &[u16],
        data: &[u8],
        priority: Option<u8>,
        synchronisation_addr: Option<u16>,
    ) -> (r: Result<(), SacnError>)
        requires
            self.wf(),
        ensures
            match send_error(self@, universes@, data@, priority, synchronisation_addr) {
                Some(e) => r == Err::<(), SacnError>(e),
                None => r is Ok,
            },
    {
        if !self.running {
            return Err(SacnError::SenderAlreadyTerminated);
        }
        if data.len() == 0 {
            return Err(SacnError::InvalidInput);
        }
        let ghost m = self@;
        let mut i: usize = 0;
        assert(universes@.skip(0) =~= universes@);
        while i < universes.len()
            invariant
                0 <= i <= universes@.len(),
                first_disallowed(m, universes@.skip(i as int)) == first_disallowed(m, universes@),
            decreases universes@.len() - i,
        {
            let ghost rest = universes@.skip(i as int);
            assert(rest[0] == universes@[i as int]);
            assert(rest.drop_first() =~= universes@.skip(i + 1));
            match self.universe_allowed(universes[i]) {
                Err(e) => {
                    return Err(e);
                },
                Ok(()) => {},
            }
            i = i + 1;
        }
        assert(universes@.skip(i as int) =~= Seq::<u16>::empty());
        match synchronisation_addr {
            Some(s) => {
                self.universe_allowed(s)?;
            },
            None => {},
        }
        let required = required_universes_exec(data.len());
        if universes.len() < required {
            return Err(SacnError::InvalidInput);
        }
        let prio = match priority {
            Some(p) => p,
            None => E131_DEFAULT_PRIORITY,
        };
        if prio > E131_MAX_PRIORITY {
            return Err(SacnError::InvalidPriority);
        }
        Ok(())
    }

    /// Whether the source name can be packed into the data packets of every
    /// chunk of `data_len` bytes of data (see [`name_fits_all`]).
    pub fn name_fits_data(&self, data_len: usize) -> (r: bool)
        ensures
            r == name_fits_all(self@, data_len as nat),
    {
        let required = required_universes_exec(data_len);
        let nb = self.name.as_str().as_bytes().len();
        let mut i: usize = 0;
        while i < required
            invariant
                0 <= i <= required,
                required == required_universes(data_len as nat),
                nb == name_bytes(self@.name).len(),
                forall|j: int| 0 <= j < i ==> name_fits(self@, #[trigger] chunk_len(data_len as nat, j) as nat),
            decreases required - i,
        {
            assert(i * 513 < data_len) by (nonlinear_arith)
                requires
                    i < required,
                    required == (data_len + 512) / 513,
            {}
            let start = i * UNIVERSE_CHANNEL_CAPACITY;
            let this_len = if data_len - start >= UNIVERSE_CHANNEL_CAPACITY {
                UNIVERSE_CHANNEL_CAPACITY
            } else {
                data_len - start
            };
            assert(this_len == chunk_len(data_len as nat, i as int)) by (nonlinear_arith)
                requires
                    start == i * 513,
                    this_len == (if data_len - start >= 513 {
                        513
                    } else {
                        data_len - start
                    }),
            {}
            if nb > 81 && nb - 81 > this_len {
                return false;
            }
            i = i + 1;
        }
        true
    }

    /// Whether the source name can be packed into a data packet of
    /// `payload_len` values (see [`name_fits`]), as a stream termination
    /// packet of one value needs.
    pub fn name_fits_payload(&self, payload_len: usize) -> (r: bool)
        ensures
            r == name_fits(self@, payload_len as nat),
    {
        let nb = self.name.as_str().as_bytes().len();
        nb <= 81 || nb - 81 <= payload_len
    }

    /// Whether the source name can be packed into every page of the universe
    /// discovery advert (see [`discovery_name_fits`]).
    pub fn discovery_name_fits_exec(&self) -> (r: bool)
        ensures
            r == discovery_name_fits(self@),
    {
        let nb = self.name.as_str().as_bytes().len();
        let rest = self.universes.len() % DISCOVERY_UNI_PER_PAGE;
        nb <= 76 + 2 * rest
    }

    /// The packets that send `data` to the given universes, one chunk of
    /// UNIVERSE_CHANNEL_CAPACITY bytes per universe in the order given (see
    /// [`send_packet_ok`]), with the given priority (E131_DEFAULT_PRIORITY where
    /// none is given) and synchronisation address (none where none is given),
    /// to the caller's unicast address or to the universes' multicast addresses.
    ///
    /// Every universe is checked before any packet is made. The state is left
    /// as it is; each packet, once sent, is reported with
    /// [`SacnSourceInternal::record_data_sent`].
    ///
    /// # Errors
    /// As [`send_error`] says, in this order: SenderAlreadyTerminated if the
    /// source has been terminated; InvalidInput if there is no data;
    /// IllegalUniverse or UniverseNotRegistered for the first universe, then for
    /// the synchronisation address, that may not be sent on; InvalidInput if
    /// there are fewer universes than the data takes; InvalidPriority if the
    /// priority is above E131_MAX_PRIORITY.
    #[verifier::loop_isolation(false)]
    pub fn send(
        &self,
        universes: &[u16],
        data: &[u8],
        priority: Option<u8>,
        unicast: bool,
        synchronisation_addr: Option<u16>,
    ) -> (r: Result<Vec<OutgoingPacket>, SacnError>)
        requires
            self.wf(),
            send_error(self@, universes@, data@, priority, synchronisation_addr) is None ==> name_fits_all(
                self@,
                data@.len(),
            ),
        ensures
            match send_error(self@, universes@, data@, priority, synchronisation_addr) {
                Some(e) => r == Err::<Vec<OutgoingPacket>, SacnError>(e),
                None => r matches Ok(v) && v@.len() == required_universes(data@.len()) && forall|i: int|
                    0 <= i < v@.len() ==> send_packet_ok(
                        self@,
                        #[trigger] v@[i],
                        universes@,
                        data@,
                        priority.unwrap_or(E131_DEFAULT_PRIORITY),
                        unicast,
                        synchronisation_addr.unwrap_or(NO_SYNC_UNIVERSE),
                        i,
                    ),
            },
    {
        self.send_precheck(universes, data, priority, synchronisation_addr)?;
        let ghost m = self@;
        proof {
            lemma_first_disallowed_none(m, universes@);
        }
        let sync_address = match synchronisation_addr {
            Some(s) => s,
            None => NO_SYNC_UNIVERSE,
        };
        let len = data.len();
        let required = required_universes_exec(len);
        let prio = match priority {
            Some(p) => p,
            None => E131_DEFAULT_PRIORITY,
        };
        let mut packets: Vec<OutgoingPacket> = Vec::new();
        let mut k: usize = 0;
        while k < required
            invariant
                0 <= k <= required,
                required <= universes@.len(),
                required == required_universes(len as nat),
                len == data@.len(),
                len > 0,
                packets@.len() == k,
                forall|j: int|
                    0 <= j < k ==> send_packet_ok(m, #[trigger] packets@[j], universes@, data@, prio, unicast, sync_address, j),
            decreases required - k,
        {
            let u = universes[k];
            let mut count: usize = 0;
            let mut j: usize = 0;
            while j < k
                invariant
                    0 <= j <= k,
                    count <= j,
                    count == universes@.take(j as int).filter(is_universe(u)).len(),
                decreases k - j,
            {
                proof {
                    reveal(Seq::filter);
                    assert(universes@.take(j + 1).drop_last() =~= universes@.take(j as int));
                }
                if universes[j] == u {
                    count = count + 1;
                }
                j = j + 1;
            }
            let base = self.data_sequence(u);
            let sequence: u8 = ((base as usize + count) % 256) as u8;
            assert(k * 513 < len) by (nonlinear_arith)
                requires
                    k < required,
                    required == (len + 512) / 513,
            {}
            let start = k * UNIVERSE_CHANNEL_CAPACITY;
            let end = if len - start >= UNIVERSE_CHANNEL_CAPACITY {
                start + UNIVERSE_CHANNEL_CAPACITY
            } else {
                len
            };
            let values = vstd::slice::slice_subrange(data, start, end);
            assert(values@ == chunk(data@, k as int));
            assert(chunk(data@, k as int).len() == chunk_len(len as nat, k as int));
            assert(name_fits(m, chunk(data@, k as int).len()));
            let target = match self.target(u, unicast) {
                Ok(t) => t,
                Err(e) => {
                    assert(false);
                    return Err(e);
                },
            };
            let bytes = self.data_packet_bytes(u, values, prio, sync_address, sequence, false);
            let p = OutgoingPacket { bytes, target, universe: u, sequence };
            packets.push(p);
            k = k + 1;
        }
        Ok(packets)
    }

    /// Records that a data packet of `universe` with sequence number
    /// `sequence` has been sent: the next one carries the number after it.
    pub fn record_data_sent(&mut self, universe: u16, sequence: u8)
        ensures
            final(self)@ == (SourceModel {
                data_sequences: old(self)@.data_sequences.insert(universe, next_sequence(sequence)),
                ..old(self)@
            }),
            final(self).wf() == old(self).wf(),
    {
        let next: u8 = if sequence == 255 { 0 } else { sequence + 1 };
        self.data_sequences.insert(universe, next);
    }

    /// Records that a synchronization packet of `universe` with sequence
    /// number `sequence` has been sent: the next one carries the number after it.
    pub fn record_sync_sent(&mut self, universe: u16, sequence: u8)
        ensures
            final(self)@ == (SourceModel {
                sync_sequences: old(self)@.sync_sequences.insert(universe, next_sequence(sequence)),
                ..old(self)@
            }),
            final(self).wf() == old(self).wf(),
    {
        let next: u8 = if sequence == 255 { 0 } else { sequence + 1 };
        self.sync_sequences.insert(universe, next);
    }
}

/// The synchronization packet that a source in state `m` sends on `universe`.
pub open spec fn sync_packet_model(m: SourceModel, universe: u16, sequence: u8) -> PacketModel {
    PacketModel {
        cid: m.cid,
        data: RootDataModel::SynchronizationPacket(
            SynchronizationPacketFramingLayer { sequence_number: sequence, synchronization_address: universe },
        ),
    }
}

/// The number of pages that a universe discovery advert of `n` universes
/// takes: one per DISCOVERY_UNI_PER_PAGE universes, plus one.
pub open spec fn discovery_pages(n: nat) -> nat {
    n / (DISCOVERY_UNI_PER_PAGE as nat) + 1
}

/// The universes listed on page `p` of a universe discovery advert of `us`.
pub open spec fn page_universes(us: Seq<u16>, p: int) -> Seq<u16> {
    let start = p * DISCOVERY_UNI_PER_PAGE;
    let end = if (p + 1) * DISCOVERY_UNI_PER_PAGE <= us.len() {
        (p + 1) * DISCOVERY_UNI_PER_PAGE
    } else {
        us.len() as int
    };
    us.subrange(start, end)
}

/// Page `p` of the universe discovery advert of a source in state `m`.
pub open spec fn discovery_packet_model(m: SourceModel, p: int) -> PacketModel {
    PacketModel {
        cid: m.cid,
        data: RootDataModel::UniverseDiscoveryPacket(
            DiscoveryPacketModel {
                source_name: m.name,
                data: DiscoveryLayerModel {
                    page: p as u8,
                    last_page: (discovery_pages(m.universes.len()) - 1) as u8,
                    universes: page_universes(m.universes, p),
                },
            },
        ),
    }
}

/// The source name can be packed into every page of the universe discovery
/// advert: the name bytes, copied whole from the name field on, stay within
/// the shortest page, the last.
pub open spec fn discovery_name_fits(m: SourceModel) -> bool {
    44 + name_bytes(m.name).len() <= 120 + 2 * (m.universes.len() % (DISCOVERY_UNI_PER_PAGE as nat))
}

/// A strictly ascending sequence of `u16` holds at most 65536 values.
pub proof fn lemma_ascending_len(s: Seq<u16>)
    requires
        strictly_ascending(s),
    ensures
        s.len() <= 65536,
{
    if s.len() > 0 {
        lemma_ascending_at_least(s, s.len() - 1);
    }
}

/// The value at position `i` of a strictly ascending sequence is at least `i`.
proof fn lemma_ascending_at_least(s: Seq<u16>, i: int)
    requires
        strictly_ascending(s),
        0 <= i < s.len(),
    ensures
        s[i] >= i,
    decreases i,
{
    if i > 0 {
        lemma_ascending_at_least(s, i - 1);
    }
}

impl SacnSourceInternal {
    /// The synchronization packet for `universe`, numbered with the universe's
    /// current synchronization sequence number; the state is left as it is
    /// until the packet is reported sent (see [`SacnSourceInternal::record_sync_sent`]).
    ///
    /// # Errors
    /// IllegalUniverse: returned if the universe is outwith the allowed range.
    ///
    /// UniverseNotRegistered: returned if the universe is not registered.
    pub fn send_sync_packet(&self, universe: u16, unicast: bool) -> (r: Result<OutgoingPacket, SacnError>)
        requires
            self.wf(),
        ensures
            match spec_universe_allowed(self@, universe) {
                Err(e) => r == Err::<OutgoingPacket, SacnError>(e),
                Ok(_) => r matches Ok(p) && {
                    let seq = current_sequence(self@.sync_sequences, universe);
                    &&& p.universe == universe
                    &&& p.sequence == seq
                    &&& target_for(p.target, self@.is_ipv6, unicast, universe)
                    &&& p.bytes@ == encode_packet(sync_packet_model(self@, universe, seq))
                },
            },
    {
        self.universe_allowed(universe)?;
        let target = self.target(universe, unicast)?;
        let sequence = self.sync_sequence(universe);
        let pkt = AcnRootLayerProtocol {
            pdu: E131RootLayer {
                cid: self.cid,
                data: E131RootLayerData::SynchronizationPacket(
                    SynchronizationPacketFramingLayer { sequence_number: sequence, synchronization_address: universe },
                ),
            },
        };
        assert(pkt@ == sync_packet_model(self@, universe, sequence));
        let bytes = pkt.pack_alloc()?;
        Ok(OutgoingPacket { bytes, target, universe, sequence })
    }

    /// A stream termination packet for `universe`: a data packet with the
    /// stream terminated flag set, priority 100, no synchronisation address
    /// and the start code as its only value, numbered with the universe's
    /// current sequence number, which is then forgotten until the packet is
    /// reported sent (see [`SacnSourceInternal::record_data_sent`]).
    ///
    /// # Errors
    /// IllegalUniverse: returned if the universe is outwith the allowed range.
    ///
    /// UniverseNotRegistered: returned if the universe is not registered.
    pub fn send_terminate_stream_pkt(&mut self, universe: u16, unicast: bool, start_code: u8) -> (r: Result<
        OutgoingPacket,
        SacnError,
    >)
        requires
            old(self).wf(),
            spec_universe_allowed(old(self)@, universe) is Ok ==> name_fits(old(self)@, 1),
        ensures
            final(self).wf(),
            termination_packet(old(self)@, final(self)@, universe, unicast, start_code, r),
    {
        self.universe_allowed(universe)?;
        let target = self.target(universe, unicast)?;
        let sequence = match self.data_sequences.remove(&universe) {
            Some(s) => s,
            None => STARTING_SEQUENCE_NUMBER,
        };
        let values: [u8; 1] = [start_code];
        assert(values@ =~= seq![start_code]);
        let bytes = self.data_packet_bytes(universe, vstd::array::array_as_slice(&values), 100, 0, sequence, true);
        Ok(OutgoingPacket { bytes, target, universe, sequence })
    }

    /// The next step of terminating the stream of `universe` with the start
    /// code `start_code`, after `sent` of its E131_TERMINATE_STREAM_PACKET_COUNT
    /// termination packets have been sent (each reported with
    /// [`SacnSourceInternal::record_data_sent`]): while fewer have been sent,
    /// another multicast termination packet
    /// (see [`SacnSourceInternal::send_terminate_stream_pkt`]); then the
    /// universe is deregistered (see [`SacnSourceInternal::deregister_universe`]).
    pub fn terminate_stream_step(&mut self, universe: u16, start_code: u8, sent: usize) -> (r: Result<
        TerminateStep,
        SacnError,
    >)
        requires
            old(self).wf(),
            spec_universe_allowed(old(self)@, universe) is Ok ==> name_fits(old(self)@, 1),
        ensures
            final(self).wf(),
            sent < E131_TERMINATE_STREAM_PACKET_COUNT ==> !(r matches Ok(TerminateStep::Done))
                && termination_packet(old(self)@, final(self)@, universe, false, start_code, step_packet(r)),
            sent >= E131_TERMINATE_STREAM_PACKET_COUNT ==> !(r matches Ok(TerminateStep::Send(_)))
                && final(self)@ == (SourceModel { universes: final(self)@.universes, ..old(self)@ }),
            sent >= E131_TERMINATE_STREAM_PACKET_COUNT && !universe_in_range(universe) ==> r == Err::<
                TerminateStep,
                SacnError,
            >(SacnError::IllegalUniverse) && final(self)@ == old(self)@,
            sent >= E131_TERMINATE_STREAM_PACKET_COUNT && universe_in_range(universe)
                && !old(self)@.universes.contains(universe) ==> r == Err::<TerminateStep, SacnError>(
                SacnError::UniverseNotFound,
            ) && final(self)@ == old(self)@,
            sent >= E131_TERMINATE_STREAM_PACKET_COUNT && universe_in_range(universe)
                && old(self)@.universes.contains(universe) ==> r is Ok
                && final(self)@.universes == old(self)@.universes.filter(|x: u16| x != universe),
    {
        if sent < E131_TERMINATE_STREAM_PACKET_COUNT {
            let p = self.send_terminate_stream_pkt(universe, false, start_code)?;
            Ok(TerminateStep::Send(p))
        } else {
            self.deregister_universe(universe)?;
            Ok(TerminateStep::Done)
        }
    }

    /// Marks the source terminated and returns the universes registered, whose
    /// streams are then to be terminated.
    pub fn terminate(&mut self) -> (r: Vec<u16>)
        ensures
            final(self)@ == (SourceModel { running: false, ..old(self)@ }),
            final(self).wf() == old(self).wf(),
            r@ == old(self)@.universes,
    {
        self.running = false;
        let mut out: Vec<u16> = Vec::with_capacity(self.universes.len());
        let mut i: usize = 0;
        while i < self.universes.len()
            invariant
                0 <= i <= self.universes@.len(),
                out@ == self.universes@.take(i as int),
            decreases self.universes@.len() - i,
        {
            out.push(self.universes[i]);
            i = i + 1;
            assert(out@ =~= self.universes@.take(i as int));
        }
        assert(self.universes@.take(i as int) =~= self.universes@);
        out
    }

    /// The pages of the universe discovery advert of this source, advertising
    /// the universes registered, DISCOVERY_UNI_PER_PAGE per page in ascending
    /// order, to the multicast address of the universe discovery universe.
    ///
    /// The pages are numbered from 0, each carrying the number of the last;
    /// there is one page more than full pages, so the last page may list none.
    pub fn send_universe_discovery(&self) -> (r: Result<Vec<OutgoingPacket>, SacnError>)
        requires
            self.wf(),
            discovery_name_fits(self@),
        ensures
            r matches Ok(v) && v@.len() == discovery_pages(self@.universes.len()) && forall|p: int|
                0 <= p < v@.len() ==> {
                    &&& (#[trigger] v@[p]).universe == E131_DISCOVERY_UNIVERSE
                    &&& v@[p].sequence == 0
                    &&& target_for(v@[p].target, self@.is_ipv6, false, E131_DISCOVERY_UNIVERSE)
                    &&& v@[p].bytes@ == encode_packet(discovery_packet_model(self@, p))
                },
    {
        let n = self.universes.len();
        proof {
            lemma_ascending_len(self@.universes);
        }
        let pages_req: u8 = (n / DISCOVERY_UNI_PER_PAGE + 1) as u8;
        let target = self.target(E131_DISCOVERY_UNIVERSE, false)?;
        let mut out: Vec<OutgoingPacket> = Vec::new();
        let mut p: u8 = 0;
        while p < pages_req
            invariant
                0 <= p <= pages_req,
                pages_req == discovery_pages(n as nat),
                n == self@.universes.len(),
                n <= 65536,
                self.wf(),
                discovery_name_fits(self@),
                target_for(target, self@.is_ipv6, false, E131_DISCOVERY_UNIVERSE),
                out@.len() == p,
                forall|q: int|
                    0 <= q < p ==> {
                        &&& (#[trigger] out@[q]).universe == E131_DISCOVERY_UNIVERSE
                        &&& out@[q].sequence == 0
                        &&& target_for(out@[q].target, self@.is_ipv6, false, E131_DISCOVERY_UNIVERSE)
                        &&& out@[q].bytes@ == encode_packet(discovery_packet_model(self@, q))
                    },
            decreases pages_req - p,
        {
            let start = (p as usize) * DISCOVERY_UNI_PER_PAGE;
            let end = if n - start >= DISCOVERY_UNI_PER_PAGE {
                start + DISCOVERY_UNI_PER_PAGE
            } else {
                n
            };
            let slice = vstd::slice::slice_subrange(self.universes.as_slice(), start, end);
            let universes = vstd::slice::slice_to_vec(slice);
            assert(universes@ == page_universes(self@.universes, p as int));
            assert(strictly_ascending(universes@));
            let pkt = AcnRootLayerProtocol {
                pdu: E131RootLayer {
                    cid: self.cid,
                    data: E131RootLayerData::UniverseDiscoveryPacket(
                        UniverseDiscoveryPacketFramingLayer {
                            source_name: self.name.clone(),
                            data: UniverseDiscoveryPacketUniverseDiscoveryLayer {
                                page: p,
                                last_page: pages_req - 1,
                                universes,
                            },
                        },
                    ),
                },
            };
            assert(pkt@ == discovery_packet_model(self@, p as int));
            proof {
                if end - start < DISCOVERY_UNI_PER_PAGE {
                    assert(end - start == n % 512) by (nonlinear_arith)
                        requires
                            start == p * 512,
                            end == n,
                            n - start < 512,
                            start <= n,
                    {}
                }
            }
            let bytes = pkt.pack_alloc()?;
            out.push(OutgoingPacket { bytes, target, universe: E131_DISCOVERY_UNIVERSE, sequence: 0 });
            p = p + 1;
        }
        Ok(out)
    }

    /// A universe discovery advert is due at `now`: the source sends adverts
    /// and more than E131_UNIVERSE_DISCOVERY_INTERVAL has passed since the last.
    pub fn discovery_due(&self, now: u64) -> (r: bool)
        ensures
            r == (self@.is_sending_discovery && now >= self@.last_discovery_advert && now
                - self@.last_discovery_advert > E131_UNIVERSE_DISCOVERY_INTERVAL),
    {
        self.is_sending_discovery && now >= self.last_discovery_advert && now - self.last_discovery_advert
            > E131_UNIVERSE_DISCOVERY_INTERVAL
    }

    /// Records that a universe discovery advert was sent at `now`.
    pub fn record_discovery_advert(&mut self, now: u64)
        ensures
            final(self)@ == (SourceModel { last_discovery_advert: now, ..old(self)@ }),
            final(self).wf() == old(self).wf(),
    {
        self.last_discovery_advert = now;
    }
}

impl SacnSourceInternal {
    /// The CID of the source.
    pub fn cid(&self) -> (r: [u8; 16])
        ensures
            r@ == self@.cid,
    {
        self.cid
    }

    /// Sets the CID of the source; keeping it unique on the network is left to the caller.
    pub fn set_cid(&mut self, cid: [u8; 16])
        ensures
            final(self)@ == (SourceModel { cid: cid@, ..old(self)@ }),
            final(self).wf() == old(self).wf(),
    {
        self.cid = cid;
    }

    /// The name of the source.
    pub fn name(&self) -> (r: &str)
        ensures
            r@ == self@.name,
    {
        self.name.as_str()
    }

    /// Sets the name of the source; keeping it unique on the network is left to the caller.
    pub fn set_name(&mut self, name: &str)
        ensures
            final(self)@ == (SourceModel { name: name@, ..old(self)@ }),
            final(self).wf() == old(self).wf(),
    {
        self.name = name.to_owned();
    }

    /// Whether the data packets of the source are marked as preview data.
    pub fn preview_mode(&self) -> (r: bool)
        ensures
            r == self@.preview_data,
    {
        self.preview_data
    }

    /// Sets whether the data packets of the source are marked as preview data,
    /// not meant for live output.
    pub fn set_preview_mode(&mut self, preview_mode: bool)
        ensures
            final(self)@ == (SourceModel { preview_data: preview_mode, ..old(self)@ }),
            final(self).wf() == old(self).wf(),
    {
        self.preview_data = preview_mode;
    }

    /// Whether the source sends periodic universe discovery adverts.
    pub fn is_sending_discovery(&self) -> (r: bool)
        ensures
            r == self@.is_sending_discovery,
    {
        self.is_sending_discovery
    }

    /// Sets whether the source sends periodic universe discovery adverts.
    pub fn set_is_sending_discovery(&mut self, val: bool)
        ensures
            final(self)@ == (SourceModel { is_sending_discovery: val, ..old(self)@ }),
            final(self).wf() == old(self).wf(),
    {
        self.is_sending_discovery = val;
    }

    /// Whether the source is running, not terminated.
    pub fn is_running(&self) -> (r: bool)
        ensures
            r == self@.running,
    {
        self.running
    }

    /// Whether the source sends over IPv6 rather than IPv4.
    pub fn is_ipv6(&self) -> (r: bool)
        ensures
            r == self@.is_ipv6,
    {
        self.is_ipv6
    }

    /// The universes registered, in ascending order.
    pub fn universes(&self) -> (r: &Vec<u16>)
        ensures
            r@ == self@.universes,
    {
        &self.universes
    }
}

} // verus!
