use sacn::error::SacnError;
use sacn::packet::{
    AcnRootLayerProtocol, E131RootLayerData, E131_DISCOVERY_UNIVERSE, E131_MAX_MULTICAST_UNIVERSE,
    E131_MIN_MULTICAST_UNIVERSE, UNIVERSE_CHANNEL_CAPACITY,
};
use sacn::source::{PacketTarget, SacnSourceInternal, TerminateStep};
use uuid::Uuid;

/// One hundred test values: 1 to 20, zeros, and 100 at the end.
fn test_block() -> Vec<u8> {
    let mut b: Vec<u8> = (1..=20).collect();
    b.resize(99, 0);
    b.push(100);
    b
}

/// 512 bytes of test data, for a single universe.
fn test_data_single_universe() -> Vec<u8> {
    let mut d: Vec<u8> = Vec::new();
    for _ in 0..5 {
        d.extend(test_block());
    }
    d.extend(1..=12u8);
    d
}

/// 712 bytes of test data, more than a single universe holds.
fn test_data_multiple_universe() -> Vec<u8> {
    let mut d = test_data_single_universe();
    d.extend(test_block());
    d.extend(test_block());
    d
}

fn controller() -> SacnSourceInternal {
    SacnSourceInternal::new("Controller", *Uuid::new_v4().as_bytes(), false, 0)
}

#[test]
fn test_send_without_registering() {
    let src = controller();
    let priority = 100;
    match src.send(&[1], &test_data_single_universe(), Some(priority), false, None) {
        Ok(_) => panic!("Source didn't prevent sending without registering"),
        Err(e) => assert_eq!(e, SacnError::UniverseNotRegistered, "Unexpected error type returned, {:?}", e),
    }
}

/// Attempts to send a packet with a priority higher (> 200) than the maximum allowed as per ANSI E1.31-2018 Section 6.2.3.
#[test]
fn test_send_above_priority() {
    let mut src = controller();
    let universe = 1;
    let priority = 201;
    src.register_universe(universe).unwrap();
    match src.send(&[universe], &test_data_single_universe(), Some(priority), false, None) {
        Err(e) => assert_eq!(e, SacnError::InvalidPriority, "Unexpected error type returned, {:?}", e),
        Ok(_) => panic!("Invalid priority (> limit) was not rejected"),
    }
}

#[test]
fn test_send_single_universe() {
    let mut src = controller();
    let priority = 100;
    let universe: u16 = 1;
    src.register_universe(universe).unwrap();
    src.send(&[1], &test_data_single_universe(), Some(priority), false, None).unwrap();
}

#[test]
fn test_send_across_universe() {
    let mut src = controller();
    let priority = 100;
    let universes: [u16; 2] = [1, 2];
    src.register_universes(&universes).unwrap();
    src.send(&universes, &test_data_multiple_universe(), Some(priority), false, None).unwrap();
}

#[test]
fn test_register_below_min_universe() {
    let mut src = controller();
    let universe: u16 = E131_MIN_MULTICAST_UNIVERSE - 1;
    match src.register_universes(&[universe]) {
        Err(e) => assert_eq!(e, SacnError::IllegalUniverse, "Unexpected error type returned"),
        Ok(_) => panic!("Attempt to register universe below minimum succeeded when should have failed"),
    }
}

#[test]
fn test_register_above_max_universe() {
    let mut src = controller();
    let universe: u16 = E131_MAX_MULTICAST_UNIVERSE + 1;
    match src.register_universes(&[universe]) {
        Err(e) => assert_eq!(e, SacnError::IllegalUniverse, "Unexpected error type returned"),
        Ok(_) => panic!("Attempt to register universe above maximum succeeded when should have failed"),
    }
}

/// The discovery universe is above the maximum universe, yet may be registered, ANSI E1.31-2018 Section 6.2.7.
#[test]
fn test_register_discovery_universe() {
    let mut src = controller();
    let res = src.register_universes(&[E131_DISCOVERY_UNIVERSE]);
    assert!(res.is_ok(), "Unexpected error returned when attempting to register discovery universe, {:?}", res);
}

#[test]
fn test_register_max_universe() {
    let mut src = controller();
    let res = src.register_universes(&[E131_MAX_MULTICAST_UNIVERSE]);
    assert!(res.is_ok(), "Unexpected error returned when attempting to register the maximum allowed universe, {:?}", res);
}

#[test]
fn test_register_min_universe() {
    let mut src = controller();
    let res = src.register_universes(&[E131_MIN_MULTICAST_UNIVERSE]);
    assert!(res.is_ok(), "Unexpected error returned when attempting to register the minimum allowed universe, {:?}", res);
}

/// A synchronisation address of 0 is rejected, ANSI E1.31-2018 Section 6.3.3.1.
#[test]
fn test_sync_addr_0() {
    let src = controller();
    match src.send_sync_packet(0, false) {
        Err(e) => assert_eq!(e, SacnError::IllegalUniverse, "Unexpected error type returned"),
        Ok(_) => panic!("Attempt to send a synchronisation packet with a synchronisation address of 0 succeeded"),
    }
}

#[test]
fn send_splits_data_over_universes_and_numbers_packets() {
    let mut src = SacnSourceInternal::new("Source", [7; 16], false, 0);
    src.register_universes(&[1, 2]).unwrap();
    let data = test_data_multiple_universe();
    let packets = src.send(&[1, 2, 1], &data, None, false, Some(2)).unwrap();
    assert_eq!(packets.len(), 2);
    let mut joined: Vec<u8> = Vec::new();
    for (i, p) in packets.iter().enumerate() {
        let parsed = AcnRootLayerProtocol::parse(&p.bytes).unwrap();
        assert_eq!(parsed.pdu.cid, [7; 16]);
        match parsed.pdu.data {
            E131RootLayerData::DataPacket(d) => {
                assert_eq!(d.universe, [1u16, 2][i]);
                assert_eq!(d.priority, 100);
                assert_eq!(d.synchronization_address, 2);
                assert_eq!(d.sequence_number, 0);
                assert_eq!(d.source_name, "Source");
                joined.extend(d.data.property_values);
            },
            _ => panic!("not a data packet"),
        }
    }
    assert_eq!(packets[0].bytes.len(), 125 + UNIVERSE_CHANNEL_CAPACITY);
    assert_eq!(joined, data);
    assert_eq!(packets[1].target, PacketTarget::MulticastV4(sacn::packet::universe_to_ipv4_multicast_addr(2).unwrap()));
}

#[test]
fn repeated_universe_in_one_send_gets_consecutive_numbers() {
    let mut src = SacnSourceInternal::new("Source", [1; 16], true, 0);
    src.register_universe(5).unwrap();
    src.record_data_sent(5, 254);
    let data = vec![3u8; 1200];
    let packets = src.send(&[5, 5, 5], &data, Some(10), true, None).unwrap();
    let numbers: Vec<u8> = packets.iter().map(|p| p.sequence).collect();
    assert_eq!(numbers, vec![255, 0, 1]);
    assert!(packets.iter().all(|p| p.target == PacketTarget::Unicast));
    for p in &packets {
        src.record_data_sent(p.universe, p.sequence);
    }
    assert_eq!(src.send_universe(5, &[0], 100, false, 0).unwrap().sequence, 2);
}

#[test]
fn send_errors_come_in_order() {
    let mut src = SacnSourceInternal::new("Source", [0; 16], false, 0);
    src.register_universe(1).unwrap();
    assert_eq!(src.send(&[1], &[], None, false, None).err(), Some(SacnError::InvalidInput));
    assert_eq!(src.send(&[1, 0], &[1], None, false, None).err(), Some(SacnError::IllegalUniverse));
    assert_eq!(src.send(&[1], &[1], None, false, Some(3)).err(), Some(SacnError::UniverseNotRegistered));
    assert_eq!(src.send(&[1], &[0; 514], None, false, None).err(), Some(SacnError::InvalidInput));
    assert_eq!(src.send(&[1], &[0; 10], Some(250), false, None).err(), Some(SacnError::InvalidPriority));
    src.terminate();
    assert_eq!(src.send(&[1], &[1], None, false, None).err(), Some(SacnError::SenderAlreadyTerminated));
}

#[test]
fn send_universe_checks_priority_and_capacity() {
    let mut src = SacnSourceInternal::new("Source", [0; 16], false, 0);
    src.register_universe(1).unwrap();
    assert_eq!(src.send_universe(1, &[0; 10], 201, false, 0).err(), Some(SacnError::InvalidPriority));
    assert_eq!(src.send_universe(1, &[0; 514], 200, false, 0).err(), Some(SacnError::ExceedUniverseCapacity));
    assert_eq!(src.send_universe(0, &[0; 10], 200, false, 0).err(), Some(SacnError::IllegalUniverse));
    assert!(src.send_universe(0, &[0; 10], 200, true, 0).is_ok());
}

#[test]
fn termination_packets_carry_flag_and_start_code() {
    let mut src = SacnSourceInternal::new("Source", [2; 16], false, 0);
    src.register_universe(9).unwrap();
    src.record_data_sent(9, 41);
    let p = src.send_terminate_stream_pkt(9, false, 0xdd).unwrap();
    assert_eq!(p.sequence, 42);
    match AcnRootLayerProtocol::parse(&p.bytes).unwrap().pdu.data {
        E131RootLayerData::DataPacket(d) => {
            assert!(d.stream_terminated);
            assert_eq!(d.data.property_values, vec![0xdd]);
            assert_eq!(d.priority, 100);
            assert_eq!(d.synchronization_address, 0);
        },
        _ => panic!("not a data packet"),
    }
    assert_eq!(src.send_universe(9, &[0], 100, false, 0).unwrap().sequence, 0);
    assert_eq!(src.send_terminate_stream_pkt(10, false, 0).err(), Some(SacnError::UniverseNotRegistered));
}

#[test]
fn sync_packets_are_numbered_per_universe() {
    let mut src = SacnSourceInternal::new("Source", [3; 16], false, 0);
    src.register_universes(&[4, 6]).unwrap();
    let p = src.send_sync_packet(4, false).unwrap();
    src.record_sync_sent(p.universe, p.sequence);
    let q = src.send_sync_packet(4, false).unwrap();
    assert_eq!((p.sequence, q.sequence), (0, 1));
    assert_eq!(src.send_sync_packet(6, false).unwrap().sequence, 0);
    match AcnRootLayerProtocol::parse(&q.bytes).unwrap().pdu.data {
        E131RootLayerData::SynchronizationPacket(s) => {
            assert_eq!(s.synchronization_address, 4);
            assert_eq!(s.sequence_number, 1);
        },
        _ => panic!("not a synchronization packet"),
    }
}

#[test]
fn discovery_adverts_page_the_universes() {
    let mut src = SacnSourceInternal::new("Source", [4; 16], false, 0);
    let universes: Vec<u16> = (1..=600).collect();
    src.register_universes(&universes).unwrap();
    let pages = src.send_universe_discovery().unwrap();
    assert_eq!(pages.len(), 2);
    let mut listed: Vec<u16> = Vec::new();
    for (i, p) in pages.iter().enumerate() {
        match AcnRootLayerProtocol::parse(&p.bytes).unwrap().pdu.data {
            E131RootLayerData::UniverseDiscoveryPacket(u) => {
                assert_eq!(u.data.page, i as u8);
                assert_eq!(u.data.last_page, 1);
                listed.extend(u.data.universes);
            },
            _ => panic!("not a discovery packet"),
        }
    }
    assert_eq!(listed, universes);
    let empty = SacnSourceInternal::new("Source", [4; 16], true, 0).send_universe_discovery().unwrap();
    assert_eq!(empty.len(), 1);
    assert!(matches!(empty[0].target, PacketTarget::MulticastV6(_)));
}

#[test]
fn deregistering_universes() {
    let mut src = SacnSourceInternal::new("Source", [0; 16], false, 0);
    assert_eq!(src.deregister_universe(3), Err(SacnError::UniverseNotFound));
    assert!(src.universes().is_empty());
    src.register_universes(&[1, 2, 3]).unwrap();
    assert_eq!(src.deregister_universe(2), Ok(()));
    assert_eq!(src.universes(), &vec![1, 3]);
    assert_eq!(src.deregister_universe(2), Err(SacnError::UniverseNotFound));
    assert_eq!(src.deregister_universe(0), Err(SacnError::IllegalUniverse));
}

#[test]
fn discovery_is_due_after_interval() {
    let mut src = SacnSourceInternal::new("Source", [0; 16], false, 1000);
    assert!(!src.discovery_due(11000));
    assert!(src.discovery_due(11001));
    src.record_discovery_advert(11001);
    assert!(!src.discovery_due(12000));
    src.set_is_sending_discovery(false);
    assert!(!src.discovery_due(50000));
}

#[test]
fn new_source_keeps_its_cid_and_name() {
    let cid = *Uuid::new_v4().as_bytes();
    let src = SacnSourceInternal::new("Controller", cid, false, 0);
    assert_eq!(src.cid(), cid);
    assert_eq!(src.name(), "Controller");
}

#[test]
fn terminating_a_stream_sends_three_numbered_packets_then_deregisters() {
    let mut src = SacnSourceInternal::new("Source", [1; 16], false, 0);
    src.register_universe(4).unwrap();
    let mut sent = 0;
    let mut sequences = Vec::new();
    loop {
        match src.terminate_stream_step(4, 0, sent).unwrap() {
            TerminateStep::Send(p) => {
                assert_eq!(p.universe, 4);
                sequences.push(p.sequence);
                src.record_data_sent(p.universe, p.sequence);
                sent += 1;
            }
            TerminateStep::Done => break,
        }
    }
    assert_eq!(sequences, vec![0, 1, 2]);
    assert!(src.universes().is_empty());
    assert_eq!(src.terminate_stream_step(4, 0, 0).unwrap_err(), SacnError::UniverseNotRegistered);
    assert_eq!(src.terminate_stream_step(4, 0, 3).unwrap_err(), SacnError::UniverseNotFound);
}
