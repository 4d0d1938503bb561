use sacn::packet::{
    AcnRootLayerProtocol, DataPacketDmpLayer, DataPacketFramingLayer, E131RootLayer, E131RootLayerData,
    SynchronizationPacketFramingLayer, UniverseDiscoveryPacketFramingLayer, UniverseDiscoveryPacketUniverseDiscoveryLayer,
};
use uuid::Uuid;

/// The CID of the examples of ANSI E1.31-2018 Appendix B.
const CID: [u8; 16] = [0xef, 0x07, 0xc8, 0xdd, 0x00, 0x64, 0x44, 0x01, 0xa3, 0xa2, 0x45, 0x9e, 0xf8, 0xe6, 0x14, 0x3e];

/// The preamble, postamble, ACN packet identifier and root layer of a packet
/// with the given root layer length and vector.
fn root_layer(root_len: u16, vector: u32) -> Vec<u8> {
    let mut p: Vec<u8> = Vec::new();
    p.extend_from_slice(&[0x00, 0x10, 0x00, 0x00]);
    p.extend_from_slice(b"ASC-E1.17\0\0\0");
    p.extend_from_slice(&(0x7000 | root_len).to_be_bytes());
    p.extend_from_slice(&vector.to_be_bytes());
    p.extend_from_slice(&CID);
    p
}

/// The 64 byte source name field holding "Source_A".
fn source_name_field() -> Vec<u8> {
    let mut name = b"Source_A".to_vec();
    name.resize(64, 0);
    name
}

/// The data packet of ANSI E1.31-2018 Appendix B Table B-13 (Universe
/// Synchronization Example E1.31 Data Packet): "Source_A", priority 100,
/// synchronisation address 7962, sequence number 154, universe 1, and a full
/// universe of zeros.
fn test_data_packet() -> Vec<u8> {
    let mut p = root_layer(622, 4);
    p.extend_from_slice(&(0x7000u16 | 600).to_be_bytes());
    p.extend_from_slice(&2u32.to_be_bytes());
    p.extend_from_slice(&source_name_field());
    p.push(100);
    p.extend_from_slice(&7962u16.to_be_bytes());
    p.push(154);
    p.push(0);
    p.extend_from_slice(&1u16.to_be_bytes());
    p.extend_from_slice(&(0x7000u16 | 523).to_be_bytes());
    p.extend_from_slice(&[0x02, 0xa1, 0x00, 0x00, 0x00, 0x01]);
    p.extend_from_slice(&513u16.to_be_bytes());
    p.extend_from_slice(&[0; 513]);
    p
}

/// The synchronization packet of ANSI E1.31-2018 Appendix B Table B-14:
/// sequence number 0x70 (367 modulo 0xff), synchronisation address 7962.
fn test_synchronization_packet() -> Vec<u8> {
    let mut p = root_layer(33, 8);
    p.extend_from_slice(&(0x7000u16 | 11).to_be_bytes());
    p.extend_from_slice(&1u32.to_be_bytes());
    p.push(0x70);
    p.extend_from_slice(&7962u16.to_be_bytes());
    p.extend_from_slice(&[0, 0]);
    p
}

/// A universe discovery packet (ANSI E1.31-2018 Section 4.3 Table 4-3) from
/// "Source_A", page 1 of 2, listing the universes 3, 4 and 5.
fn test_universe_discovery_packet() -> Vec<u8> {
    let mut p = root_layer(110, 8);
    p.extend_from_slice(&(0x7000u16 | 88).to_be_bytes());
    p.extend_from_slice(&2u32.to_be_bytes());
    p.extend_from_slice(&source_name_field());
    p.extend_from_slice(&[0; 4]);
    p.extend_from_slice(&(0x7000u16 | 14).to_be_bytes());
    p.extend_from_slice(&1u32.to_be_bytes());
    p.extend_from_slice(&[1, 2]);
    for u in [3u16, 4, 5] {
        p.extend_from_slice(&u.to_be_bytes());
    }
    p
}

#[test]
fn test_data_packet_parse_pack() {
    let bytes = test_data_packet();
    assert_eq!(bytes.len(), 638);
    let packet = AcnRootLayerProtocol {
        pdu: E131RootLayer {
            cid: *Uuid::from_slice(&bytes[22..38]).unwrap().as_bytes(),
            data: E131RootLayerData::DataPacket(DataPacketFramingLayer {
                source_name: "Source_A".into(),
                priority: 100,
                synchronization_address: 7962,
                sequence_number: 154,
                preview_data: false,
                stream_terminated: false,
                force_synchronization: false,
                universe: 1,
                data: DataPacketDmpLayer { property_values: bytes[125..638].into() },
            }),
        },
    };

    assert_eq!(AcnRootLayerProtocol::parse(&bytes).unwrap(), packet);

    let mut buf = [0; 638];
    packet.pack(&mut buf).unwrap();
    assert_eq!(&buf[..packet.len()], &bytes[..]);
}

#[test]
fn rcv_tests_test_synchronization_packet_parse_pack() {
    let bytes = test_synchronization_packet();
    let packet = AcnRootLayerProtocol {
        pdu: E131RootLayer {
            cid: *Uuid::from_slice(&test_data_packet()[22..38]).unwrap().as_bytes(),
            data: E131RootLayerData::SynchronizationPacket(SynchronizationPacketFramingLayer {
                sequence_number: 0x70,
                synchronization_address: 7962,
            }),
        },
    };

    assert_eq!(AcnRootLayerProtocol::parse(&bytes).unwrap(), packet);

    let mut buf = [0; 49];
    packet.pack(&mut buf).unwrap();
    assert_eq!(&buf[..packet.len()], &bytes[..]);
}

#[test]
fn test_universe_discovery_packet_parse_pack() {
    let bytes = test_universe_discovery_packet();
    let packet = AcnRootLayerProtocol {
        pdu: E131RootLayer {
            cid: *Uuid::from_slice(&test_data_packet()[22..38]).unwrap().as_bytes(),
            data: E131RootLayerData::UniverseDiscoveryPacket(UniverseDiscoveryPacketFramingLayer {
                source_name: "Source_A".into(),
                data: UniverseDiscoveryPacketUniverseDiscoveryLayer { page: 1, last_page: 2, universes: vec![3, 4, 5] },
            }),
        },
    };

    assert_eq!(AcnRootLayerProtocol::parse(&bytes).unwrap(), packet);

    let mut buf = [0; 126];
    packet.pack(&mut buf).unwrap();
    assert_eq!(&buf[..packet.len()], &bytes[..]);
}
