use sacn::packet::{AcnRootLayerProtocol, E131RootLayer, E131RootLayerData, SynchronizationPacketFramingLayer};
use uuid::Uuid;

/// The synchronization packet of ANSI E1.31-2018 Appendix B Table B-14
/// (Universe Synchronization Example E1.31 Synchronization Packet).
fn example_synchronization_packet() -> Vec<u8> {
    let cid: [u8; 16] = [0xef, 0x07, 0xc8, 0xdd, 0x00, 0x64, 0x44, 0x01, 0xa3, 0xa2, 0x45, 0x9e, 0xf8, 0xe6, 0x14, 0x3e];
    let mut p: Vec<u8> = vec![0x00, 0x10, 0x00, 0x00];
    p.extend_from_slice(b"ASC-E1.17\0\0\0");
    p.extend_from_slice(&[0x70, 0x21, 0x00, 0x00, 0x00, 0x08]);
    p.extend_from_slice(&cid);
    p.extend_from_slice(&[0x70, 0x0b, 0x00, 0x00, 0x00, 0x01]);
    p.push(0x70);
    p.extend_from_slice(&[0x1f, 0x1a]);
    p.extend_from_slice(&[0, 0]);
    p
}

#[test]
fn sync_parse_tests_test_synchronization_packet_parse_pack() {
    let bytes = example_synchronization_packet();
    assert_eq!(bytes.len(), 49);
    let packet = AcnRootLayerProtocol {
        pdu: E131RootLayer {
            cid: *Uuid::from_slice(&bytes[22..38]).unwrap().as_bytes(),
            data: E131RootLayerData::SynchronizationPacket(SynchronizationPacketFramingLayer {
                sequence_number: 0x70,
                synchronization_address: 7962,
            }),
        },
    };

    assert_eq!(AcnRootLayerProtocol::parse(&bytes).unwrap(), packet);

    let mut buf = [0; 49];
    packet.pack(&mut buf).unwrap();
    assert_eq!(&buf[..packet.len()], &bytes[..]);
}

#[test]
fn sync_layer_packs_and_parses_back() {
    let s = SynchronizationPacketFramingLayer { sequence_number: 0x70, synchronization_address: 7962 };
    let mut buf = [0xaau8; 16];
    assert_eq!(s.pack(&mut buf), Ok(()));
    assert_eq!(&buf[..11], &[0x70, 0x0b, 0x00, 0x00, 0x00, 0x01, 0x70, 0x1f, 0x1a, 0, 0]);
    assert_eq!(SynchronizationPacketFramingLayer::parse(&buf), Ok(s));
    assert_eq!(SynchronizationPacketFramingLayer::parse(&buf[..s.len()]), Ok(s));
    let mut short = [0u8; 10];
    assert_eq!(
        s.pack(&mut short),
        Err(sacn::error::SacnError::SacnParsePackError(sacn::error::ParsePackError::PackBufferInsufficient))
    );
    assert_eq!(short, [0u8; 10]);
}
