use sacn::error::{ParsePackError, SacnError};
use sacn::packet::{
    AcnRootLayerProtocol, E131RootLayer, E131RootLayerData, UniverseDiscoveryPacketFramingLayer,
    UniverseDiscoveryPacketUniverseDiscoveryLayer, DISCOVERY_UNI_PER_PAGE,
};
use uuid::Uuid;

/// The smallest universe discovery packet, ANSI E1.31-2018 Section 6.1.
const DISCOVERY_PACKET_MIN_SIZE: usize = 120;

/// The largest universe discovery packet, ANSI E1.31-2018 Section 6.1.
const DISCOVERY_PACKET_MAX_SIZE: usize = 1144;

/// The CID that every packet of these tests carries.
const CID: [u8; 16] = [0xef, 0x07, 0xc8, 0xdd, 0x00, 0x64, 0x44, 0x01, 0xa3, 0xa2, 0x45, 0x9e, 0xf8, 0xe6, 0x14, 0x3e];

/// A universe discovery packet (ANSI E1.31-2018 Section 4.3 Table 4-3) from
/// "Source_A", page 1 of 2, whose root, framing and discovery layers give the
/// lengths and flags passed in, followed by the given universe bytes.
fn discovery_packet_with(root_len: u16, framing_len: u16, layer_len: u16, universe_bytes: &[u8]) -> Vec<u8> {
    let mut p: Vec<u8> = Vec::new();
    p.extend_from_slice(&0x0010u16.to_be_bytes());
    p.extend_from_slice(&0x0000u16.to_be_bytes());
    p.extend_from_slice(b"ASC-E1.17\0\0\0");
    p.extend_from_slice(&(0x7000 | root_len).to_be_bytes());
    p.extend_from_slice(&8u32.to_be_bytes());
    p.extend_from_slice(&CID);
    p.extend_from_slice(&(0x7000 | framing_len).to_be_bytes());
    p.extend_from_slice(&2u32.to_be_bytes());
    let mut name = b"Source_A".to_vec();
    name.resize(64, 0);
    p.extend_from_slice(&name);
    p.extend_from_slice(&[0; 4]);
    p.extend_from_slice(&(0x7000 | layer_len).to_be_bytes());
    p.extend_from_slice(&1u32.to_be_bytes());
    p.push(1);
    p.push(2);
    p.extend_from_slice(universe_bytes);
    p
}

/// The universe discovery packet listing the universes 0x0001, 0x0203 and 0x0405.
fn discovery_packet() -> Vec<u8> {
    discovery_packet_with(110, 88, 14, &[0, 1, 2, 3, 4, 5])
}

/// The universe discovery packet with the bytes at the given positions replaced.
fn discovery_packet_patched(patches: &[(usize, u8)]) -> Vec<u8> {
    let mut p = discovery_packet();
    for &(i, v) in patches {
        p[i] = v;
    }
    p
}

/// A universe discovery packet listing the universes 0 .. count.
fn generated_discovery_packet(count: u16) -> Vec<u8> {
    let layer_len = 8 + 2 * count;
    let framing_len = 74 + layer_len;
    let mut universes: Vec<u8> = Vec::new();
    for u in 0..count {
        universes.extend_from_slice(&u.to_be_bytes());
    }
    discovery_packet_with(22 + framing_len, framing_len, layer_len, &universes)
}

/// Parsing `bytes` fails with an error that `expected` accepts.
fn assert_rejected(bytes: &[u8], expected: fn(&SacnError) -> bool) {
    match AcnRootLayerProtocol::parse(bytes) {
        Err(e) => assert!(expected(&e), "Unexpected error type returned: {:?}", e),
        Ok(p) => panic!("Malformed packet was parsed when should have been rejected: {:?}", p),
    }
}

/// Parsing `bytes` gives a universe discovery packet from "Source_A", page
/// 1 of 2; its universes are returned.
fn parsed_discovery_universes(bytes: &[u8]) -> Vec<u16> {
    match AcnRootLayerProtocol::parse(bytes) {
        Err(e) => panic!("Unexpected error returned: {:?}", e),
        Ok(p) => match p.pdu.data {
            E131RootLayerData::UniverseDiscoveryPacket(udpfl) => {
                assert_eq!(udpfl.source_name, "Source_A");
                assert_eq!(udpfl.data.page, 1);
                assert_eq!(udpfl.data.last_page, 2);
                udpfl.data.universes
            },
            _ => panic!("Packet not parsed as discovery-packet as expected"),
        },
    }
}

fn is_parse_error(e: &SacnError) -> bool {
    matches!(e, SacnError::SacnParsePackError(_))
}

fn is_invalid_vector(e: &SacnError) -> bool {
    matches!(e, SacnError::SacnParsePackError(ParsePackError::PduInvalidVector(_)))
}

fn is_insufficient_data(e: &SacnError) -> bool {
    matches!(e, SacnError::SacnParsePackError(ParsePackError::ParseInsufficientData))
}

fn is_invalid_flags(e: &SacnError) -> bool {
    matches!(e, SacnError::SacnParsePackError(ParsePackError::ParsePduInvalidFlags(_)))
}

#[test]
fn test_discovery_packet_parse_pack() {
    let bytes = discovery_packet();
    let packet = AcnRootLayerProtocol {
        pdu: E131RootLayer {
            cid: *Uuid::from_slice(&bytes[22..38]).unwrap().as_bytes(),
            data: E131RootLayerData::UniverseDiscoveryPacket(UniverseDiscoveryPacketFramingLayer {
                source_name: "Source_A".into(),
                data: UniverseDiscoveryPacketUniverseDiscoveryLayer {
                    page: 1,
                    last_page: 2,
                    universes: vec![0x0001, 0x0203, 0x0405],
                },
            }),
        },
    };

    assert_eq!(AcnRootLayerProtocol::parse(&bytes).unwrap(), packet);

    let mut buf = [0; 126];
    packet.pack(&mut buf).unwrap();
    assert_eq!(&buf[..packet.len()], &bytes[..]);
}

#[test]
fn test_discovery_packet_root_layer_unknown_vector_parse() {
    assert_rejected(&discovery_packet_patched(&[(20, 0x01)]), is_invalid_vector);
}

/// With the data vector the packet is parsed as a data packet, so any parse error will do.
#[test]
fn test_discovery_packet_root_layer_data_vector_parse() {
    assert_rejected(&discovery_packet_patched(&[(21, 0x04)]), is_parse_error);
}

#[test]
fn test_discovery_packet_too_short_cid_parse() {
    let mut bytes = discovery_packet();
    bytes.remove(37);
    assert_rejected(&bytes, is_insufficient_data);
}

/// Every field after a too long CID is shifted, so any parse error will do.
#[test]
fn test_discovery_packet_too_long_cid_parse() {
    let mut bytes = discovery_packet();
    bytes.insert(38, 0x3e);
    assert_rejected(&bytes, is_parse_error);
}

#[test]
fn test_discovery_packet_wrong_flags_parse() {
    assert_rejected(&discovery_packet_patched(&[(16, 0x60)]), is_invalid_flags);
}

#[test]
fn test_discovery_packet_framing_layer_length_too_long_parse() {
    assert_rejected(&discovery_packet_patched(&[(39, 89)]), is_insufficient_data);
}

#[test]
fn test_discovery_packet_framing_layer_length_too_short_parse() {
    assert_rejected(&discovery_packet_patched(&[(39, 87)]), is_insufficient_data);
}

#[test]
fn test_discovery_packet_framing_layer_wrong_flags_parse() {
    assert_rejected(&discovery_packet_patched(&[(38, 0x60)]), is_invalid_flags);
}

/// With the synchronization vector the packet is parsed as a synchronization packet, so any parse error will do.
#[test]
fn test_discovery_packet_sync_framing_vector_parse() {
    assert_rejected(&discovery_packet_patched(&[(43, 0x01)]), is_parse_error);
}

#[test]
fn test_discovery_packet_unknown_framing_vector_parse() {
    assert_rejected(&discovery_packet_patched(&[(43, 0x07)]), is_invalid_vector);
}

/// The reserved bytes of the framing layer are ignored.
#[test]
fn test_discovery_packet_arbitary_reserved_parse() {
    let bytes = discovery_packet_patched(&[(108, 255), (109, 254), (110, 253), (111, 252)]);
    assert_eq!(parsed_discovery_universes(&bytes), vec![0x01, 0x0203, 0x0405]);
}

#[test]
fn test_discovery_packet_discovery_layer_wrong_flags_parse() {
    assert_rejected(&discovery_packet_patched(&[(112, 0x60)]), is_invalid_flags);
}

#[test]
fn test_discovery_packet_discovery_layer_length_too_short_parse() {
    assert_rejected(&discovery_packet_patched(&[(113, 13)]), is_insufficient_data);
}

#[test]
fn test_discovery_packet_discovery_layer_length_too_long_parse() {
    assert_rejected(&discovery_packet_patched(&[(113, 15)]), is_insufficient_data);
}

#[test]
fn test_discovery_packet_discovery_layer_vector_unknown_parse() {
    assert_rejected(&discovery_packet_patched(&[(117, 0)]), is_invalid_vector);
}

#[test]
fn test_discovery_packet_page_higher_than_last_page_parse() {
    assert_rejected(&discovery_packet_patched(&[(118, 3)]), |e| {
        matches!(e, SacnError::SacnParsePackError(ParsePackError::ParseInvalidPage))
    });
}

#[test]
fn test_discovery_packet_decending_order_parse() {
    let bytes = discovery_packet_patched(&[(120, 5), (121, 4), (122, 3), (123, 2), (124, 1), (125, 0)]);
    assert_rejected(&bytes, |e| matches!(e, SacnError::SacnParsePackError(ParsePackError::ParseInvalidUniverseOrder)));
}

#[test]
fn test_discovery_packet_random_order_parse() {
    let bytes = discovery_packet_patched(&[(120, 3), (121, 7), (122, 5), (123, 9), (124, 1), (125, 2)]);
    assert_rejected(&bytes, |e| matches!(e, SacnError::SacnParsePackError(ParsePackError::ParseInvalidUniverseOrder)));
}

#[test]
fn test_discovery_packet_no_universes() {
    let bytes = generated_discovery_packet(0);
    assert_eq!(bytes.len(), DISCOVERY_PACKET_MIN_SIZE);
    assert_eq!(parsed_discovery_universes(&bytes), Vec::<u16>::new());
}

#[test]
fn test_discovery_packet_max_universe_capacity() {
    let bytes = generated_discovery_packet(DISCOVERY_UNI_PER_PAGE as u16);
    assert_eq!(bytes.len(), DISCOVERY_PACKET_MAX_SIZE);
    assert_eq!(parsed_discovery_universes(&bytes).len(), DISCOVERY_UNI_PER_PAGE);
}

#[test]
fn test_discovery_packet_above_max_universe_capacity() {
    let bytes = generated_discovery_packet((DISCOVERY_UNI_PER_PAGE as u16) + 1);
    assert_rejected(&bytes, |e| matches!(e, SacnError::SacnParsePackError(ParsePackError::PduInvalidLength(_))));
}

/// The base packet is the one the generator makes for the universes 0x0001, 0x0203 and 0x0405.
#[test]
fn discovery_packet_builders_agree() {
    let mut expected = generated_discovery_packet(3);
    expected.truncate(120);
    expected.extend_from_slice(&[0, 1, 2, 3, 4, 5]);
    assert_eq!(expected, discovery_packet());
}
