use std::time::Duration;

use sacn::error::SacnError;
use sacn::packet::{
    is_universe_in_range, universe_to_ipv4_multicast_addr, universe_to_ipv6_multicast_addr, ACN_SDT_MULTICAST_PORT,
    E131_DISCOVERY_UNIVERSE, E131_MAX_MULTICAST_UNIVERSE, E131_MIN_MULTICAST_UNIVERSE, E131_NETWORK_DATA_LOSS_TIMEOUT,
    E131_UNIVERSE_DISCOVERY_INTERVAL, VECTOR_DMP_SET_PROPERTY, VECTOR_E131_DATA_PACKET,
    VECTOR_E131_EXTENDED_DISCOVERY, VECTOR_E131_EXTENDED_SYNCHRONIZATION, VECTOR_ROOT_E131_DATA,
    VECTOR_ROOT_E131_EXTENDED, VECTOR_UNIVERSE_DISCOVERY_UNIVERSE_LIST,
};

/// The universe_to tests below check that the conversion from a universe to an IPv6 or IPv4 multicast address is done as
/// per ANSI E1.31-2018 Section 9.3.1 Table 9-10 (IPv4) and ANSI E1.31-2018 Section 9.3.2 Table 9-11 + Table 9-12.
#[test]
fn test_universe_to_ipv4_lowest_byte_normal() {
    let val: u16 = 119;
    let res = universe_to_ipv4_multicast_addr(val).unwrap();
    assert!(res.octets[0] >= 224 && res.octets[0] <= 239);
    assert_eq!(res.octets, [239, 255, (val / 256) as u8, (val % 256) as u8]);
    assert_eq!(res.port, ACN_SDT_MULTICAST_PORT);
}

#[test]
fn test_universe_to_ip_ipv4_both_bytes_normal() {
    let val: u16 = 300;
    let res = universe_to_ipv4_multicast_addr(val).unwrap();
    assert!(res.octets[0] >= 224 && res.octets[0] <= 239);
    assert_eq!(res.octets, [239, 255, (val / 256) as u8, (val % 256) as u8]);
    assert_eq!(res.port, ACN_SDT_MULTICAST_PORT);
}

#[test]
fn test_universe_to_ip_ipv4_limit_high() {
    let res = universe_to_ipv4_multicast_addr(E131_MAX_MULTICAST_UNIVERSE).unwrap();
    assert!(res.octets[0] >= 224 && res.octets[0] <= 239);
    assert_eq!(
        res.octets,
        [239, 255, (E131_MAX_MULTICAST_UNIVERSE / 256) as u8, (E131_MAX_MULTICAST_UNIVERSE % 256) as u8]
    );
    assert_eq!(res.port, ACN_SDT_MULTICAST_PORT);
}

#[test]
fn test_universe_to_ip_ipv4_limit_low() {
    let res = universe_to_ipv4_multicast_addr(E131_MIN_MULTICAST_UNIVERSE).unwrap();
    assert!(res.octets[0] >= 224 && res.octets[0] <= 239);
    assert_eq!(
        res.octets,
        [239, 255, (E131_MIN_MULTICAST_UNIVERSE / 256) as u8, (E131_MIN_MULTICAST_UNIVERSE % 256) as u8]
    );
    assert_eq!(res.port, ACN_SDT_MULTICAST_PORT);
}

#[test]
fn test_universe_to_ip_ipv4_out_range_low() {
    match universe_to_ipv4_multicast_addr(0) {
        Ok(_) => assert!(false, "Universe to ipv4 multicast allowed below minimum allowed universe"),
        Err(e) => match e {
            SacnError::IllegalUniverse => assert!(true),
            _ => assert!(false, "Unexpected error type returned"),
        },
    }
}

#[test]
fn test_universe_to_ip_ipv4_out_range_high() {
    match universe_to_ipv4_multicast_addr(E131_MAX_MULTICAST_UNIVERSE + 10) {
        Ok(_) => assert!(false, "Universe to ipv4 multicast allowed above maximum allowed universe"),
        Err(e) => match e {
            SacnError::IllegalUniverse => assert!(true),
            _ => assert!(false, "Unexpected error type returned"),
        },
    }
}

#[test]
fn test_universe_to_ipv6_lowest_byte_normal() {
    let val: u16 = 119;
    let res = universe_to_ipv6_multicast_addr(val).unwrap();
    assert_eq!(res.segments[0] >> 8, 0xFF);
    let low_16: u16 = (((val / 256) as u16) << 8) | ((val % 256) as u16);
    assert_eq!(res.segments, [0xFF18, 0, 0, 0, 0, 0, 0x8300, low_16]);
    assert_eq!(res.port, ACN_SDT_MULTICAST_PORT);
}

#[test]
fn test_universe_to_ip_ipv6_both_bytes_normal() {
    let val: u16 = 300;
    let res = universe_to_ipv6_multicast_addr(val).unwrap();
    assert_eq!(res.segments[0] >> 8, 0xFF);
    let low_16: u16 = (((val / 256) as u16) << 8) | ((val % 256) as u16);
    assert_eq!(res.segments, [0xFF18, 0, 0, 0, 0, 0, 0x8300, low_16]);
    assert_eq!(res.port, ACN_SDT_MULTICAST_PORT);
}

#[test]
fn test_universe_to_ip_ipv6_limit_high() {
    let res = universe_to_ipv6_multicast_addr(E131_MAX_MULTICAST_UNIVERSE).unwrap();
    assert_eq!(res.segments[0] >> 8, 0xFF);
    let low_16: u16 =
        (((E131_MAX_MULTICAST_UNIVERSE / 256) as u16) << 8) | ((E131_MAX_MULTICAST_UNIVERSE % 256) as u16);
    assert_eq!(res.segments, [0xFF18, 0, 0, 0, 0, 0, 0x8300, low_16]);
    assert_eq!(res.port, ACN_SDT_MULTICAST_PORT);
}

#[test]
fn test_universe_to_ip_ipv6_limit_low() {
    let res = universe_to_ipv6_multicast_addr(E131_MIN_MULTICAST_UNIVERSE).unwrap();
    assert_eq!(res.segments[0] >> 8, 0xFF);
    let low_16: u16 =
        (((E131_MIN_MULTICAST_UNIVERSE / 256) as u16) << 8) | ((E131_MIN_MULTICAST_UNIVERSE % 256) as u16);
    assert_eq!(res.segments, [0xFF18, 0, 0, 0, 0, 0, 0x8300, low_16]);
    assert_eq!(res.port, ACN_SDT_MULTICAST_PORT);
}

#[test]
fn test_universe_to_ip_ipv6_out_range_low() {
    match universe_to_ipv6_multicast_addr(0) {
        Ok(_) => assert!(false, "Universe to ipv4 multicast allowed below minimum allowed universe"),
        Err(e) => match e {
            SacnError::IllegalUniverse => assert!(true),
            _ => assert!(false, "Unexpected error type returned"),
        },
    }
}

#[test]
fn test_universe_to_ip_ipv6_out_range_high() {
    match universe_to_ipv6_multicast_addr(E131_MAX_MULTICAST_UNIVERSE + 10) {
        Ok(_) => assert!(false, "Universe to ipv4 multicast allowed above maximum allowed universe"),
        Err(e) => match e {
            SacnError::IllegalUniverse => assert!(true),
            _ => assert!(false, "Unexpected error type returned"),
        },
    }
}

/// Verifies that the parameters are set correctly as per ANSI E1.31-2018 Appendix A: Defined Parameters (Normative).
#[test]
fn check_ansi_e131_2018_parameter_values() {
    assert_eq!(VECTOR_ROOT_E131_DATA, 0x0000_0004);
    assert_eq!(VECTOR_ROOT_E131_EXTENDED, 0x0000_0008);
    assert_eq!(VECTOR_DMP_SET_PROPERTY, 0x02);
    assert_eq!(VECTOR_E131_DATA_PACKET, 0x0000_0002);
    assert_eq!(VECTOR_E131_EXTENDED_SYNCHRONIZATION, 0x0000_0001);
    assert_eq!(VECTOR_E131_EXTENDED_DISCOVERY, 0x0000_0002);
    assert_eq!(VECTOR_UNIVERSE_DISCOVERY_UNIVERSE_LIST, 0x0000_0001);
    assert_eq!(Duration::from_millis(E131_UNIVERSE_DISCOVERY_INTERVAL), Duration::from_secs(10));
    assert_eq!(Duration::from_millis(E131_NETWORK_DATA_LOSS_TIMEOUT), Duration::from_millis(2500));
    assert_eq!(E131_DISCOVERY_UNIVERSE, 64214);
    assert_eq!(ACN_SDT_MULTICAST_PORT, 5568);
}

#[test]
fn universe_range_accepts_discovery_and_multicast_universes() {
    assert_eq!(is_universe_in_range(E131_DISCOVERY_UNIVERSE), Ok(()));
    assert_eq!(is_universe_in_range(1), Ok(()));
    assert_eq!(is_universe_in_range(63999), Ok(()));
    assert_eq!(is_universe_in_range(0), Err(SacnError::IllegalUniverse));
    assert_eq!(is_universe_in_range(64000), Err(SacnError::IllegalUniverse));
    assert_eq!(is_universe_in_range(65535), Err(SacnError::IllegalUniverse));
}

#[test]
fn source_names_read_up_to_the_first_null() {
    assert_eq!(sacn::packet::parse_source_name_str(&[]), Err(SacnError::SacnParsePackError(sacn::error::ParsePackError::SourceNameInvalid)));
    assert_eq!(sacn::packet::parse_source_name_str(b"abc"), Err(SacnError::SacnParsePackError(sacn::error::ParsePackError::SourceNameInvalid)));
    assert_eq!(sacn::packet::parse_source_name_str(b"abc\0def"), Ok("abc"));
    assert_eq!(sacn::packet::parse_source_name_str(b"\0"), Ok(""));
    assert_eq!(sacn::packet::parse_source_name_str(&[0xff, 0]), Err(SacnError::Str));
}
