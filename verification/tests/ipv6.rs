use fips_browser::ipv6::{
    build_icmpv6_echo_reply, build_icmpv6_echo_request, compress_ipv6, decompress_ipv6,
    format_ipv6, ipv6_from_node_addr, parse_icmpv6_echo_reply, parse_icmpv6_echo_request,
};

fn addr(n: u8) -> [u8; 16] {
    ipv6_from_node_addr(&[n; 16])
}

#[test]
fn addresses_of_nodes() {
    let mut expected = [7u8; 16];
    expected[0] = 0xfd;
    assert_eq!(addr(7), expected);
    assert_eq!(format_ipv6(&addr(7)), "fd07:707:707:707:707:707:707:707");
    assert_eq!(format_ipv6(&[0u8; 16]), "::");
    let mut loopback = [0u8; 16];
    loopback[15] = 1;
    assert_eq!(format_ipv6(&loopback), "::1");
    let mut gap = [0u8; 16];
    gap[0] = 0xfd;
    gap[15] = 9;
    assert_eq!(format_ipv6(&gap), "fd00::9");
    let mut mapped = [0u8; 16];
    mapped[10] = 0xff;
    mapped[11] = 0xff;
    mapped[12] = 192;
    mapped[15] = 33;
    assert_eq!(format_ipv6(&mapped), "::ffff:192.0.0.33");
    let mut two_gaps = [0u8; 16];
    two_gaps[5] = 1;
    two_gaps[13] = 2;
    assert_eq!(format_ipv6(&two_gaps), "0:0:1::2:0");
    let mut one_zero = [1u8; 16];
    one_zero[2] = 0;
    one_zero[3] = 0;
    assert_eq!(format_ipv6(&one_zero), "101:0:101:101:101:101:101:101");
}

#[test]
fn echo_request_bytes() {
    let request = build_icmpv6_echo_request(addr(1), addr(2), 7);
    assert_eq!(request.len(), 65);
    assert_eq!(request[..8], [0x60, 0, 0, 0, 0, 25, 58, 64]);
    assert_eq!(request[8..24], addr(1));
    assert_eq!(request[24..40], addr(2));
    assert_eq!(request[40..48], [128, 0, 0x2e, 0x12, 0xf1, 0x05, 0, 7]);
    assert_eq!(&request[48..], b"fips-browser-ping");
    assert_eq!(parse_icmpv6_echo_request(&request), Some((0xf105, 7)));
    assert_eq!(parse_icmpv6_echo_reply(&request), None);
}

#[test]
fn echo_reply_answers_its_request() {
    let request = build_icmpv6_echo_request(addr(1), addr(2), 7);
    let reply = build_icmpv6_echo_reply(&request).unwrap();
    assert_eq!(reply.len(), request.len());
    assert_eq!(reply[8..24], addr(2));
    assert_eq!(reply[24..40], addr(1));
    assert_eq!(reply[40..48], [129, 0, 0x2d, 0x12, 0xf1, 0x05, 0, 7]);
    assert_eq!(reply[48..], request[48..]);
    assert_eq!(parse_icmpv6_echo_reply(&reply), Some((0xf105, 7)));
    assert_eq!(build_icmpv6_echo_reply(&reply), None);
    assert_eq!(build_icmpv6_echo_reply(&request[..47]), None);
}

#[test]
fn checksums_verify() {
    let packet = build_icmpv6_echo_request(addr(9), addr(200), 0xbeef);
    let mut sum: u32 = 25 + 58;
    for chunk in packet[8..].chunks(2) {
        sum += (chunk[0] as u32) << 8 | *chunk.get(1).unwrap_or(&0) as u32;
    }
    while sum > 0xffff {
        sum = (sum & 0xffff) + (sum >> 16);
    }
    assert_eq!(sum, 0xffff);
}

#[test]
fn shim_round_trip() {
    let request = build_icmpv6_echo_request(addr(1), addr(2), 7);
    let shim = compress_ipv6(&request).unwrap();
    assert_eq!(shim.len(), request.len() - 40 + 7);
    assert_eq!(shim[0], 0);
    assert_eq!(decompress_ipv6(&shim, addr(1), addr(2)).unwrap(), request);
    let elsewhere = decompress_ipv6(&shim, addr(3), addr(4)).unwrap();
    assert_eq!(elsewhere[8..24], addr(3));
    assert_eq!(elsewhere[40..], request[40..]);
}

#[test]
fn shim_refusals() {
    assert_eq!(compress_ipv6(&[0x60u8; 39]), None);
    assert_eq!(compress_ipv6(&[0x40u8; 60]), None);
    assert_eq!(decompress_ipv6(&[0u8; 6], addr(1), addr(2)), None);
    assert_eq!(decompress_ipv6(&[1u8; 20], addr(1), addr(2)), None);
    assert!(decompress_ipv6(&[0u8; 7], addr(1), addr(2)).is_some());
}
