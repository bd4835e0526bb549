use fips_browser::fmp;
use fips_browser::wire;

// --- link framing ---

#[test]
fn msg1_bytes() {
    let noise = [0xaau8; 106];
    let pkt = wire::build_msg1(0x01020304, &noise);
    assert_eq!(pkt.len(), wire::MSG1_WIRE_SIZE);
    assert_eq!(pkt[..8], [0x01, 0, 110, 0, 4, 3, 2, 1]);
    assert_eq!(pkt[8..], noise);
    assert_eq!(fmp::build_msg1(0x01020304, &noise), pkt);

    let header = fmp::Msg1Header::parse(&pkt).unwrap();
    assert_eq!(header.sender_idx, 0x01020304);
    assert_eq!(header.noise_payload, noise);
    assert!(fmp::Msg1Header::parse(&pkt[..113]).is_none());
    assert!(fmp::Msg2Header::parse(&pkt).is_none());
}

#[test]
fn msg2_is_read() {
    let mut pkt = vec![0x02, 0, 65, 0, 4, 3, 2, 1, 8, 7, 6, 5];
    pkt.extend_from_slice(&[0xbb; 57]);
    assert_eq!(pkt.len(), wire::MSG2_WIRE_SIZE);
    let short = wire::Msg2Header::parse(&pkt).unwrap();
    assert_eq!(short.sender_idx, 0x01020304);
    assert_eq!(short.noise_payload, [0xbb; 57]);
    let full = fmp::Msg2Header::parse(&pkt).unwrap();
    assert_eq!(full.sender_idx, 0x01020304);
    assert_eq!(full.receiver_idx, 0x05060708);
    assert_eq!(full.noise_payload, [0xbb; 57]);

    assert!(wire::Msg2Header::parse(&pkt[..68]).is_none());
    // Another protocol version: refused only where the version is read.
    pkt[0] = 0x12;
    assert!(wire::Msg2Header::parse(&pkt).is_some());
    assert!(fmp::Msg2Header::parse(&pkt).is_none());
}

#[test]
fn prefixes() {
    assert!(wire::CommonPrefix::parse(&[0, 1, 2]).is_none());
    assert_eq!(wire::CommonPrefix::parse(&[0x31, 0, 0, 0]).unwrap().phase, 1);
    assert!(fmp::CommonPrefix::parse(&[0, 1, 2]).is_none());
    let p = fmp::CommonPrefix::parse(&[0x31, 5, 0x34, 0x12]).unwrap();
    assert_eq!((p.version, p.phase, p.flags, p.payload_len), (3, 1, 5, 0x1234));
    assert_eq!(fmp::ver_phase_byte(3, 1), 0x31);
    assert_eq!(fmp::ver_phase_byte(0x1f, 0xff), 0xff);
}

#[test]
fn encrypted_frames() {
    let header = wire::build_established_header(1, 5, 0x01020304, 0x0a0b);
    assert_eq!(
        header,
        [0, 1, 5, 0, 4, 3, 2, 1, 0x0b, 0x0a, 0, 0, 0, 0, 0, 0]
    );
    let ciphertext = [9u8; 21];
    let frame = fmp::build_encrypted_frame(1, 0x01020304, 0x0a0b, &ciphertext);
    assert_eq!(frame[..16], header);
    assert_eq!(frame[16..], ciphertext);

    let read = wire::EncryptedHeader::parse(&frame).unwrap();
    assert_eq!(read.counter, 0x0a0b);
    assert_eq!(read.header_bytes, header);
    assert_eq!(read.ciphertext(&frame), ciphertext);

    let full = fmp::EncryptedHeader::parse(&frame).unwrap();
    assert_eq!(full.flags, fmp::FLAG_KEY_EPOCH);
    assert_eq!(full.payload_len, 5);
    assert_eq!(full.receiver_idx, 0x01020304);
    assert_eq!(full.counter, 0x0a0b);
    assert_eq!(full.header_bytes, header);
    assert_eq!(full.ciphertext(&frame), ciphertext);

    assert!(wire::EncryptedHeader::parse(&frame[..31]).is_none());
    assert!(fmp::EncryptedHeader::parse(&frame[..31]).is_none());
    let mut other = frame;
    other[0] = 0x10;
    assert!(wire::EncryptedHeader::parse(&other).is_none());
    assert!(fmp::EncryptedHeader::parse(&other).is_none());
    // A ciphertext without a full tag counts no payload.
    assert_eq!(fmp::build_encrypted_frame(0, 0, 0, &[1u8; 3])[2..4], [0, 0]);
}

#[test]
fn inner_messages() {
    let inner = fmp::build_inner(0x01020304, 0x51, b"abc");
    assert_eq!(inner, [4, 3, 2, 1, 0x51, b'a', b'b', b'c']);
    assert_eq!(wire::parse_inner(&inner), Some((0x01020304, 0x51, &b"abc"[..])));
    assert_eq!(fmp::parse_inner(&inner), Some((0x01020304, 0x51, &b"abc"[..])));
    assert_eq!(wire::parse_inner(&inner[..4]), None);
    assert_eq!(fmp::parse_inner(&inner[..4]), None);
}

// --- session framing ---

#[test]
fn datagrams() {
    let body = wire::build_session_datagram_body(64, 0xfffe, &[1; 16], &[2; 16], b"payload");
    assert_eq!(body.len(), 42);
    assert_eq!(body[..3], [64, 0xfe, 0xff]);
    let (ttl, mtu, src, dest, payload) = wire::parse_session_datagram_body(&body).unwrap();
    assert_eq!((ttl, mtu, src, dest), (64, 0xfffe, [1; 16], [2; 16]));
    assert_eq!(payload, b"payload");
    assert!(wire::parse_session_datagram_body(&body[..34]).is_none());
}

#[test]
fn coordinates() {
    let coords = [[1u8; 16], [2u8; 16]];
    let encoded = wire::encode_coords(&coords);
    assert_eq!(encoded.len(), 34);
    assert_eq!(encoded[..2], [2, 0]);
    let mut data = vec![0xff];
    data.extend_from_slice(&encoded);
    let (read, end) = wire::parse_coords(&data, 1).unwrap();
    assert_eq!(read, coords);
    assert_eq!(end, 35);
    assert!(wire::parse_coords(&data[..34], 1).is_none());
    assert!(wire::parse_coords(&data, 34).is_none());
}

#[test]
fn session_messages() {
    let setup = wire::build_session_setup(&[[1; 16]], &[[2; 16], [3; 16]], b"hs");
    assert_eq!(setup[0], wire::FSP_PHASE_SETUP);
    assert_eq!(setup[2..4], [(setup.len() - 4) as u8, 0]);
    let (src, dest, hs) = wire::parse_session_setup_body(&setup[4..]).unwrap();
    assert_eq!(src, [[1; 16]]);
    assert_eq!(dest, [[2; 16], [3; 16]]);
    assert_eq!(hs, b"hs");

    let ack = wire::build_session_ack(&[], &[[2; 16]], b"hs2");
    assert_eq!(ack[0], wire::FSP_PHASE_ACK);
    let (src, dest, hs) = wire::parse_session_ack_body(&ack[4..]).unwrap();
    assert!(src.is_empty());
    assert_eq!(dest, [[2; 16]]);
    assert_eq!(hs, b"hs2");

    let msg3 = wire::build_session_msg3(b"hs3");
    assert_eq!(msg3[0], wire::FSP_PHASE_MSG3);
    assert_eq!(wire::parse_session_msg3_body(&msg3[4..]).unwrap(), b"hs3");

    assert!(wire::parse_session_setup_body(&setup[4..setup.len() - 1]).is_none());
    assert!(wire::parse_session_ack_body(&[]).is_none());
    assert!(wire::parse_session_msg3_body(&msg3[4..msg3.len() - 1]).is_none());
}

#[test]
fn session_data_headers() {
    let header = wire::build_fsp_header(1, 0x0203, 0x0405);
    assert_eq!(header, [0, 1, 3, 2, 5, 4, 0, 0, 0, 0, 0, 0]);
    let mut data = header.to_vec();
    data.extend_from_slice(&[0u8; 16]);
    assert_eq!(
        wire::parse_fsp_header(&data),
        Some((1, 0x0203, 0x0405, header))
    );
    assert_eq!(wire::parse_fsp_header(&data[..27]), None);
    assert_eq!(wire::build_fsp_inner(0x01020304, 0x10, 7), [4, 3, 2, 1, 0x10, 7]);
}

// --- time ---

#[test]
fn clocks() {
    assert_eq!(wire::unix_secs_of(1_999), 1);
    assert_eq!(wire::timestamp_of(0x1_0000_0005), 5);
    let before = wire::current_time_ms();
    assert!(before > 1_600_000_000_000);
    assert!(wire::current_unix_secs() >= before / 1000);
    let stamp = wire::current_timestamp_ms();
    assert!(stamp.wrapping_sub(before as u32) < 60_000);
}
