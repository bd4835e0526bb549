use fips_browser::bloom::{
    build_filter_announce, build_self_filter_announce, BloomFilter, FILTER_BYTES,
};
use fips_browser::bytes;
use fips_browser::cipher::CipherState;
use fips_browser::identity::{
    decode_npub, ecdh, encode_npub, node_addr_from_x_only, normalize_for_premessage,
    pubkey_from_bytes, pubkey_from_x_only, pubkey_to_bytes, pubkey_to_npub, Identity, SecretKey,
};
use fips_browser::mmp::ReceiverState;
use fips_browser::noise::SymmetricState;
use fips_browser::replay::ReplayWindow;
use fips_browser::text;

const NPUB_A: &str = "npub1sjlh2c3x9w7kjsqg2ay080n2lff2uvt325vpan33ke34rn8l5jcqawh57m";
const NPUB_B: &str = "npub1tdwa4vjrjl33pcjdpf2t4p027nl86xrx24g4d3avg4vwvayr3g8qhd84le";
const NSEC_A: &str = "nsec1qypqxpq9qcrsszg2pvxq6rs0zqg3yyc5z5tpwxqergd3c8g7rusqpqcc2y";
const HEX_A: &str = "0102030405060708090a0b0c0d0e0f101112131415161718191a1b1c1d1e1f20";
const HEX_B: &str = "b102030405060708090a0b0c0d0e0f101112131415161718191a1b1c1d1e1fb0";

fn hex_of(data: &[u8]) -> String {
    hex::encode(data)
}

// --- identities ---

#[test]
fn known_identities() {
    let a = Identity::from_secret_str(HEX_A).unwrap();
    assert_eq!(a.npub(), NPUB_A);
    assert_eq!(a.node_addr_hex(), "69e08d65cc3a6b9c2c2ac4bd405e4b0e");
    let b = Identity::from_secret_str(HEX_B).unwrap();
    assert_eq!(b.npub(), NPUB_B);
    assert_eq!(b.node_addr_hex(), "8e302c287eb48d6268122fda760b7727");
}

#[test]
fn nsec_and_hex_name_the_same_identity() {
    let a = Identity::from_secret_str(NSEC_A).unwrap();
    assert_eq!(a.npub(), NPUB_A);
    assert_eq!(hex_of(&a.secret_key().to_bytes()), HEX_A);
}

#[test]
fn secrets_that_are_refused() {
    let too_short = Identity::from_secret_str("0102").err().unwrap();
    assert_eq!(too_short, "expected 32 bytes, got 2");
    let zero = Identity::from_secret_str(&"00".repeat(32)).err().unwrap();
    assert_eq!(zero, "invalid secret key: crypto error");
    let order = "fffffffffffffffffffffffffffffffebaaedce6af48a03bbfd25e8cd0364141";
    assert!(Identity::from_secret_str(order).is_err());
    let below = "fffffffffffffffffffffffffffffffebaaedce6af48a03bbfd25e8cd0364140";
    assert!(Identity::from_secret_str(below).is_ok());
    assert_eq!(
        Identity::from_secret_str("xyz").err().unwrap(),
        "hex decode: Odd number of digits"
    );
    assert_eq!(
        Identity::from_secret_str("zz").err().unwrap(),
        "hex decode: Invalid character 'z' at position 0"
    );
    assert!(Identity::from_secret_str("nsec1qqqq")
        .err()
        .unwrap()
        .starts_with("bech32 decode: "));
}

#[test]
fn npub_round_trip_and_errors() {
    let x = decode_npub(NPUB_A).unwrap();
    assert_eq!(
        hex_of(&x),
        "84bf7562262bbd6940085748f3be6afa52ae317155181ece31b66351ccffa4b0"
    );
    assert_eq!(encode_npub(&x), NPUB_A);
    assert_eq!(hex_of(&node_addr_from_x_only(&x)), "69e08d65cc3a6b9c2c2ac4bd405e4b0e");
    assert_eq!(decode_npub(&NPUB_A.to_uppercase()).unwrap(), x);
    assert_eq!(
        decode_npub(NSEC_A).err().unwrap(),
        "expected npub prefix, got nsec"
    );
    assert!(decode_npub("npub1").is_err());
}

#[test]
fn keys_in_bytes() {
    let b = Identity::from_secret_str(HEX_B).unwrap();
    let public = b.secret_key().public_key();
    assert_eq!(
        hex_of(&pubkey_to_bytes(&public)),
        "035b5ddab24397e310e24d0a54ba85eaf4fe7d1866555156c7ac4558e674838a0e"
    );
    assert_eq!(
        hex_of(&normalize_for_premessage(&public)),
        "025b5ddab24397e310e24d0a54ba85eaf4fe7d1866555156c7ac4558e674838a0e"
    );
    assert_eq!(pubkey_to_npub(&public), NPUB_B);
    let again = pubkey_from_bytes(&public.to_bytes()).unwrap();
    assert_eq!(again.to_bytes(), public.to_bytes());
    let even = pubkey_from_x_only(&public.x_only()).unwrap();
    assert_eq!(even.to_bytes()[0], 2);
    assert_eq!(even.x_only(), public.x_only());
    let point = k256::PublicKey::from_sec1_bytes(&public.to_bytes()).unwrap();
    let long = k256::elliptic_curve::sec1::ToEncodedPoint::to_encoded_point(&point, false);
    assert_eq!(long.as_bytes().len(), 65);
    let read = pubkey_from_bytes(long.as_bytes()).unwrap();
    assert_eq!(read.to_bytes(), public.to_bytes());
    assert_eq!(
        pubkey_from_bytes(&[5u8; 33]).err().unwrap(),
        "invalid public key: crypto error"
    );
    assert_eq!(
        pubkey_from_x_only(&[0xffu8; 32]).err().unwrap(),
        "invalid x-only key: crypto error"
    );
}

#[test]
fn shared_secrets_agree_and_ignore_parity() {
    let a = Identity::from_secret_str(HEX_A).unwrap();
    let b = Identity::from_secret_str(HEX_B).unwrap();
    let ab = ecdh(a.secret_key(), &b.secret_key().public_key());
    let ba = ecdh(b.secret_key(), &a.secret_key().public_key());
    let wrong_parity = pubkey_from_x_only(&b.pubkey_x_only()).unwrap();
    assert_eq!(ab, ba);
    assert_eq!(ecdh(a.secret_key(), &wrong_parity), ab);
    assert_eq!(
        hex_of(&ab),
        "fc772f5af0bd0167c9d973f71406acefcc372ed445debceade69c530a35fcd63"
    );
}

#[test]
fn generated_identities_differ() {
    assert_ne!(Identity::generate().npub(), Identity::generate().npub());
    assert_ne!(SecretKey::random().to_bytes(), SecretKey::random().to_bytes());
}

// --- cipher ---

#[test]
fn known_ciphertexts() {
    let mut c = CipherState::new([7u8; 32]);
    let first = c.encrypt_with_aad(b"hello", b"head").unwrap();
    assert_eq!(hex_of(&first), "5fe145600f70da98f7398025b3aa81d5886b2a862a");
    assert_eq!(c.nonce(), 1);
    let second = c.encrypt(b"world").unwrap();
    assert_eq!(hex_of(&second), "cd3c420c410a3cb0cf2ccb58297bc6f188569a714f");
    assert_eq!(c.nonce(), 2);
}

#[test]
fn what_is_sealed_opens() {
    let mut send = CipherState::new([1u8; 32]);
    let mut recv = CipherState::new([1u8; 32]);
    let one = send.encrypt(b"one").unwrap();
    let two = send.encrypt(b"two").unwrap();
    assert_eq!(recv.decrypt(&one).unwrap(), b"one");
    assert_eq!(recv.decrypt(&two).unwrap(), b"two");

    let three = send.encrypt_with_aad(b"three", b"aad").unwrap();
    assert_eq!(
        recv.decrypt_with_counter_and_aad(&three, 2, b"aad").unwrap(),
        b"three"
    );
    assert_eq!(
        recv.decrypt_with_counter_and_aad(&three, 3, b"aad").err().unwrap(),
        "decryption failed"
    );
    assert_eq!(
        recv.decrypt_with_counter_and_aad(&three, 2, b"").err().unwrap(),
        "decryption failed"
    );
    assert_eq!(recv.decrypt(&[0u8; 15]).err().unwrap(), "ciphertext too short");
    assert_eq!(
        recv.decrypt_with_counter_and_aad(&[0u8; 15], 0, b"").err().unwrap(),
        "ciphertext too short"
    );
    assert_eq!(recv.decrypt(&[0u8; 16]).err().unwrap(), "decryption failed");
}

#[test]
fn without_a_key_nothing_is_hidden() {
    let mut c = CipherState::empty();
    assert_eq!(c.encrypt(b"plain").unwrap(), b"plain");
    assert_eq!(c.decrypt(b"plain").unwrap(), b"plain");
    assert_eq!(c.encrypt_with_aad(b"plain", b"x").unwrap(), b"plain");
    assert_eq!(c.nonce(), 0);
    c.initialize_key([7u8; 32]);
    assert_eq!(
        hex_of(&c.encrypt_with_aad(b"hello", b"head").unwrap()),
        "5fe145600f70da98f7398025b3aa81d5886b2a862a"
    );
}

// --- symmetric state ---

#[test]
fn known_symmetric_state() {
    let mut s = SymmetricState::initialize(b"test");
    s.mix_hash(b"abc");
    assert_eq!(
        hex_of(&s.handshake_hash()),
        "d02e99a186ac1b6d22d87c5f0124d062e55aa0bf40c94e6f1db791dd1faf0458"
    );
    s.mix_key(b"ikm");
    let field = s.encrypt_and_hash(b"field").unwrap();
    assert_eq!(hex_of(&field), "18951926865f7b98f429c532560b137000c3a6163f");
    assert_eq!(
        hex_of(&s.handshake_hash()),
        "aad507624c422ac0e1090bcf3e8646c9eb1e073d58fbab8f26c1f8c817a96b06"
    );
    let (mut k1, _) = s.split();
    assert_eq!(hex_of(&k1.encrypt(b"x").unwrap()), "1f33e6bfec37d3f4986df1c5744a1ac9bc");
}

#[test]
fn fields_decrypt() {
    let mut a = SymmetricState::initialize(b"a protocol name that is longer than a hash");
    let mut b = SymmetricState::initialize(b"a protocol name that is longer than a hash");
    a.mix_key(b"shared");
    b.mix_key(b"shared");
    let field = a.encrypt_and_hash(b"epoch").unwrap();
    assert_eq!(b.decrypt_and_hash(&field).unwrap(), b"epoch");
    assert_eq!(a.handshake_hash(), b.handshake_hash());
    assert_eq!(b.decrypt_and_hash(&field).err().unwrap(), "decryption failed");
}

// --- replay window ---

#[test]
fn replays_are_refused() {
    let mut w = ReplayWindow::new();
    assert!(w.check(0));
    w.accept(0);
    assert!(!w.check(0));
    assert!(w.check(5));
    w.accept(5);
    assert!(w.check(3));
    w.accept(3);
    assert!(!w.check(3));
    assert!(!w.check(5));
    assert!(w.check(4));
}

#[test]
fn the_window_moves() {
    let mut w = ReplayWindow::default();
    w.accept(10_000);
    assert!(w.check(10_000 - 2047));
    assert!(!w.check(10_000 - 2048));
    w.accept(10_000 - 2047);
    w.accept(10_001);
    assert!(!w.check(10_000 - 2047));
    assert!(!w.check(10_000));
    w.accept(50_000);
    assert!(w.check(49_999));
    assert!(!w.check(10_001));
    assert!(w.check(u64::MAX));
}

// --- bloom filter ---

#[test]
fn inserting_sets_five_bits() {
    let mut filter = BloomFilter::new();
    assert!(filter.as_bytes().iter().all(|b| *b == 0));
    let mut addr = [0u8; 16];
    for (i, b) in addr.iter_mut().enumerate() {
        *b = i as u8;
    }
    filter.insert(&addr);
    let mut expected = [0u8; FILTER_BYTES];
    for bit in [1470usize, 3195, 4920, 6645, 178] {
        expected[bit / 8] |= 1 << (bit % 8);
    }
    assert_eq!(filter.as_bytes()[..], expected[..]);
    filter.insert(&addr);
    assert_eq!(filter.as_bytes()[..], expected[..]);

    let announce = build_filter_announce(&filter, 0x0a0b);
    assert_eq!(announce.len(), 1035);
    assert_eq!(announce[0], 0x20);
    assert_eq!(announce[1..9], 0x0a0bu64.to_le_bytes());
    assert_eq!(announce[9..11], [5, 1]);
    assert_eq!(announce[11..], expected[..]);
    assert_eq!(build_self_filter_announce(&addr, 0x0a0b), announce);
}

#[test]
fn inserting_keeps_what_was_inserted() {
    let mut one = BloomFilter::new();
    one.insert(&[1u8; 16]);
    let mut both = BloomFilter::new();
    both.insert(&[1u8; 16]);
    both.insert(&[2u8; 16]);
    for i in 0..FILTER_BYTES {
        assert_eq!(one.as_bytes()[i] & both.as_bytes()[i], one.as_bytes()[i]);
    }
}

#[test]
fn digest_chooses_five_bits() {
    let mut digest = [0xffu8; 32];
    digest[..8].copy_from_slice(&6u64.to_le_bytes());
    digest[8..16].copy_from_slice(&8193u64.to_le_bytes());
    let mut filter = BloomFilter::new();
    filter.insert_digest(&digest);
    let mut expected = [0u8; FILTER_BYTES];
    expected[0] = 0b1100_0000;
    expected[1] = 0b0000_0111;
    assert_eq!(filter.as_bytes()[..], expected[..]);
}

// --- link measurements ---

#[test]
fn receiver_report_bytes() {
    let mut state = ReceiverState::new();
    state.record_frame(9, 111, 100, 5_000);
    state.record_frame(4, 222, 50, 6_000);
    let report = state.build_report(6_250);
    assert_eq!(report.len(), 68);
    assert_eq!(report[..4], [0x02, 0, 0, 0]);
    assert_eq!(report[4..12], 9u64.to_le_bytes());
    assert_eq!(report[12..20], 2u64.to_le_bytes());
    assert_eq!(report[20..28], 150u64.to_le_bytes());
    assert_eq!(report[28..32], 222u32.to_le_bytes());
    assert_eq!(report[32..34], 250u16.to_le_bytes());
    assert!(report[34..60].iter().all(|b| *b == 0));
    assert_eq!(report[60..64], 2u32.to_le_bytes());
    assert_eq!(report[64..68], 150u32.to_le_bytes());
}

#[test]
fn a_report_starts_a_new_interval() {
    let mut state = ReceiverState::default();
    let empty = state.build_report(77);
    assert_eq!(empty[32..34], [0, 0]);
    state.record_frame(1, 1, 10, 1_000);
    state.build_report(1_000);
    let again = state.build_report(900);
    assert_eq!(again[12..20], 1u64.to_le_bytes());
    assert_eq!(again[32..34], [0, 0]);
    assert_eq!(again[60..68], [0u8; 8]);
}

// --- bytes and text ---

#[test]
fn integers_in_bytes() {
    let mut out = Vec::new();
    bytes::push_u16_le(&mut out, 0x0102);
    bytes::push_u32_le(&mut out, 0x03040506);
    bytes::push_u64_le(&mut out, 0x0708090a0b0c0d0e);
    bytes::push_u16_be(&mut out, 0x0102);
    bytes::push_len_le(&mut out, 0x1_0003);
    assert_eq!(hex_of(&out), "0201060504030e0d0c0b0a09080701020300");
    assert_eq!(bytes::u16_le_at(&out, 0), 0x0102);
    assert_eq!(bytes::u32_le_at(&out, 2), 0x03040506);
    assert_eq!(bytes::u64_le_at(&out, 6), 0x0708090a0b0c0d0e);
    assert_eq!(bytes::u16_be_at(&out, 14), 0x0102);
    assert!(bytes::same(b"abc", b"abc"));
    assert!(!bytes::same(b"abc", b"abd"));
    assert!(!bytes::same(b"abc", b"ab"));
}

#[test]
fn numbers_in_text() {
    assert_eq!(text::decimal_text(0), "0");
    assert_eq!(text::decimal_text(18446744073709551615), "18446744073709551615");
    assert_eq!(text::short_decimal_text(65535), "65535");
    assert_eq!(text::hexadecimal_text(0xfd69), "fd69");
    assert_eq!(text::hex_byte_text(0x0a), "0a");
    assert!(text::starts_with("nsec1abc", "nsec1"));
    assert!(!text::starts_with("nse", "nsec1"));
    assert!(text::same_ignoring_case("FiPs", "fips"));
    assert!(!text::same_ignoring_case("fipsx", "fips"));
}
