use fips_browser::identity::{Identity, SecretKey};
use fips_browser::tree::{
    build_tree_announce, build_tree_announce_as_leaf, build_tree_announce_at,
    build_tree_announce_inner, parse_tree_announce, tree_announce_payload, AncestryEntry,
};
use fips_browser::wire;
use k256::schnorr::signature::hazmat::PrehashVerifier;

#[test]
fn build_root_announce() {
    let id = Identity::generate();
    let payload = build_tree_announce(id.node_addr(), id.secret_key(), 1).unwrap();
    // msg_type(1) + version(1) + seq(8) + ts(8) + parent(16) + count(2) + 1*entry(32) + sig(64) = 132
    assert_eq!(payload.len(), 132);
    assert_eq!(payload[0], wire::MSG_TYPE_TREE_ANNOUNCE);
}

#[test]
fn build_leaf_announce() {
    let id = Identity::generate();
    let gateway_id = Identity::generate();

    let parent_ancestry = vec![AncestryEntry {
        node_addr: *gateway_id.node_addr(),
        sequence: 5,
        timestamp: 1000,
    }];

    let payload = build_tree_announce_as_leaf(
        id.node_addr(),
        id.secret_key(),
        2,
        gateway_id.node_addr(),
        &parent_ancestry,
    )
    .unwrap();

    // 1 + 1 + 8 + 8 + 16 + 2 + 2*32 + 64 = 164
    assert_eq!(payload.len(), 164);
    assert_eq!(payload[0], wire::MSG_TYPE_TREE_ANNOUNCE);

    // Parse it back
    let parsed = parse_tree_announce(&payload[1..]).unwrap();
    assert_eq!(parsed.parent, *gateway_id.node_addr());
    assert_eq!(parsed.ancestry.len(), 2);
    assert_eq!(parsed.ancestry[0].node_addr, *id.node_addr());
    assert_eq!(parsed.ancestry[1].node_addr, *gateway_id.node_addr());
    assert_eq!(parsed.ancestry[1].sequence, 5);
    assert_eq!(parsed.ancestry[1].timestamp, 1000);
}

#[test]
fn parse_round_trip() {
    let id = Identity::generate();
    let payload = build_tree_announce(id.node_addr(), id.secret_key(), 3).unwrap();
    let parsed = parse_tree_announce(&payload[1..]).unwrap();
    assert_eq!(parsed.parent, *id.node_addr()); // root: parent == self
    assert_eq!(parsed.ancestry.len(), 1);
    assert_eq!(parsed.ancestry[0].node_addr, *id.node_addr());
}

#[test]
fn parse_rejects_short() {
    assert!(parse_tree_announce(&[0u8; 50]).is_err());
}

#[test]
fn parse_rejects_bad_version() {
    let mut data = vec![0xFFu8]; // bad version
    data.extend_from_slice(&[0u8; 98]); // pad to minimum
    assert!(parse_tree_announce(&data).is_err());
}

#[test]
fn parse_errors_say_why() {
    assert_eq!(
        parse_tree_announce(&[1u8; 98]).err().unwrap(),
        "TreeAnnounce too short: 98 < 99"
    );
    assert_eq!(
        parse_tree_announce(&[2u8; 99]).err().unwrap(),
        "unsupported TreeAnnounce version: 2"
    );
}

#[test]
fn root_announce_bytes() {
    let id = Identity::generate();
    let payload =
        build_tree_announce_at(id.node_addr(), id.secret_key(), 0x0102, 1_700_000_000).unwrap();
    assert_eq!(payload[1], 1);
    assert_eq!(payload[2..10], 0x0102u64.to_le_bytes());
    assert_eq!(payload[10..18], 1_700_000_000u64.to_le_bytes());
    assert_eq!(payload[18..34], id.node_addr()[..]);
    assert_eq!(payload[34..36], [1, 0]);
    assert_eq!(payload[36..52], id.node_addr()[..]);
    assert_eq!(payload[52..60], 0x0102u64.to_le_bytes());
    assert_eq!(payload[60..68], 1_700_000_000u64.to_le_bytes());
}

#[test]
fn announce_is_signed_by_its_node() {
    let secret = SecretKey::from_bytes([9u8; 32]).unwrap();
    let id = Identity::from_secret(secret);
    let parent = [3u8; 16];
    let ancestry = [AncestryEntry {
        node_addr: parent,
        sequence: 1,
        timestamp: 2,
    }];
    let payload =
        build_tree_announce_inner(id.node_addr(), id.secret_key(), 7, 1234, &parent, &ancestry)
            .unwrap();

    // Signed: node address, parent, sequence and timestamp.
    let mut signed = Vec::new();
    signed.extend_from_slice(id.node_addr());
    signed.extend_from_slice(&parent);
    signed.extend_from_slice(&7u64.to_le_bytes());
    signed.extend_from_slice(&1234u64.to_le_bytes());
    let hash: [u8; 32] = <sha2::Sha256 as sha2::Digest>::digest(&signed).into();

    let key = k256::schnorr::VerifyingKey::from_bytes(&id.pubkey_x_only()).unwrap();
    let signature = k256::schnorr::Signature::try_from(&payload[payload.len() - 64..]).unwrap();
    assert!(key.verify_prehash(&hash, &signature).is_ok());

    // The same announce is signed the same way.
    let again =
        build_tree_announce_inner(id.node_addr(), id.secret_key(), 7, 1234, &parent, &ancestry)
            .unwrap();
    assert_eq!(payload, again);
}

#[test]
fn announce_payload_bytes() {
    let ancestry = [AncestryEntry {
        node_addr: [3u8; 16],
        sequence: 5,
        timestamp: 6,
    }];
    let payload = tree_announce_payload(&[1u8; 16], 7, 1234, &[3u8; 16], &ancestry, &[0xab; 64]);
    let mut expected = vec![wire::MSG_TYPE_TREE_ANNOUNCE, 1];
    expected.extend_from_slice(&7u64.to_le_bytes());
    expected.extend_from_slice(&1234u64.to_le_bytes());
    expected.extend_from_slice(&[3u8; 16]);
    expected.extend_from_slice(&2u16.to_le_bytes());
    expected.extend_from_slice(&[1u8; 16]);
    expected.extend_from_slice(&7u64.to_le_bytes());
    expected.extend_from_slice(&1234u64.to_le_bytes());
    expected.extend_from_slice(&[3u8; 16]);
    expected.extend_from_slice(&5u64.to_le_bytes());
    expected.extend_from_slice(&6u64.to_le_bytes());
    expected.extend_from_slice(&[0xab; 64]);
    assert_eq!(payload, expected);
}
