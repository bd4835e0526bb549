use fips_browser::identity::{
    ecdh, normalize_for_premessage, pubkey_from_bytes, pubkey_from_x_only, Identity, PublicKey,
    SecretKey,
};
use fips_browser::noise::{HandshakeState, SymmetricState, HANDSHAKE_MSG1_SIZE};
use fips_browser::noise_xk::HandshakeXK;

fn secret(n: u8) -> SecretKey {
    SecretKey::from_bytes([n; 32]).unwrap()
}

/// The key of a peer as an initiator has it: from an npub, in even parity.
fn named(secret: &SecretKey) -> PublicKey {
    pubkey_from_x_only(&secret.public_key().x_only()).unwrap()
}

/// The responder's side of the IK pattern: who wrote the message, with what epoch, the reply and
/// the state behind it.
fn respond(
    us: &SecretKey,
    ephemeral: &SecretKey,
    epoch: &[u8; 8],
    message: &[u8],
) -> (Vec<u8>, Vec<u8>, Vec<u8>, SymmetricState) {
    let mut s = SymmetricState::initialize(b"Noise_IK_secp256k1_ChaChaPoly_SHA256");
    s.mix_hash(&normalize_for_premessage(&us.public_key()));
    let e = pubkey_from_bytes(&message[..33]).unwrap();
    s.mix_hash(&message[..33]);
    s.mix_key(&ecdh(us, &e));
    let remote = s.decrypt_and_hash(&message[33..82]).unwrap();
    s.mix_key(&ecdh(us, &pubkey_from_bytes(&remote).unwrap()));
    let remote_epoch = s.decrypt_and_hash(&message[82..]).unwrap();

    let mut reply = ephemeral.public_key().to_bytes().to_vec();
    s.mix_hash(&reply);
    s.mix_key(&ecdh(ephemeral, &e));
    s.mix_key(&ecdh(us, &e));
    let field = s.encrypt_and_hash(epoch).unwrap();
    reply.extend_from_slice(&field);
    (remote, remote_epoch, reply, s)
}

#[test]
fn ik_with_a_responder() {
    for responder in [secret(11), Identity::generate().secret_key().to_owned()] {
        let us = secret(12);
        let mut hs = HandshakeState::new_initiator(us, named(&responder), [1; 8]);
        let msg1 = hs.write_message_1().unwrap();
        assert_eq!(msg1.len(), HANDSHAKE_MSG1_SIZE);
        let (remote, remote_epoch, reply, theirs) =
            respond(&responder, &SecretKey::random(), &[2; 8], &msg1);
        assert_eq!(remote, us.public_key().to_bytes());
        assert_eq!(remote_epoch, [1; 8]);

        hs.read_message_2(&reply).unwrap();
        let (mut send, recv, hash, remote_key) = hs.into_transport().unwrap();
        assert_eq!(hash, theirs.handshake_hash());
        assert_eq!(remote_key.x_only(), responder.public_key().x_only());
        let (mut their_recv, mut their_send) = theirs.split();
        let there = send.encrypt(b"there").unwrap();
        assert_eq!(their_recv.decrypt(&there).unwrap(), b"there");
        let back = their_send.encrypt(b"back").unwrap();
        assert_eq!(
            recv.decrypt_with_counter_and_aad(&back, 0, b"").unwrap(),
            b"back"
        );
    }
}

#[test]
fn ik_is_decided_by_its_keys() {
    let responder = secret(11);
    let mut one = HandshakeState::new_initiator(secret(12), named(&responder), [1; 8]);
    let mut two = HandshakeState::new_initiator(secret(12), named(&responder), [1; 8]);
    let a = one.write_message_1_with(secret(13)).unwrap();
    let b = two.write_message_1_with(secret(13)).unwrap();
    assert_eq!(a, b);
    assert_eq!(a[..33], secret(13).public_key().to_bytes());
    let mut other = HandshakeState::new_initiator(secret(12), named(&responder), [1; 8]);
    assert_ne!(other.write_message_1().unwrap(), a);
}

#[test]
fn ik_errors() {
    let responder = secret(11);
    let mut hs = HandshakeState::new_initiator(secret(12), named(&responder), [1; 8]);
    assert_eq!(
        hs.read_message_2(&[0; 57]).err().unwrap(),
        "wrong state for read_message_2"
    );
    let msg1 = hs.write_message_1().unwrap();
    assert_eq!(
        hs.write_message_1().err().unwrap(),
        "wrong state for write_message_1"
    );
    assert_eq!(
        hs.read_message_2(&[0; 56]).err().unwrap(),
        "msg2 wrong size: expected 57, got 56"
    );
    assert_eq!(
        hs.read_message_2(&[0; 57]).err().unwrap(),
        "invalid public key: crypto error"
    );
    let (_, _, mut reply, _) = respond(&responder, &secret(14), &[2; 8], &msg1);
    reply[56] ^= 1;
    assert_eq!(hs.read_message_2(&reply).err().unwrap(), "decryption failed");
    assert_eq!(hs.into_transport().err().unwrap(), "handshake not complete");
}

#[test]
fn xk_agrees() {
    let us = secret(21);
    let them = Identity::from_secret_str(
        "b102030405060708090a0b0c0d0e0f101112131415161718191a1b1c1d1e1fb0",
    )
    .unwrap();
    let mut a = HandshakeXK::new_initiator(us, named(them.secret_key()), [1; 8]);
    let mut b = HandshakeXK::new_responder(*them.secret_key(), [2; 8]);
    let msg1 = a.write_msg1().unwrap();
    assert_eq!(msg1.len(), 33);
    b.read_msg1(&msg1).unwrap();
    let msg2 = b.write_msg2().unwrap();
    assert_eq!(msg2.len(), 57);
    a.read_msg2(&msg2).unwrap();
    let msg3 = a.write_msg3().unwrap();
    assert_eq!(msg3.len(), 73);
    b.read_msg3(&msg3).unwrap();

    let (mut a_send, _, a_remote) = a.into_transport().unwrap();
    let (mut b_send, b_recv, b_remote) = b.into_transport().unwrap();
    assert_eq!(a_remote.x_only(), them.pubkey_x_only());
    assert_eq!(b_remote.to_bytes(), us.public_key().to_bytes());
    let sealed = a_send.encrypt(b"hi").unwrap();
    assert_eq!(
        b_recv.decrypt_with_counter_and_aad(&sealed, 0, b"").unwrap(),
        b"hi"
    );
    assert_ne!(b_send.encrypt(b"hi").unwrap(), sealed);
}

#[test]
fn xk_is_decided_by_its_keys() {
    let mut a = HandshakeXK::new_initiator(secret(21), named(&secret(22)), [1; 8]);
    let mut b = HandshakeXK::new_responder(secret(22), [2; 8]);
    assert_eq!(
        a.write_msg1_with(secret(23)).unwrap(),
        secret(23).public_key().to_bytes()
    );
    b.read_msg1(&secret(23).public_key().to_bytes()).unwrap();
    let msg2 = b.write_msg2_with(secret(24)).unwrap();
    assert_eq!(msg2[..33], secret(24).public_key().to_bytes());
}

#[test]
fn xk_errors() {
    let mut a = HandshakeXK::new_initiator(secret(21), named(&secret(22)), [1; 8]);
    assert_eq!(a.read_msg1(&[0; 33]).err().unwrap(), "wrong state for read_msg1");
    assert_eq!(a.write_msg2().err().unwrap(), "wrong state for write_msg2");
    assert_eq!(a.read_msg2(&[0; 57]).err().unwrap(), "wrong state for read_msg2");
    assert_eq!(a.write_msg3().err().unwrap(), "wrong state for write_msg3");
    let msg1 = a.write_msg1().unwrap();
    assert_eq!(a.write_msg1().err().unwrap(), "wrong state for write_msg1");
    assert_eq!(
        a.read_msg2(&[0; 1]).err().unwrap(),
        "xk msg2 wrong size: expected 57, got 1"
    );

    let mut b = HandshakeXK::new_responder(secret(22), [2; 8]);
    assert_eq!(b.read_msg3(&[0; 73]).err().unwrap(), "wrong state for read_msg3");
    assert_eq!(
        b.read_msg1(&[0; 1]).err().unwrap(),
        "xk msg1 wrong size: expected 33, got 1"
    );
    b.read_msg1(&msg1).unwrap();
    b.write_msg2().unwrap();
    assert_eq!(
        b.read_msg3(&[0; 72]).err().unwrap(),
        "xk msg3 wrong size: expected 73, got 72"
    );
    assert_eq!(b.read_msg3(&[0; 73]).err().unwrap(), "decryption failed");
    assert_eq!(b.into_transport().err().unwrap(), "handshake not complete");

    // A responder with another key does not answer in the name of the first.
    let mut c = HandshakeXK::new_responder(secret(25), [2; 8]);
    c.read_msg1(&msg1).unwrap();
    let forged = c.write_msg2().unwrap();
    assert_eq!(a.read_msg2(&forged).err().unwrap(), "decryption failed");
}
