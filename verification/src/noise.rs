//! Noise IK handshake over secp256k1, initiator side.
//!
//! Protocol: Noise_IK_secp256k1_ChaChaPoly_SHA256

use crate::bytes;
use crate::cipher;
use crate::cipher::{CipherModel, CipherState};
use crate::crypto;
use crate::identity;
use crate::identity::{PublicKey, SecretKey};
use crate::text;
use vstd::prelude::*;

verus! {

/// Compressed public key size.
pub const PUBKEY_SIZE: usize = 33;

/// AEAD tag size.
const TAG_SIZE: usize = 16;

/// Startup epoch size.
pub const EPOCH_SIZE: usize = 8;

/// Encrypted epoch size (epoch and tag).
pub const EPOCH_ENCRYPTED_SIZE: usize = 24;

/// IK msg1: ephemeral(33) + encrypted_static(33+16) + encrypted_epoch(8+16) = 106.
pub const HANDSHAKE_MSG1_SIZE: usize = 106;

/// IK msg2: ephemeral(33) + encrypted_epoch(8+16) = 57.
pub const HANDSHAKE_MSG2_SIZE: usize = 57;

// ============================================================================
// Symmetric state
// ============================================================================

/// The symmetric state of a Noise handshake: chaining key, handshake hash and cipher.
#[verifier::ext_equal]
pub struct SymmetricModel {
    pub ck: Seq<u8>,
    pub h: Seq<u8>,
    pub cipher: CipherModel,
}

/// A protocol name as a hash: itself, filled up with zeros, if it fits, else its digest.
pub open spec fn protocol_hash(name: Seq<u8>) -> Seq<u8> {
    if name.len() <= 32 {
        name + Seq::new((32 - name.len()) as nat, |i: int| 0u8)
    } else {
        crypto::sha256(name)@
    }
}

/// The state a handshake of the named protocol starts in.
pub open spec fn sym_start(name: Seq<u8>) -> SymmetricModel {
    SymmetricModel {
        ck: protocol_hash(name),
        h: protocol_hash(name),
        cipher: cipher::cipher_empty(),
    }
}

/// Mixing data into the handshake hash.
pub open spec fn sym_hashed(s: SymmetricModel, data: Seq<u8>) -> SymmetricModel {
    SymmetricModel { h: crypto::sha256(s.h + data)@, ..s }
}

/// Two keys from a chaining key and input key material.
pub open spec fn key_pair_from(ck: Seq<u8>, ikm: Seq<u8>) -> (Seq<u8>, Seq<u8>) {
    let output = crypto::hkdf_sha256(ck, ikm, Seq::empty())@;
    (output.take(32), output.skip(32))
}

/// Mixing input key material into the chaining key, which also rekeys the cipher.
pub open spec fn sym_keyed(s: SymmetricModel, ikm: Seq<u8>) -> SymmetricModel {
    SymmetricModel {
        ck: key_pair_from(s.ck, ikm).0,
        cipher: cipher::cipher_with_key(key_pair_from(s.ck, ikm).1),
        ..s
    }
}

/// Encrypting a handshake field and mixing the ciphertext into the hash.
pub open spec fn sym_encrypted(s: SymmetricModel, plaintext: Seq<u8>) -> (
    SymmetricModel,
    Result<Seq<u8>, Seq<char>>,
) {
    let (cipher, result) = cipher::cipher_sealed(s.cipher, Seq::empty(), plaintext);
    let after = SymmetricModel { cipher, ..s };
    match result {
        Ok(ciphertext) => (sym_hashed(after, ciphertext), Ok(ciphertext)),
        Err(e) => (after, Err(e)),
    }
}

/// Decrypting a handshake field and mixing the ciphertext into the hash.
pub open spec fn sym_decrypted(s: SymmetricModel, ciphertext: Seq<u8>) -> (
    SymmetricModel,
    Result<Seq<u8>, Seq<char>>,
) {
    let (cipher, result) = cipher::cipher_opened(s.cipher, ciphertext);
    let after = SymmetricModel { cipher, ..s };
    match result {
        Ok(plaintext) => (sym_hashed(after, ciphertext), Ok(plaintext)),
        Err(e) => (after, Err(e)),
    }
}

/// The two transport ciphers that a finished handshake splits into, the initiator's sending
/// cipher first.
pub open spec fn sym_split(s: SymmetricModel) -> (CipherModel, CipherModel) {
    let (k1, k2) = key_pair_from(s.ck, Seq::empty());
    (cipher::cipher_with_key(k1), cipher::cipher_with_key(k2))
}

/// What one side encrypts from a state, the other side decrypts from the same state; both end in
/// the same state again.
pub proof fn law_fields_decrypt(s: SymmetricModel, plaintext: Seq<u8>)
    requires
        sym_encrypted(s, plaintext).1 is Ok,
    ensures
        sym_decrypted(s, sym_encrypted(s, plaintext).1->Ok_0) == (
            sym_encrypted(s, plaintext).0,
            Ok::<Seq<u8>, Seq<char>>(plaintext),
        ),
{
    cipher::law_sealed_opens_in_order(s.cipher, s.cipher, plaintext);
}

/// Encrypting a short field under a key that is not used up succeeds and adds the tag.
pub proof fn lemma_field_encrypts(s: SymmetricModel, plaintext: Seq<u8>)
    requires
        s.cipher.key is Some,
        s.cipher.nonce < u64::MAX,
        plaintext.len() <= 64,
    ensures
        sym_encrypted(s, plaintext).1 is Ok,
        sym_encrypted(s, plaintext).1->Ok_0.len() == plaintext.len() + 16,
        sym_encrypted(s, plaintext).0.cipher == (CipherModel {
            nonce: s.cipher.nonce + 1,
            ..s.cipher
        }),
{
}

/// Symmetric state shared by the handshake patterns.
pub struct SymmetricState {
    ck: [u8; 32],
    h: [u8; 32],
    cipher: CipherState,
}

impl View for SymmetricState {
    type V = SymmetricModel;

    closed spec fn view(&self) -> SymmetricModel {
        SymmetricModel { ck: self.ck@, h: self.h@, cipher: self.cipher@ }
    }
}

impl SymmetricState {
    /// Start a handshake of the named protocol.
    pub fn initialize(protocol_name: &[u8]) -> (r: Self)
        ensures
            r@ == sym_start(protocol_name@),
    {
        let h: [u8; 32] = if protocol_name.len() <= 32 {
            let mut h: [u8; 32] = [0u8; 32];
            let mut i: usize = 0;
            while i < protocol_name.len()
                invariant
                    i <= protocol_name.len() <= 32,
                    forall|j: int| 0 <= j < i ==> h@[j] == protocol_name@[j],
                    forall|j: int| i <= j < 32 ==> h@[j] == 0,
                decreases protocol_name.len() - i,
            {
                h[i] = protocol_name[i];
                i = i + 1;
            }
            assert(h@ =~= protocol_hash(protocol_name@));
            h
        } else {
            crypto::sha256_digest(protocol_name)
        };
        Self { ck: h, h, cipher: CipherState::empty() }
    }

    /// Mix data into the handshake hash.
    pub fn mix_hash(&mut self, data: &[u8])
        ensures
            final(self)@ == sym_hashed(old(self)@, data@),
    {
        let mut input: Vec<u8> = bytes::to_vec(&self.h);
        bytes::append(&mut input, data);
        self.h = crypto::sha256_digest(input.as_slice());
    }

    /// Mix key material into the chaining key and rekey the cipher.
    pub fn mix_key(&mut self, ikm: &[u8])
        ensures
            final(self)@ == sym_keyed(old(self)@, ikm@),
    {
        let (ck, key) = derive_two(&self.ck, ikm);
        self.ck = ck;
        self.cipher.initialize_key(key);
    }

    /// Encrypt a field and mix the ciphertext into the hash.
    pub fn encrypt_and_hash(&mut self, plaintext: &[u8]) -> (r: Result<Vec<u8>, String>)
        ensures
            final(self)@ == sym_encrypted(old(self)@, plaintext@).0,
            text::bytes_result(r) == sym_encrypted(old(self)@, plaintext@).1,
    {
        let ct = match self.cipher.encrypt(plaintext) {
            Ok(ct) => ct,
            Err(e) => return Err(e),
        };
        self.mix_hash(ct.as_slice());
        Ok(ct)
    }

    /// Decrypt a field and mix the ciphertext into the hash.
    pub fn decrypt_and_hash(&mut self, ciphertext: &[u8]) -> (r: Result<Vec<u8>, String>)
        ensures
            final(self)@ == sym_decrypted(old(self)@, ciphertext@).0,
            text::bytes_result(r) == sym_decrypted(old(self)@, ciphertext@).1,
    {
        let pt = match self.cipher.decrypt(ciphertext) {
            Ok(pt) => pt,
            Err(e) => return Err(e),
        };
        self.mix_hash(ciphertext);
        Ok(pt)
    }

    /// Split into the two transport ciphers.
    pub fn split(&self) -> (r: (CipherState, CipherState))
        ensures
            r.0@ == sym_split(self@).0,
            r.1@ == sym_split(self@).1,
    {
        let empty: [u8; 0] = [];
        assert(empty@ =~= Seq::<u8>::empty());
        let (k1, k2) = derive_two(&self.ck, &empty);
        (CipherState::new(k1), CipherState::new(k2))
    }

    /// The handshake hash so far.
    pub fn handshake_hash(&self) -> (r: [u8; 32])
        ensures
            r@ == self@.h,
    {
        self.h
    }
}

fn derive_two(ck: &[u8; 32], ikm: &[u8]) -> (r: ([u8; 32], [u8; 32]))
    ensures
        (r.0@, r.1@) == key_pair_from(ck@, ikm@),
{
    let empty: [u8; 0] = [];
    assert(empty@ =~= Seq::<u8>::empty());
    let output = crypto::hkdf_expand(ck, ikm, &empty);
    let first = bytes::array32_at(&output, 0);
    let second = bytes::array32_at(&output, 32);
    assert(first@ =~= output@.take(32));
    assert(second@ =~= output@.skip(32));
    (first, second)
}

// ============================================================================
// Handshake
// ============================================================================

/// Handshake role.
#[derive(Clone, Copy, PartialEq, Eq, Structural)]
pub enum Role {
    Initiator,
    Responder,
}

/// Handshake progress.
#[derive(Clone, Copy, PartialEq, Eq, Structural)]
pub enum Progress {
    Initial,
    Message1Done,
    Complete,
}

/// A Noise IK handshake in progress.
#[verifier::ext_equal]
pub struct IkModel {
    pub role: Role,
    pub progress: Progress,
    pub symmetric: SymmetricModel,
    pub static_secret: Seq<u8>,
    pub ephemeral_secret: Option<Seq<u8>>,
    pub remote_static: Option<Seq<u8>>,
    pub remote_ephemeral: Option<Seq<u8>>,
    pub local_epoch: Seq<u8>,
    pub remote_epoch: Option<Seq<u8>>,
}

/// The bytes of the protocol name.
pub open spec fn ik_protocol_name() -> Seq<u8> {
    seq![
        78u8, 111u8, 105u8, 115u8, 101u8, 95u8, 73u8, 75u8, 95u8, 115u8, 101u8, 99u8, 112u8, 50u8,
        53u8, 54u8, 107u8, 49u8, 95u8, 67u8, 104u8, 97u8, 67u8, 104u8, 97u8, 80u8, 111u8, 108u8,
        121u8, 95u8, 83u8, 72u8, 65u8, 50u8, 53u8, 54u8,
    ]
}

/// An initiator that knows its peer's static key, before its first message. The peer's key is
/// hashed in even parity.
pub open spec fn ik_initiator(static_secret: Seq<u8>, remote_static: Seq<u8>, epoch: Seq<u8>) -> IkModel {
    IkModel {
        role: Role::Initiator,
        progress: Progress::Initial,
        symmetric: sym_hashed(
            sym_start(ik_protocol_name()),
            identity::even_key(identity::x_only(remote_static)),
        ),
        static_secret,
        ephemeral_secret: None,
        remote_static: Some(remote_static),
        remote_ephemeral: None,
        local_epoch: epoch,
        remote_epoch: None,
    }
}

/// The first message, `e, es, s, ss` and the epoch, with a given ephemeral key.
pub open spec fn ik_message_1(m: IkModel, ephemeral: Seq<u8>) -> (IkModel, Seq<u8>) {
    let rs = m.remote_static->0;
    let e = identity::public_of(ephemeral);
    let s1 = sym_keyed(sym_hashed(m.symmetric, e), identity::dh(ephemeral, rs));
    let (s2, c1) = sym_encrypted(s1, identity::public_of(m.static_secret));
    let s3 = sym_keyed(s2, identity::dh(m.static_secret, rs));
    let (s4, c2) = sym_encrypted(s3, m.local_epoch);
    (
        IkModel {
            progress: Progress::Message1Done,
            symmetric: s4,
            ephemeral_secret: Some(ephemeral),
            ..m
        },
        e + c1->Ok_0 + c2->Ok_0,
    )
}

/// Writing the first message, which only an initiator does and only once.
pub open spec fn ik_write_message_1(m: IkModel, ephemeral: Seq<u8>) -> (
    IkModel,
    Result<Seq<u8>, Seq<char>>,
) {
    if m.role != Role::Initiator || m.progress != Progress::Initial {
        (m, Err("wrong state for write_message_1"@))
    } else {
        let (after, message) = ik_message_1(m, ephemeral);
        (after, Ok(message))
    }
}

/// The responder's message `e, ee, se` and epoch, as the initiator reads it.
pub open spec fn ik_read_message_2(m: IkModel, message: Seq<u8>) -> (
    IkModel,
    Result<(), Seq<char>>,
) {
    if m.role != Role::Initiator || m.progress != Progress::Message1Done {
        (m, Err("wrong state for read_message_2"@))
    } else if message.len() != HANDSHAKE_MSG2_SIZE {
        (m, Err("msg2 wrong size: expected 57, got "@ + text::decimal(message.len())))
    } else {
        match identity::parsed_key(message.take(33)) {
            Err(e) => (m, Err(e)),
            Ok(re) => {
                let e = m.ephemeral_secret->0;
                let s1 = sym_keyed(
                    sym_hashed(m.symmetric, message.take(33)),
                    identity::dh(e, re),
                );
                let s2 = sym_keyed(s1, identity::dh(e, m.remote_static->0));
                let (s3, field) = sym_decrypted(s2, message.skip(33));
                let seen = IkModel { symmetric: s3, remote_ephemeral: Some(re), ..m };
                match field {
                    Err(e) => (seen, Err(e)),
                    Ok(epoch) => (
                        IkModel { remote_epoch: Some(epoch), progress: Progress::Complete, ..seen },
                        Ok(()),
                    ),
                }
            },
        }
    }
}

/// What a finished handshake hands to the transport: sending cipher, receiving cipher, handshake
/// hash and the peer's static key.
pub open spec fn ik_transport(m: IkModel) -> Result<
    (CipherModel, CipherModel, Seq<u8>, Seq<u8>),
    Seq<char>,
> {
    if m.progress != Progress::Complete {
        Err("handshake not complete"@)
    } else {
        let (c1, c2) = sym_split(m.symmetric);
        let (send, recv) = if m.role == Role::Initiator {
            (c1, c2)
        } else {
            (c2, c1)
        };
        Ok((send, recv, m.symmetric.h, m.remote_static->0))
    }
}

/// Noise IK handshake state.
///
/// The browser is always the initiator: it connects to the node.
pub struct HandshakeState {
    role: Role,
    progress: Progress,
    symmetric: SymmetricState,
    /// Our static key pair.
    static_secret: SecretKey,
    static_public: PublicKey,
    /// Our ephemeral secret key.
    ephemeral_secret: Option<SecretKey>,
    /// Remote static public key (known before the handshake for the initiator).
    remote_static: Option<PublicKey>,
    /// Remote ephemeral public key (learned during the handshake).
    remote_ephemeral: Option<PublicKey>,
    /// Our startup epoch.
    local_epoch: [u8; 8],
    /// Remote peer's startup epoch.
    remote_epoch: Option<[u8; 8]>,
}

impl View for HandshakeState {
    type V = IkModel;

    closed spec fn view(&self) -> IkModel {
        IkModel {
            role: self.role,
            progress: self.progress,
            symmetric: self.symmetric@,
            static_secret: self.static_secret@,
            ephemeral_secret: match self.ephemeral_secret {
                Some(k) => Some(k@),
                None => None,
            },
            remote_static: match self.remote_static {
                Some(k) => Some(k@),
                None => None,
            },
            remote_ephemeral: match self.remote_ephemeral {
                Some(k) => Some(k@),
                None => None,
            },
            local_epoch: self.local_epoch@,
            remote_epoch: match self.remote_epoch {
                Some(e) => Some(e@),
                None => None,
            },
        }
    }
}

fn ik_name() -> (r: [u8; 36])
    ensures
        r@ == ik_protocol_name(),
{
    let r: [u8; 36] = [
        78u8, 111u8, 105u8, 115u8, 101u8, 95u8, 73u8, 75u8, 95u8, 115u8, 101u8, 99u8, 112u8, 50u8,
        53u8, 54u8, 107u8, 49u8, 95u8, 67u8, 104u8, 97u8, 67u8, 104u8, 97u8, 80u8, 111u8, 108u8,
        121u8, 95u8, 83u8, 72u8, 65u8, 50u8, 53u8, 54u8,
    ];
    assert(r@ =~= ik_protocol_name());
    r
}

impl HandshakeState {
    /// What a step of the handshake relies on: the keys that earlier steps have brought.
    pub closed spec fn wf(&self) -> bool {
        &&& self.static_public@ == identity::public_of(self.static_secret@)
        &&& self.remote_static is Some
        &&& self.progress == Progress::Message1Done ==> self.ephemeral_secret is Some
    }

    /// Create an IK handshake as initiator (browser connecting to a node).
    pub fn new_initiator(
        static_secret: SecretKey,
        remote_static: PublicKey,
        local_epoch: [u8; 8],
    ) -> (r: Self)
        ensures
            r@ == ik_initiator(static_secret@, remote_static@, local_epoch@),
            r.wf(),
    {
        let static_public = static_secret.public_key();
        let name = ik_name();
        let mut symmetric = SymmetricState::initialize(&name);
        let normalized = identity::normalize_for_premessage(&remote_static);
        symmetric.mix_hash(&normalized);
        Self {
            role: Role::Initiator,
            progress: Progress::Initial,
            symmetric,
            static_secret,
            static_public,
            ephemeral_secret: None,
            remote_static: Some(remote_static),
            remote_ephemeral: None,
            local_epoch,
            remote_epoch: None,
        }
    }

    /// Write IK message 1 (initiator to responder) with a fresh ephemeral key.
    ///
    /// Returns 106 bytes: ephemeral(33) + encrypted_static(49) + encrypted_epoch(24).
    pub fn write_message_1(&mut self) -> (r: Result<Vec<u8>, String>)
        requires
            old(self).wf(),
        ensures
            final(self).wf(),
            exists|e: Seq<u8>|
                #![trigger ik_write_message_1(old(self)@, e)]
                identity::is_keypair(e) && final(self)@ == ik_write_message_1(old(self)@, e).0
                    && text::bytes_result(r) == ik_write_message_1(old(self)@, e).1,
            r matches Ok(v) ==> v@.len() == HANDSHAKE_MSG1_SIZE,
    {
        self.write_message_1_with(SecretKey::random())
    }

    /// Write IK message 1 with a given ephemeral key.
    pub fn write_message_1_with(&mut self, ephemeral: SecretKey) -> (r: Result<Vec<u8>, String>)
        requires
            old(self).wf(),
        ensures
            final(self).wf(),
            final(self)@ == ik_write_message_1(old(self)@, ephemeral@).0,
            text::bytes_result(r) == ik_write_message_1(old(self)@, ephemeral@).1,
            r matches Ok(v) ==> v@.len() == HANDSHAKE_MSG1_SIZE,
    {
        if self.role != Role::Initiator || self.progress != Progress::Initial {
            return Err("wrong state for write_message_1".to_string());
        }
        let remote_static = self.remote_static.unwrap();
        let e_pub = ephemeral.public_key();
        let e_pub_bytes = identity::pubkey_to_bytes(&e_pub);

        // -> e: send ephemeral, mix into hash
        let mut message: Vec<u8> = Vec::with_capacity(HANDSHAKE_MSG1_SIZE);
        bytes::append(&mut message, &e_pub_bytes);
        assert(message@ =~= e_pub_bytes@);
        self.symmetric.mix_hash(&e_pub_bytes);

        // -> es: DH(e, rs), mix into key
        let es = identity::ecdh(&ephemeral, &remote_static);
        self.symmetric.mix_key(&es);

        // -> s: encrypt our static and send
        let our_static = identity::pubkey_to_bytes(&self.static_public);
        proof {
            lemma_field_encrypts(self.symmetric@, our_static@);
        }
        let encrypted_static = match self.symmetric.encrypt_and_hash(&our_static) {
            Ok(c) => c,
            Err(e) => return Err(e),
        };
        bytes::append(&mut message, encrypted_static.as_slice());

        // -> ss: DH(s, rs), mix into key
        let ss = identity::ecdh(&self.static_secret, &remote_static);
        self.symmetric.mix_key(&ss);

        // -> epoch: encrypt startup epoch
        proof {
            lemma_field_encrypts(self.symmetric@, self.local_epoch@);
        }
        let encrypted_epoch = match self.symmetric.encrypt_and_hash(&self.local_epoch) {
            Ok(c) => c,
            Err(e) => return Err(e),
        };
        bytes::append(&mut message, encrypted_epoch.as_slice());

        self.ephemeral_secret = Some(ephemeral);
        self.progress = Progress::Message1Done;
        Ok(message)
    }

    /// Read IK message 2 (responder to initiator).
    ///
    /// Processes 57 bytes: ephemeral(33) + encrypted_epoch(24). After this, the handshake is
    /// complete.
    pub fn read_message_2(&mut self, message: &[u8]) -> (r: Result<(), String>)
        requires
            old(self).wf(),
        ensures
            final(self).wf(),
            final(self)@ == ik_read_message_2(old(self)@, message@).0,
            text::unit_result(r) == ik_read_message_2(old(self)@, message@).1,
    {
        if self.role != Role::Initiator || self.progress != Progress::Message1Done {
            return Err("wrong state for read_message_2".to_string());
        }
        if message.len() != HANDSHAKE_MSG2_SIZE {
            let n = text::decimal_text(message.len() as u64);
            return Err(text::join2("msg2 wrong size: expected 57, got ", n.as_str()));
        }
        let e_sec = self.ephemeral_secret.unwrap();
        let rs = self.remote_static.unwrap();

        // <- e: parse remote ephemeral, mix into hash
        let e_field = vstd::slice::slice_subrange(message, 0, PUBKEY_SIZE);
        assert(e_field@ =~= message@.take(33));
        let re = match identity::pubkey_from_bytes(e_field) {
            Ok(k) => k,
            Err(e) => return Err(e),
        };
        self.remote_ephemeral = Some(re);
        self.symmetric.mix_hash(e_field);

        // <- ee: DH(e, re), mix into key
        let ee = identity::ecdh(&e_sec, &re);
        self.symmetric.mix_key(&ee);

        // <- se: DH(e, rs), mix into key
        let se = identity::ecdh(&e_sec, &rs);
        self.symmetric.mix_key(&se);

        // <- epoch: decrypt responder's epoch
        let encrypted_epoch = vstd::slice::slice_subrange(message, PUBKEY_SIZE, message.len());
        assert(encrypted_epoch@ =~= message@.skip(33));
        let decrypted_epoch = match self.symmetric.decrypt_and_hash(encrypted_epoch) {
            Ok(p) => p,
            Err(e) => return Err(e),
        };
        let epoch = bytes::array8_at(decrypted_epoch.as_slice(), 0);
        assert(epoch@ =~= decrypted_epoch@);
        self.remote_epoch = Some(epoch);
        self.progress = Progress::Complete;
        Ok(())
    }

    /// Complete the handshake and return cipher states for transport.
    ///
    /// Returns (send_cipher, recv_cipher, handshake_hash, remote_static).
    pub fn into_transport(self) -> (r: Result<
        (CipherState, CipherState, [u8; 32], PublicKey),
        String,
    >)
        requires
            self.wf(),
        ensures
            match r {
                Ok((send, recv, hash, remote)) => ik_transport(self@) == Ok::<
                    (CipherModel, CipherModel, Seq<u8>, Seq<u8>),
                    Seq<char>,
                >((send@, recv@, hash@, remote@)),
                Err(e) => ik_transport(self@) == Err::<
                    (CipherModel, CipherModel, Seq<u8>, Seq<u8>),
                    Seq<char>,
                >(e@),
            },
    {
        if self.progress != Progress::Complete {
            return Err("handshake not complete".to_string());
        }
        let (c1, c2) = self.symmetric.split();
        let hash = self.symmetric.handshake_hash();
        let remote = self.remote_static.unwrap();
        // The initiator sends with c1 and receives with c2
        if self.role == Role::Initiator {
            Ok((c1, c2, hash, remote))
        } else {
            Ok((c2, c1, hash, remote))
        }
    }
}

// ============================================================================
// The other side
// ============================================================================

/// What a responder learns from the first message: its symmetric state, and the initiator's
/// ephemeral key, static key and epoch.
#[verifier::ext_equal]
pub struct IkHeard {
    pub symmetric: SymmetricModel,
    pub ephemeral: Seq<u8>,
    pub remote_static: Seq<u8>,
    pub remote_epoch: Seq<u8>,
}

/// How a responder with a given static key reads the first message, by the IK pattern.
pub open spec fn ik_heard(static_secret: Seq<u8>, message: Seq<u8>) -> Option<IkHeard> {
    let e = message.take(33);
    let s0 = sym_hashed(
        sym_start(ik_protocol_name()),
        identity::even_key(identity::x_only(identity::public_of(static_secret))),
    );
    let s1 = sym_keyed(sym_hashed(s0, e), identity::dh(static_secret, e));
    let (s2, field_s) = sym_decrypted(s1, message.subrange(33, 82));
    match field_s {
        Err(_) => None,
        Ok(s) => {
            let s3 = sym_keyed(s2, identity::dh(static_secret, s));
            let (s4, field_epoch) = sym_decrypted(s3, message.skip(82));
            match field_epoch {
                Err(_) => None,
                Ok(epoch) => Some(
                    IkHeard {
                        symmetric: s4,
                        ephemeral: e,
                        remote_static: s,
                        remote_epoch: epoch,
                    },
                ),
            }
        },
    }
}

/// How the responder answers, by the IK pattern: its state afterwards and the second message.
pub open spec fn ik_answer(
    heard: IkHeard,
    static_secret: Seq<u8>,
    ephemeral: Seq<u8>,
    epoch: Seq<u8>,
) -> (SymmetricModel, Seq<u8>) {
    let e = identity::public_of(ephemeral);
    let s1 = sym_keyed(sym_hashed(heard.symmetric, e), identity::dh(ephemeral, heard.ephemeral));
    let s2 = sym_keyed(s1, identity::dh(static_secret, heard.ephemeral));
    let (s3, field) = sym_encrypted(s2, epoch);
    (s3, e + field->Ok_0)
}

/// A responder reads from the first message who its peer is and when it started, and its own
/// symmetric state is then the initiator's. The initiator may have the responder's key in the
/// wrong parity.
pub proof fn law_ik_first_message(
    initiator: Seq<u8>,
    ephemeral: Seq<u8>,
    responder: Seq<u8>,
    responder_key: Seq<u8>,
    epoch: Seq<u8>,
)
    requires
        identity::is_keypair(initiator),
        identity::is_keypair(ephemeral),
        identity::is_keypair(responder),
        identity::x_only(responder_key) == identity::x_only(identity::public_of(responder)),
        epoch.len() == 8,
    ensures
        ({
            let start = ik_initiator(initiator, responder_key, epoch);
            let (sent, message) = ik_write_message_1(start, ephemeral);
            &&& message is Ok
            &&& message->Ok_0.len() == HANDSHAKE_MSG1_SIZE
            &&& ik_heard(responder, message->Ok_0) == Some(
                IkHeard {
                    symmetric: sent.symmetric,
                    ephemeral: identity::public_of(ephemeral),
                    remote_static: identity::public_of(initiator),
                    remote_epoch: epoch,
                },
            )
        }),
{
    let start = ik_initiator(initiator, responder_key, epoch);
    let e = identity::public_of(ephemeral);
    let s = identity::public_of(initiator);
    let s1 = sym_keyed(sym_hashed(start.symmetric, e), identity::dh(ephemeral, responder_key));
    lemma_field_encrypts(s1, s);
    law_fields_decrypt(s1, s);
    let (s2, c1) = sym_encrypted(s1, s);
    let s3 = sym_keyed(s2, identity::dh(initiator, responder_key));
    lemma_field_encrypts(s3, epoch);
    law_fields_decrypt(s3, epoch);
    let (s4, c2) = sym_encrypted(s3, epoch);
    let message = e + c1->Ok_0 + c2->Ok_0;
    assert(message.take(33) =~= e);
    assert(message.subrange(33, 82) =~= c1->Ok_0);
    assert(message.skip(82) =~= c2->Ok_0);
    identity::law_dh_agrees(responder, ephemeral);
    identity::law_dh_agrees(responder, initiator);
}

/// Both sides of an IK handshake end in agreement: the initiator accepts the answer, the two
/// symmetric states are the same, each sends with the cipher the other receives with, and the
/// initiator knows the responder's epoch.
pub proof fn law_ik_agreement(
    initiator: Seq<u8>,
    ephemeral: Seq<u8>,
    responder: Seq<u8>,
    responder_key: Seq<u8>,
    responder_ephemeral: Seq<u8>,
    epoch: Seq<u8>,
    responder_epoch: Seq<u8>,
)
    requires
        identity::is_keypair(initiator),
        identity::is_keypair(ephemeral),
        identity::is_keypair(responder),
        identity::is_keypair(responder_ephemeral),
        identity::x_only(responder_key) == identity::x_only(identity::public_of(responder)),
        epoch.len() == 8,
        responder_epoch.len() == 8,
    ensures
        ({
            let start = ik_initiator(initiator, responder_key, epoch);
            let (sent, message) = ik_write_message_1(start, ephemeral);
            let heard = ik_heard(responder, message->Ok_0)->0;
            let (theirs, reply) = ik_answer(heard, responder, responder_ephemeral, responder_epoch);
            let (done, accepted) = ik_read_message_2(sent, reply);
            &&& accepted is Ok
            &&& done.symmetric == theirs
            &&& done.remote_epoch == Some(responder_epoch)
            &&& ik_transport(done) == Ok::<_, Seq<char>>(
                (sym_split(theirs).0, sym_split(theirs).1, theirs.h, responder_key),
            )
        }),
{
    law_ik_first_message(initiator, ephemeral, responder, responder_key, epoch);
    let start = ik_initiator(initiator, responder_key, epoch);
    let (sent, message) = ik_write_message_1(start, ephemeral);
    let heard = ik_heard(responder, message->Ok_0)->0;
    let e = identity::public_of(responder_ephemeral);
    identity::law_dh_agrees(responder_ephemeral, ephemeral);
    identity::law_dh_agrees(responder, ephemeral);
    let s1 = sym_keyed(
        sym_hashed(heard.symmetric, e),
        identity::dh(responder_ephemeral, heard.ephemeral),
    );
    let s2 = sym_keyed(s1, identity::dh(responder, heard.ephemeral));
    lemma_field_encrypts(s2, responder_epoch);
    law_fields_decrypt(s2, responder_epoch);
    let reply = e + sym_encrypted(s2, responder_epoch).1->Ok_0;
    assert(reply.take(33) =~= e);
    assert(reply.skip(33) =~= sym_encrypted(s2, responder_epoch).1->Ok_0);
}

// ============================================================================
// The steps written out
// ============================================================================

/// A handshake starts from its name: as it is and filled up with zeros where it fits into 32
/// bytes, else hashed. Hash and chaining key are the same, and there is no key yet.
pub proof fn law_handshake_starts_from_name(name: Seq<u8>)
    ensures
        ({
            let s = sym_start(name);
            &&& s.h.len() == 32
            &&& s.ck == s.h
            &&& s.cipher.key is None
            &&& name.len() > 32 ==> s.h == crypto::sha256(name)@
            &&& name.len() <= 32 ==> forall|i: int|
                0 <= i < 32 ==> #[trigger] s.h[i] == if i < name.len() {
                    name[i]
                } else {
                    0
                }
        }),
{
}

/// Mixing data in hashes it behind the hash so far, and touches nothing else.
pub proof fn law_mix_hash(s: SymmetricModel, data: Seq<u8>)
    ensures
        sym_hashed(s, data).h == crypto::sha256(s.h + data)@,
        sym_hashed(s, data).ck == s.ck,
        sym_hashed(s, data).cipher == s.cipher,
{
}

/// Mixing a secret in takes 64 bytes of HKDF with the chaining key as salt: the first half is the
/// new chaining key, the second the new key of the cipher, which starts to count anew.
pub proof fn law_mix_key(s: SymmetricModel, secret: Seq<u8>)
    ensures
        sym_keyed(s, secret).ck == crypto::hkdf_sha256(s.ck, secret, Seq::empty())@.subrange(0, 32),
        sym_keyed(s, secret).cipher.key == Some(
            crypto::hkdf_sha256(s.ck, secret, Seq::empty())@.subrange(32, 64),
        ),
        sym_keyed(s, secret).cipher.nonce == 0,
        sym_keyed(s, secret).h == s.h,
{
    let output = crypto::hkdf_sha256(s.ck, secret, Seq::empty())@;
    assert(output.take(32) =~= output.subrange(0, 32));
    assert(output.skip(32) =~= output.subrange(32, 64));
}

/// A field is sealed without associated data, and what goes out is hashed; a field that comes in
/// is hashed as it came, if it opens. The chaining key stays.
pub proof fn law_fields_are_hashed(s: SymmetricModel, data: Seq<u8>)
    ensures
        ({
            let (sent, out) = sym_encrypted(s, data);
            let (read, text) = sym_decrypted(s, data);
            &&& out == cipher::cipher_sealed(s.cipher, Seq::empty(), data).1
            &&& sent.cipher == cipher::cipher_sealed(s.cipher, Seq::empty(), data).0
            &&& sent.ck == s.ck
            &&& out is Ok ==> sent.h == crypto::sha256(s.h + out->Ok_0)@
            &&& out is Err ==> sent.h == s.h
            &&& text == cipher::cipher_opened(s.cipher, data).1
            &&& read.cipher == cipher::cipher_opened(s.cipher, data).0
            &&& read.ck == s.ck
            &&& text is Ok ==> read.h == crypto::sha256(s.h + data)@
            &&& text is Err ==> read.h == s.h
        }),
{
}

/// A finished handshake splits 64 bytes of HKDF, with the chaining key as salt and nothing else,
/// into the keys of the two directions, which both start to count at zero.
pub proof fn law_split(s: SymmetricModel)
    ensures
        ({
            let output = crypto::hkdf_sha256(s.ck, Seq::empty(), Seq::empty())@;
            let (first, second) = sym_split(s);
            &&& first.key == Some(output.subrange(0, 32))
            &&& first.nonce == 0
            &&& second.key == Some(output.subrange(32, 64))
            &&& second.nonce == 0
        }),
{
    let output = crypto::hkdf_sha256(s.ck, Seq::empty(), Seq::empty())@;
    assert(output.take(32) =~= output.subrange(0, 32));
    assert(output.skip(32) =~= output.subrange(32, 64));
}

/// The whole IK handshake, written out over hashes, key derivation and seals: the messages that
/// the initiator sends and accepts, and the keys it ends with. It absorbs, in this order, the
/// responder's key in even parity, `e`, `es`, `s`, `ss`, the epoch, and of the answer `e`, `ee`,
/// `se` and the epoch.
#[verifier::rlimit(60)]
pub proof fn law_ik_transcript(
    initiator: Seq<u8>,
    ephemeral: Seq<u8>,
    responder: Seq<u8>,
    responder_key: Seq<u8>,
    responder_ephemeral: Seq<u8>,
    epoch: Seq<u8>,
    responder_epoch: Seq<u8>,
)
    requires
        identity::is_keypair(initiator),
        identity::is_keypair(ephemeral),
        identity::is_keypair(responder),
        identity::is_keypair(responder_ephemeral),
        responder_key.len() == 33,
        responder_key.subrange(1, 33) == crypto::secp256k1_public(responder)@.subrange(1, 33),
        epoch.len() == 8,
        responder_epoch.len() == 8,
    ensures
        ({
            let name = "Noise_IK_secp256k1_ChaChaPoly_SHA256"@;
            let start = crypto::sha256(Seq::new(36, |i: int| name[i] as u8))@;
            let nonce = Seq::new(12, |i: int| 0u8);
            let none = Seq::<u8>::empty();
            let s = crypto::secp256k1_public(initiator)@;
            let e = crypto::secp256k1_public(ephemeral)@;
            let rs = crypto::secp256k1_public(responder)@;
            let re = crypto::secp256k1_public(responder_ephemeral)@;
            let (sx, ex) = (s.subrange(1, 33), e.subrange(1, 33));
            let (rsx, rex) = (rs.subrange(1, 33), re.subrange(1, 33));
            let es = crypto::sha256(crypto::secp256k1_shared_x(set![ex, rsx])@)@;
            let ss = crypto::sha256(crypto::secp256k1_shared_x(set![sx, rsx])@)@;
            let ee = crypto::sha256(crypto::secp256k1_shared_x(set![ex, rex])@)@;
            let se = crypto::sha256(crypto::secp256k1_shared_x(set![ex, rsx])@)@;
            let k1 = crypto::hkdf_sha256(start, es, none)@;
            let k2 = crypto::hkdf_sha256(k1.subrange(0, 32), ss, none)@;
            let k3 = crypto::hkdf_sha256(k2.subrange(0, 32), ee, none)@;
            let k4 = crypto::hkdf_sha256(k3.subrange(0, 32), se, none)@;
            let keys = crypto::hkdf_sha256(k4.subrange(0, 32), none, none)@;
            let field_s = crypto::sealed(k1.subrange(32, 64), nonce, none, s);
            let field_epoch = crypto::sealed(k2.subrange(32, 64), nonce, none, epoch);
            let field_answer = crypto::sealed(k4.subrange(32, 64), nonce, none, responder_epoch);
            let h0 = crypto::sha256(start + (seq![2u8] + rsx))@;
            let h1 = crypto::sha256(h0 + e)@;
            let h2 = crypto::sha256(h1 + field_s)@;
            let h3 = crypto::sha256(h2 + field_epoch)@;
            let h4 = crypto::sha256(h3 + re)@;
            let h5 = crypto::sha256(h4 + field_answer)@;
            let begun = ik_initiator(initiator, responder_key, epoch);
            let (sent, message) = ik_write_message_1(begun, ephemeral);
            let (done, accepted) = ik_read_message_2(sent, re + field_answer);
            let keyed = ik_transport(done);
            &&& message == Ok::<Seq<u8>, Seq<char>>(e + field_s + field_epoch)
            &&& sent.symmetric.h == h3
            &&& sent.symmetric.ck == k2.subrange(0, 32)
            &&& accepted is Ok
            &&& done.remote_epoch == Some(responder_epoch)
            &&& done.symmetric.h == h5
            &&& done.symmetric.ck == k4.subrange(0, 32)
            &&& keyed is Ok
            &&& keyed->Ok_0.0.key == Some(keys.subrange(0, 32))
            &&& keyed->Ok_0.0.nonce == 0
            &&& keyed->Ok_0.1.key == Some(keys.subrange(32, 64))
            &&& keyed->Ok_0.1.nonce == 0
            &&& keyed->Ok_0.2 == h5
            &&& keyed->Ok_0.3 == responder_key
        }),
{
    reveal_strlit("Noise_IK_secp256k1_ChaChaPoly_SHA256");
    let name = "Noise_IK_secp256k1_ChaChaPoly_SHA256"@;
    assert(Seq::new(36, |i: int| name[i] as u8) =~= ik_protocol_name());
    let start = crypto::sha256(ik_protocol_name())@;
    let nonce = Seq::new(12, |i: int| 0u8);
    let none = Seq::<u8>::empty();
    let s = crypto::secp256k1_public(initiator)@;
    let e = crypto::secp256k1_public(ephemeral)@;
    let rs = crypto::secp256k1_public(responder)@;
    let re = crypto::secp256k1_public(responder_ephemeral)@;
    lemma_x_at(s);
    lemma_x_at(e);
    lemma_x_at(rs);
    lemma_x_at(re);
    lemma_x_at(responder_key);
    lemma_nonce_zero();
    let (sx, ex) = (s.subrange(1, 33), e.subrange(1, 33));
    let (rsx, rex) = (rs.subrange(1, 33), re.subrange(1, 33));
    let begun = ik_initiator(initiator, responder_key, epoch);
    let es = identity::dh(ephemeral, responder_key);
    let ss = identity::dh(initiator, responder_key);
    let ee = identity::dh(ephemeral, re);
    let s1 = sym_keyed(sym_hashed(begun.symmetric, e), es);
    law_mix_key(sym_hashed(begun.symmetric, e), es);
    let (s2, c1) = sym_encrypted(s1, s);
    let s3 = sym_keyed(s2, ss);
    law_mix_key(s2, ss);
    let (s4, c2) = sym_encrypted(s3, epoch);
    let s5 = sym_keyed(sym_hashed(s4, re), ee);
    law_mix_key(sym_hashed(s4, re), ee);
    let s6 = sym_keyed(s5, es);
    law_mix_key(s5, es);
    let (s7, c3) = sym_encrypted(s6, responder_epoch);
    law_fields_decrypt(s6, responder_epoch);
    let answer = re + c3->Ok_0;
    assert(answer.take(33) =~= re);
    assert(answer.skip(33) =~= c3->Ok_0);
    law_split(s7);
}

/// The x-coordinate of a compressed key is what stands behind its first byte.
pub proof fn lemma_x_at(key: Seq<u8>)
    requires
        key.len() == 33,
    ensures
        identity::x_only(key) == key.subrange(1, 33),
{
    assert(identity::x_only(key) =~= key.subrange(1, 33));
}

/// The nonce of the first message under a key is all zeros.
pub proof fn lemma_nonce_zero()
    ensures
        cipher::nonce_of(0) == Seq::new(12, |i: int| 0u8),
{
    reveal_with_fuel(bytes::le_bytes, 9);
    assert(cipher::nonce_of(0) =~= Seq::new(12, |i: int| 0u8));
}

/// The steps of an IK handshake come in order: only an initiator that has sent nothing writes its
/// message, only one that waits for the answer reads it, and only a finished handshake gives keys.
/// A step out of order, and an answer of the wrong size, change nothing.
pub proof fn law_ik_steps_in_order(m: IkModel, ephemeral: Seq<u8>, message: Seq<u8>)
    ensures
        ({
            let (written, first) = ik_write_message_1(m, ephemeral);
            let (read, answer) = ik_read_message_2(m, message);
            let fresh = m.role == Role::Initiator && m.progress == Progress::Initial;
            let waits = m.role == Role::Initiator && m.progress == Progress::Message1Done;
            &&& first is Ok <==> fresh
            &&& !fresh ==> written == m && first->Err_0 == "wrong state for write_message_1"@
            &&& fresh ==> {
                &&& written.progress == Progress::Message1Done
                &&& written.role == m.role
                &&& written.static_secret == m.static_secret
                &&& written.ephemeral_secret == Some(ephemeral)
                &&& written.remote_static == m.remote_static
                &&& written.local_epoch == m.local_epoch
                &&& written.remote_epoch == m.remote_epoch
            }
            &&& !waits ==> read == m && answer == Err::<(), Seq<char>>(
                "wrong state for read_message_2"@,
            )
            &&& waits && message.len() != 57 ==> read == m && answer == Err::<(), Seq<char>>(
                "msg2 wrong size: expected 57, got "@ + text::decimal(message.len()),
            )
            &&& answer is Ok ==> read.progress == Progress::Complete
            &&& answer is Err ==> read.progress == m.progress && read.remote_epoch == m.remote_epoch
            &&& read.role == m.role
            &&& read.static_secret == m.static_secret
            &&& read.ephemeral_secret == m.ephemeral_secret
            &&& read.remote_static == m.remote_static
            &&& read.local_epoch == m.local_epoch
            &&& ik_transport(m) is Ok <==> m.progress == Progress::Complete
            &&& m.progress != Progress::Complete ==> ik_transport(m)->Err_0
                == "handshake not complete"@
        }),
{
}

/// An answer of the right size is accepted if and only if its first 33 bytes are a point and its
/// last 16 the tag of the 8 before them, under the key that the handshake so far and the two shared
/// secrets of our ephemeral key give; those 8 bytes are then the peer's epoch, under the keystream.
#[verifier::rlimit(40)]
pub proof fn law_ik_answer_is_checked(m: IkModel, message: Seq<u8>)
    requires
        m.role == Role::Initiator,
        m.progress == Progress::Message1Done,
        m.ephemeral_secret is Some,
        m.remote_static is Some,
        m.remote_static->0.len() == 33,
        message.len() == 57,
    ensures
        ({
            let (read, answer) = ik_read_message_2(m, message);
            let nonce = Seq::new(12, |i: int| 0u8);
            let none = Seq::<u8>::empty();
            let point = crypto::secp256k1_point(message.subrange(0, 33));
            let ex = crypto::secp256k1_public(m.ephemeral_secret->0)@.subrange(1, 33);
            let rex = point->0@.subrange(1, 33);
            let rsx = m.remote_static->0.subrange(1, 33);
            let ee = crypto::sha256(crypto::secp256k1_shared_x(set![ex, rex])@)@;
            let es = crypto::sha256(crypto::secp256k1_shared_x(set![ex, rsx])@)@;
            let k1 = crypto::hkdf_sha256(m.symmetric.ck, ee, none)@;
            let k2 = crypto::hkdf_sha256(k1.subrange(0, 32), es, none)@;
            let key = k2.subrange(32, 64);
            let sealed = message.subrange(33, 41);
            &&& answer is Ok <==> point is Some && message.subrange(41, 57)
                == crypto::poly1305_tag(key, nonce, none, sealed)@
            &&& point is None ==> read == m && answer->Err_0 == "invalid public key: crypto error"@
            &&& point is Some && answer is Err ==> answer->Err_0 == "decryption failed"@
            &&& answer is Ok ==> {
                &&& read.remote_epoch is Some
                &&& read.remote_epoch->0.len() == 8
                &&& forall|i: int|
                    0 <= i < 8 ==> #[trigger] read.remote_epoch->0[i] == message[33 + i]
                        ^ crypto::chacha20_keystream(key, nonce, i)
                &&& read.remote_ephemeral == Some(point->0@)
                &&& read.symmetric.ck == k2.subrange(0, 32)
                &&& read.symmetric.h == crypto::sha256(
                    crypto::sha256(m.symmetric.h + message.subrange(0, 33))@ + message.subrange(
                        33,
                        57,
                    ),
                )@
            }
        }),
{
    let nonce = Seq::new(12, |i: int| 0u8);
    let none = Seq::<u8>::empty();
    assert(message.take(33) =~= message.subrange(0, 33));
    assert(message.skip(33) =~= message.subrange(33, 57));
    let point = crypto::secp256k1_point(message.subrange(0, 33));
    if point is Some {
        let e = m.ephemeral_secret->0;
        let re = point->0@;
        identity::law_dh_is_hashed_x(e, re);
        identity::law_dh_is_hashed_x(e, m.remote_static->0);
        let s0 = sym_hashed(m.symmetric, message.subrange(0, 33));
        law_mix_key(s0, identity::dh(e, re));
        let s1 = sym_keyed(s0, identity::dh(e, re));
        law_mix_key(s1, identity::dh(e, m.remote_static->0));
        let s2 = sym_keyed(s1, identity::dh(e, m.remote_static->0));
        let field = message.subrange(33, 57);
        law_fields_are_hashed(s2, field);
        cipher::law_opening_in_order(s2.cipher, field);
        cipher::law_opening_checks_the_tag(s2.cipher.key->0, 0, 0, nonce, none, field);
        assert(field.skip(8) =~= message.subrange(41, 57));
        assert(field.take(8) =~= message.subrange(33, 41));
        assert(forall|i: int| 0 <= i < 8 ==> #[trigger] field[i] == message[33 + i]);
    }
}

} // verus!
