//! Noise XK handshake (3-message, session layer).
//!
//! Pattern:
//!   pre-message: <- s  (initiator knows responder's static key)
//!   msg1: -> e, es                    (33 bytes)
//!   msg2: <- e, ee + encrypted epoch  (57 bytes)
//!   msg3: -> s, se + encrypted epoch  (73 bytes)
//!
//! Protocol name: Noise_XK_secp256k1_ChaChaPoly_SHA256
//!
//! After msg3, both sides split into transport ciphers. The initiator sends with the first and
//! receives with the second.

use crate::bytes;
use crate::cipher;
use crate::cipher::{CipherModel, CipherState};
use crate::crypto;
use crate::identity;
use crate::identity::{PublicKey, SecretKey};
use crate::noise;
use crate::noise::{Role, SymmetricModel, SymmetricState, EPOCH_SIZE, PUBKEY_SIZE};
use crate::text;
use vstd::prelude::*;

verus! {

/// XK msg1: ephemeral only (33 bytes).
pub const XK_MSG1_SIZE: usize = 33;

/// XK msg2: ephemeral + encrypted epoch (57 bytes).
pub const XK_MSG2_SIZE: usize = 57;

/// XK msg3: encrypted static + encrypted epoch (73 bytes).
pub const XK_MSG3_SIZE: usize = 73;

/// An encrypted static key: the key and its tag.
const STATIC_ENCRYPTED_SIZE: usize = 49;

/// Handshake progress.
#[derive(Clone, Copy, PartialEq, Eq, Structural)]
pub enum XkProgress {
    Initial,
    Msg1Done,
    Msg2Done,
    Complete,
}

/// A Noise XK handshake in progress, on either side.
#[verifier::ext_equal]
pub struct XkModel {
    pub role: Role,
    pub progress: XkProgress,
    pub symmetric: SymmetricModel,
    pub static_secret: Seq<u8>,
    pub ephemeral_secret: Option<Seq<u8>>,
    pub remote_static: Option<Seq<u8>>,
    pub remote_ephemeral: Option<Seq<u8>>,
    pub local_epoch: Seq<u8>,
    pub remote_epoch: Option<Seq<u8>>,
}

/// The bytes of the protocol name.
pub open spec fn xk_protocol_name() -> Seq<u8> {
    seq![
        78u8, 111u8, 105u8, 115u8, 101u8, 95u8, 88u8, 75u8, 95u8, 115u8, 101u8, 99u8, 112u8, 50u8,
        53u8, 54u8, 107u8, 49u8, 95u8, 67u8, 104u8, 97u8, 67u8, 104u8, 97u8, 80u8, 111u8, 108u8,
        121u8, 95u8, 83u8, 72u8, 65u8, 50u8, 53u8, 54u8,
    ]
}

/// Both sides start by hashing the responder's static key in even parity.
pub open spec fn xk_start(responder_static: Seq<u8>) -> SymmetricModel {
    noise::sym_hashed(
        noise::sym_start(xk_protocol_name()),
        identity::even_key(identity::x_only(responder_static)),
    )
}

/// An initiator, which knows the responder's static key, before its first message.
pub open spec fn xk_initiator(static_secret: Seq<u8>, remote_static: Seq<u8>, epoch: Seq<u8>) -> XkModel {
    XkModel {
        role: Role::Initiator,
        progress: XkProgress::Initial,
        symmetric: xk_start(remote_static),
        static_secret,
        ephemeral_secret: None,
        remote_static: Some(remote_static),
        remote_ephemeral: None,
        local_epoch: epoch,
        remote_epoch: None,
    }
}

/// A responder, which knows nobody yet.
pub open spec fn xk_responder(static_secret: Seq<u8>, epoch: Seq<u8>) -> XkModel {
    XkModel {
        role: Role::Responder,
        progress: XkProgress::Initial,
        symmetric: xk_start(identity::public_of(static_secret)),
        static_secret,
        ephemeral_secret: None,
        remote_static: None,
        remote_ephemeral: None,
        local_epoch: epoch,
        remote_epoch: None,
    }
}

/// Whether a handshake holds the keys that its next step needs.
pub open spec fn xk_ready(m: XkModel) -> bool {
    &&& m.local_epoch.len() == EPOCH_SIZE
    &&& m.role == Role::Initiator || m.progress == XkProgress::Complete ==> m.remote_static is Some
    &&& m.role == Role::Initiator && m.progress == XkProgress::Msg1Done
        ==> m.ephemeral_secret is Some
    &&& m.role == Role::Initiator && m.progress == XkProgress::Msg2Done
        ==> m.remote_ephemeral is Some && m.symmetric.cipher.key is Some
        && m.symmetric.cipher.nonce == 1
    &&& m.role == Role::Responder && m.progress == XkProgress::Msg1Done
        ==> m.remote_ephemeral is Some
    &&& m.role == Role::Responder && m.progress == XkProgress::Msg2Done
        ==> m.ephemeral_secret is Some
}

/// Initiator: `-> e, es`, with a given ephemeral key.
pub open spec fn xk_write_msg1(m: XkModel, ephemeral: Seq<u8>) -> (
    XkModel,
    Result<Seq<u8>, Seq<char>>,
) {
    if m.role != Role::Initiator || m.progress != XkProgress::Initial {
        (m, Err("wrong state for write_msg1"@))
    } else {
        let e = identity::public_of(ephemeral);
        (
            XkModel {
                progress: XkProgress::Msg1Done,
                symmetric: noise::sym_keyed(
                    noise::sym_hashed(m.symmetric, e),
                    identity::dh(ephemeral, m.remote_static->0),
                ),
                ephemeral_secret: Some(ephemeral),
                ..m
            },
            Ok(e),
        )
    }
}

/// Responder: reads `-> e, es`.
pub open spec fn xk_read_msg1(m: XkModel, message: Seq<u8>) -> (XkModel, Result<(), Seq<char>>) {
    if m.role != Role::Responder || m.progress != XkProgress::Initial {
        (m, Err("wrong state for read_msg1"@))
    } else if message.len() != XK_MSG1_SIZE {
        (m, Err("xk msg1 wrong size: expected 33, got "@ + text::decimal(message.len())))
    } else {
        match identity::parsed_key(message) {
            Err(e) => (m, Err(e)),
            Ok(re) => (
                XkModel {
                    progress: XkProgress::Msg1Done,
                    symmetric: noise::sym_keyed(
                        noise::sym_hashed(m.symmetric, message),
                        identity::dh(m.static_secret, re),
                    ),
                    remote_ephemeral: Some(re),
                    ..m
                },
                Ok(()),
            ),
        }
    }
}

/// Responder: `<- e, ee` and its epoch, with a given ephemeral key.
pub open spec fn xk_write_msg2(m: XkModel, ephemeral: Seq<u8>) -> (
    XkModel,
    Result<Seq<u8>, Seq<char>>,
) {
    if m.role != Role::Responder || m.progress != XkProgress::Msg1Done {
        (m, Err("wrong state for write_msg2"@))
    } else {
        let e = identity::public_of(ephemeral);
        let s1 = noise::sym_keyed(
            noise::sym_hashed(m.symmetric, e),
            identity::dh(ephemeral, m.remote_ephemeral->0),
        );
        let (s2, field) = noise::sym_encrypted(s1, m.local_epoch);
        (
            XkModel {
                progress: XkProgress::Msg2Done,
                symmetric: s2,
                ephemeral_secret: Some(ephemeral),
                ..m
            },
            Ok(e + field->Ok_0),
        )
    }
}

/// Initiator: reads `<- e, ee` and the responder's epoch.
pub open spec fn xk_read_msg2(m: XkModel, message: Seq<u8>) -> (XkModel, Result<(), Seq<char>>) {
    if m.role != Role::Initiator || m.progress != XkProgress::Msg1Done {
        (m, Err("wrong state for read_msg2"@))
    } else if message.len() != XK_MSG2_SIZE {
        (m, Err("xk msg2 wrong size: expected 57, got "@ + text::decimal(message.len())))
    } else {
        match identity::parsed_key(message.take(33)) {
            Err(e) => (m, Err(e)),
            Ok(re) => {
                let s1 = noise::sym_keyed(
                    noise::sym_hashed(m.symmetric, message.take(33)),
                    identity::dh(m.ephemeral_secret->0, re),
                );
                let (s2, field) = noise::sym_decrypted(s1, message.skip(33));
                match field {
                    Err(e) => (XkModel { symmetric: s2, ..m }, Err(e)),
                    Ok(epoch) => (
                        XkModel {
                            progress: XkProgress::Msg2Done,
                            symmetric: s2,
                            remote_ephemeral: Some(re),
                            remote_epoch: Some(epoch),
                            ..m
                        },
                        Ok(()),
                    ),
                }
            },
        }
    }
}

/// Initiator: `-> s, se` and its epoch.
pub open spec fn xk_write_msg3(m: XkModel) -> (XkModel, Result<Seq<u8>, Seq<char>>) {
    if m.role != Role::Initiator || m.progress != XkProgress::Msg2Done {
        (m, Err("wrong state for write_msg3"@))
    } else {
        let (s1, field_s) = noise::sym_encrypted(
            m.symmetric,
            identity::public_of(m.static_secret),
        );
        let s2 = noise::sym_keyed(s1, identity::dh(m.static_secret, m.remote_ephemeral->0));
        let (s3, field_epoch) = noise::sym_encrypted(s2, m.local_epoch);
        (
            XkModel { progress: XkProgress::Complete, symmetric: s3, ..m },
            Ok(field_s->Ok_0 + field_epoch->Ok_0),
        )
    }
}

/// Responder: reads `-> s, se` and the initiator's epoch.
pub open spec fn xk_read_msg3(m: XkModel, message: Seq<u8>) -> (XkModel, Result<(), Seq<char>>) {
    if m.role != Role::Responder || m.progress != XkProgress::Msg2Done {
        (m, Err("wrong state for read_msg3"@))
    } else if message.len() != XK_MSG3_SIZE {
        (m, Err("xk msg3 wrong size: expected 73, got "@ + text::decimal(message.len())))
    } else {
        let (s1, field_s) = noise::sym_decrypted(m.symmetric, message.take(49));
        let with_s1 = XkModel { symmetric: s1, ..m };
        match field_s {
            Err(e) => (with_s1, Err(e)),
            Ok(s) => match identity::parsed_key(s) {
                Err(e) => (with_s1, Err(e)),
                Ok(remote) => {
                    let s2 = noise::sym_keyed(s1, identity::dh(m.ephemeral_secret->0, remote));
                    let (s3, field_epoch) = noise::sym_decrypted(s2, message.skip(49));
                    let with_s3 = XkModel { symmetric: s3, remote_static: Some(remote), ..m };
                    match field_epoch {
                        Err(e) => (with_s3, Err(e)),
                        Ok(epoch) => (
                            XkModel {
                                progress: XkProgress::Complete,
                                remote_epoch: Some(epoch),
                                ..with_s3
                            },
                            Ok(()),
                        ),
                    }
                },
            },
        }
    }
}

/// What a finished handshake hands to the transport: sending cipher, receiving cipher and the
/// peer's static key.
pub open spec fn xk_transport(m: XkModel) -> Result<
    (CipherModel, CipherModel, Seq<u8>),
    Seq<char>,
> {
    if m.progress != XkProgress::Complete {
        Err("handshake not complete"@)
    } else {
        let (c1, c2) = noise::sym_split(m.symmetric);
        if m.role == Role::Initiator {
            Ok((c1, c2, m.remote_static->0))
        } else {
            Ok((c2, c1, m.remote_static->0))
        }
    }
}

/// Noise XK handshake state (both initiator and responder).
pub struct HandshakeXK {
    role: Role,
    progress: XkProgress,
    symmetric: SymmetricState,
    static_secret: SecretKey,
    static_public: PublicKey,
    ephemeral_secret: Option<SecretKey>,
    remote_static: Option<PublicKey>,
    remote_ephemeral: Option<PublicKey>,
    local_epoch: [u8; 8],
    remote_epoch: Option<[u8; 8]>,
}

impl View for HandshakeXK {
    type V = XkModel;

    closed spec fn view(&self) -> XkModel {
        XkModel {
            role: self.role,
            progress: self.progress,
            symmetric: self.symmetric@,
            static_secret: self.static_secret@,
            ephemeral_secret: match self.ephemeral_secret {
                Some(k) => Some(k@),
                None => None,
            },
            remote_static: match self.remote_static {
                Some(k) => Some(k@),
                None => None,
            },
            remote_ephemeral: match self.remote_ephemeral {
                Some(k) => Some(k@),
                None => None,
            },
            local_epoch: self.local_epoch@,
            remote_epoch: match self.remote_epoch {
                Some(e) => Some(e@),
                None => None,
            },
        }
    }
}

fn xk_name() -> (r: [u8; 36])
    ensures
        r@ == xk_protocol_name(),
{
    let r: [u8; 36] = [
        78u8, 111u8, 105u8, 115u8, 101u8, 95u8, 88u8, 75u8, 95u8, 115u8, 101u8, 99u8, 112u8, 50u8,
        53u8, 54u8, 107u8, 49u8, 95u8, 67u8, 104u8, 97u8, 67u8, 104u8, 97u8, 80u8, 111u8, 108u8,
        121u8, 95u8, 83u8, 72u8, 65u8, 50u8, 53u8, 54u8,
    ];
    assert(r@ =~= xk_protocol_name());
    r
}

impl HandshakeXK {
    /// The handshake holds the keys that its next step needs, and its own public key belongs to
    /// its secret key.
    pub closed spec fn wf(&self) -> bool {
        xk_ready(self@) && self.static_public@ == identity::public_of(self.static_secret@)
    }

    /// Create as initiator (browser connecting to a remote node).
    ///
    /// The initiator knows the responder's static key before msg1.
    pub fn new_initiator(
        static_secret: SecretKey,
        remote_static: PublicKey,
        local_epoch: [u8; 8],
    ) -> (r: Self)
        ensures
            r@ == xk_initiator(static_secret@, remote_static@, local_epoch@),
            r.wf(),
    {
        let static_public = static_secret.public_key();
        let name = xk_name();
        let mut symmetric = SymmetricState::initialize(&name);
        // Pre-message: <- s (the responder's static key)
        let normalized = identity::normalize_for_premessage(&remote_static);
        symmetric.mix_hash(&normalized);
        Self {
            role: Role::Initiator,
            progress: XkProgress::Initial,
            symmetric,
            static_secret,
            static_public,
            ephemeral_secret: None,
            remote_static: Some(remote_static),
            remote_ephemeral: None,
            local_epoch,
            remote_epoch: None,
        }
    }

    /// Create as responder (browser receiving a SessionSetup from a remote node).
    ///
    /// The responder knows its own static key. The initiator's identity is revealed in msg3.
    pub fn new_responder(static_secret: SecretKey, local_epoch: [u8; 8]) -> (r: Self)
        ensures
            r@ == xk_responder(static_secret@, local_epoch@),
            r.wf(),
    {
        let static_public = static_secret.public_key();
        let name = xk_name();
        let mut symmetric = SymmetricState::initialize(&name);
        // Pre-message: <- s (both sides hash the responder's static key, here our own)
        let normalized = identity::normalize_for_premessage(&static_public);
        symmetric.mix_hash(&normalized);
        Self {
            role: Role::Responder,
            progress: XkProgress::Initial,
            symmetric,
            static_secret,
            static_public,
            ephemeral_secret: None,
            remote_static: None,
            remote_ephemeral: None,
            local_epoch,
            remote_epoch: None,
        }
    }

    // ========================================================================
    // Initiator side
    // ========================================================================

    /// Write XK msg1 (initiator to responder) with a fresh ephemeral key: -> e, es
    ///
    /// Returns 33 bytes (ephemeral public key only).
    pub fn write_msg1(&mut self) -> (r: Result<Vec<u8>, String>)
        requires
            old(self).wf(),
        ensures
            final(self).wf(),
            exists|e: Seq<u8>|
                #![trigger xk_write_msg1(old(self)@, e)]
                identity::is_keypair(e) && final(self)@ == xk_write_msg1(old(self)@, e).0
                    && text::bytes_result(r) == xk_write_msg1(old(self)@, e).1,
            r matches Ok(v) ==> v@.len() == XK_MSG1_SIZE,
    {
        self.write_msg1_with(SecretKey::random())
    }

    /// Write XK msg1 with a given ephemeral key.
    pub fn write_msg1_with(&mut self, ephemeral: SecretKey) -> (r: Result<Vec<u8>, String>)
        requires
            old(self).wf(),
        ensures
            final(self).wf(),
            final(self)@ == xk_write_msg1(old(self)@, ephemeral@).0,
            text::bytes_result(r) == xk_write_msg1(old(self)@, ephemeral@).1,
            r matches Ok(v) ==> v@.len() == XK_MSG1_SIZE,
    {
        if self.role != Role::Initiator || self.progress != XkProgress::Initial {
            return Err("wrong state for write_msg1".to_string());
        }
        let rs = self.remote_static.unwrap();

        // -> e: send the ephemeral key, mix into hash
        let e_pub = ephemeral.public_key();
        let e_pub_bytes = identity::pubkey_to_bytes(&e_pub);
        self.symmetric.mix_hash(&e_pub_bytes);

        // -> es: DH(ephemeral, responder_static)
        let es = identity::ecdh(&ephemeral, &rs);
        self.symmetric.mix_key(&es);

        self.ephemeral_secret = Some(ephemeral);
        self.progress = XkProgress::Msg1Done;
        Ok(bytes::to_vec(&e_pub_bytes))
    }

    /// Read XK msg2 (initiator receives from responder): <- e, ee + epoch
    ///
    /// Processes 57 bytes.
    pub fn read_msg2(&mut self, message: &[u8]) -> (r: Result<(), String>)
        requires
            old(self).wf(),
        ensures
            final(self).wf(),
            final(self)@ == xk_read_msg2(old(self)@, message@).0,
            text::unit_result(r) == xk_read_msg2(old(self)@, message@).1,
    {
        if self.role != Role::Initiator || self.progress != XkProgress::Msg1Done {
            return Err("wrong state for read_msg2".to_string());
        }
        if message.len() != XK_MSG2_SIZE {
            let n = text::decimal_text(message.len() as u64);
            return Err(text::join2("xk msg2 wrong size: expected 57, got ", n.as_str()));
        }
        let e_sec = self.ephemeral_secret.unwrap();

        // <- e: parse responder ephemeral, mix into hash
        let e_field = vstd::slice::slice_subrange(message, 0, PUBKEY_SIZE);
        assert(e_field@ =~= message@.take(33));
        let re = match identity::pubkey_from_bytes(e_field) {
            Ok(k) => k,
            Err(e) => return Err(e),
        };
        self.symmetric.mix_hash(e_field);

        // <- ee: DH(our_ephemeral, their_ephemeral)
        let ee = identity::ecdh(&e_sec, &re);
        self.symmetric.mix_key(&ee);

        // Decrypt responder's epoch
        let epoch_ct = vstd::slice::slice_subrange(message, PUBKEY_SIZE, message.len());
        assert(epoch_ct@ =~= message@.skip(33));
        let epoch_pt = match self.symmetric.decrypt_and_hash(epoch_ct) {
            Ok(p) => p,
            Err(e) => return Err(e),
        };
        let epoch = bytes::array8_at(epoch_pt.as_slice(), 0);
        assert(epoch@ =~= epoch_pt@);
        self.remote_epoch = Some(epoch);
        self.remote_ephemeral = Some(re);
        self.progress = XkProgress::Msg2Done;
        Ok(())
    }

    /// Write XK msg3 (initiator to responder): -> s, se + epoch
    ///
    /// Returns 73 bytes. After this, the handshake is complete.
    pub fn write_msg3(&mut self) -> (r: Result<Vec<u8>, String>)
        requires
            old(self).wf(),
        ensures
            final(self).wf(),
            final(self)@ == xk_write_msg3(old(self)@).0,
            text::bytes_result(r) == xk_write_msg3(old(self)@).1,
            r matches Ok(v) ==> v@.len() == XK_MSG3_SIZE,
    {
        if self.role != Role::Initiator || self.progress != XkProgress::Msg2Done {
            return Err("wrong state for write_msg3".to_string());
        }
        let re = self.remote_ephemeral.unwrap();

        // -> s: encrypt our static public key
        let s_bytes = identity::pubkey_to_bytes(&self.static_public);
        proof {
            noise::lemma_field_encrypts(self.symmetric@, s_bytes@);
        }
        let encrypted_static = match self.symmetric.encrypt_and_hash(&s_bytes) {
            Ok(c) => c,
            Err(e) => return Err(e),
        };

        // -> se: DH(our_static, their_ephemeral)
        let se = identity::ecdh(&self.static_secret, &re);
        self.symmetric.mix_key(&se);

        // Encrypt our epoch
        proof {
            noise::lemma_field_encrypts(self.symmetric@, self.local_epoch@);
        }
        let encrypted_epoch = match self.symmetric.encrypt_and_hash(&self.local_epoch) {
            Ok(c) => c,
            Err(e) => return Err(e),
        };
        let mut message: Vec<u8> = encrypted_static;
        bytes::append(&mut message, encrypted_epoch.as_slice());
        self.progress = XkProgress::Complete;
        Ok(message)
    }

    // ========================================================================
    // Responder side
    // ========================================================================

    /// Read XK msg1 (responder receives from initiator): -> e, es
    ///
    /// Processes 33 bytes.
    pub fn read_msg1(&mut self, message: &[u8]) -> (r: Result<(), String>)
        requires
            old(self).wf(),
        ensures
            final(self).wf(),
            final(self)@ == xk_read_msg1(old(self)@, message@).0,
            text::unit_result(r) == xk_read_msg1(old(self)@, message@).1,
    {
        if self.role != Role::Responder || self.progress != XkProgress::Initial {
            return Err("wrong state for read_msg1".to_string());
        }
        if message.len() != XK_MSG1_SIZE {
            let n = text::decimal_text(message.len() as u64);
            return Err(text::join2("xk msg1 wrong size: expected 33, got ", n.as_str()));
        }

        // -> e: parse initiator ephemeral, mix into hash
        let re = match identity::pubkey_from_bytes(message) {
            Ok(k) => k,
            Err(e) => return Err(e),
        };
        self.symmetric.mix_hash(message);

        // -> es: DH(our_static, their_ephemeral)
        let es = identity::ecdh(&self.static_secret, &re);
        self.symmetric.mix_key(&es);

        self.remote_ephemeral = Some(re);
        self.progress = XkProgress::Msg1Done;
        Ok(())
    }

    /// Write XK msg2 (responder to initiator) with a fresh ephemeral key: <- e, ee + epoch
    ///
    /// Returns 57 bytes.
    pub fn write_msg2(&mut self) -> (r: Result<Vec<u8>, String>)
        requires
            old(self).wf(),
        ensures
            final(self).wf(),
            exists|e: Seq<u8>|
                #![trigger xk_write_msg2(old(self)@, e)]
                identity::is_keypair(e) && final(self)@ == xk_write_msg2(old(self)@, e).0
                    && text::bytes_result(r) == xk_write_msg2(old(self)@, e).1,
            r matches Ok(v) ==> v@.len() == XK_MSG2_SIZE,
    {
        self.write_msg2_with(SecretKey::random())
    }

    /// Write XK msg2 with a given ephemeral key.
    pub fn write_msg2_with(&mut self, ephemeral: SecretKey) -> (r: Result<Vec<u8>, String>)
        requires
            old(self).wf(),
        ensures
            final(self).wf(),
            final(self)@ == xk_write_msg2(old(self)@, ephemeral@).0,
            text::bytes_result(r) == xk_write_msg2(old(self)@, ephemeral@).1,
            r matches Ok(v) ==> v@.len() == XK_MSG2_SIZE,
    {
        if self.role != Role::Responder || self.progress != XkProgress::Msg1Done {
            return Err("wrong state for write_msg2".to_string());
        }
        let re = self.remote_ephemeral.unwrap();

        // <- e: send the ephemeral key, mix into hash
        let e_pub = ephemeral.public_key();
        let e_pub_bytes = identity::pubkey_to_bytes(&e_pub);
        self.symmetric.mix_hash(&e_pub_bytes);

        // <- ee: DH(our_ephemeral, their_ephemeral)
        let ee = identity::ecdh(&ephemeral, &re);
        self.symmetric.mix_key(&ee);

        // Encrypt our epoch
        proof {
            noise::lemma_field_encrypts(self.symmetric@, self.local_epoch@);
        }
        let encrypted_epoch = match self.symmetric.encrypt_and_hash(&self.local_epoch) {
            Ok(c) => c,
            Err(e) => return Err(e),
        };
        self.ephemeral_secret = Some(ephemeral);
        self.progress = XkProgress::Msg2Done;

        let mut message: Vec<u8> = bytes::to_vec(&e_pub_bytes);
        bytes::append(&mut message, encrypted_epoch.as_slice());
        Ok(message)
    }

    /// Read XK msg3 (responder receives from initiator): -> s, se + epoch
    ///
    /// Processes 73 bytes. After this, the responder knows the initiator's identity.
    pub fn read_msg3(&mut self, message: &[u8]) -> (r: Result<(), String>)
        requires
            old(self).wf(),
        ensures
            final(self).wf(),
            final(self)@ == xk_read_msg3(old(self)@, message@).0,
            text::unit_result(r) == xk_read_msg3(old(self)@, message@).1,
    {
        if self.role != Role::Responder || self.progress != XkProgress::Msg2Done {
            return Err("wrong state for read_msg3".to_string());
        }
        if message.len() != XK_MSG3_SIZE {
            let n = text::decimal_text(message.len() as u64);
            return Err(text::join2("xk msg3 wrong size: expected 73, got ", n.as_str()));
        }
        let e_sec = self.ephemeral_secret.unwrap();

        // -> s: decrypt initiator's static public key
        let encrypted_static = vstd::slice::slice_subrange(message, 0, STATIC_ENCRYPTED_SIZE);
        assert(encrypted_static@ =~= message@.take(49));
        let s_bytes = match self.symmetric.decrypt_and_hash(encrypted_static) {
            Ok(p) => p,
            Err(e) => return Err(e),
        };
        let remote_pub = match identity::pubkey_from_bytes(s_bytes.as_slice()) {
            Ok(k) => k,
            Err(e) => return Err(e),
        };
        self.remote_static = Some(remote_pub);

        // -> se: DH(our_ephemeral, their_static)
        let se = identity::ecdh(&e_sec, &remote_pub);
        self.symmetric.mix_key(&se);

        // Decrypt initiator's epoch
        let epoch_ct = vstd::slice::slice_subrange(message, STATIC_ENCRYPTED_SIZE, message.len());
        assert(epoch_ct@ =~= message@.skip(49));
        let epoch_pt = match self.symmetric.decrypt_and_hash(epoch_ct) {
            Ok(p) => p,
            Err(e) => return Err(e),
        };
        let epoch = bytes::array8_at(epoch_pt.as_slice(), 0);
        assert(epoch@ =~= epoch_pt@);
        self.remote_epoch = Some(epoch);
        self.progress = XkProgress::Complete;
        Ok(())
    }

    // ========================================================================
    // Completion
    // ========================================================================

    /// Complete the handshake and return transport ciphers.
    ///
    /// Returns (send_cipher, recv_cipher, remote_static_pubkey). The initiator sends with the
    /// first cipher and receives with the second, the responder the other way round.
    pub fn into_transport(self) -> (r: Result<(CipherState, CipherState, PublicKey), String>)
        requires
            self.wf(),
        ensures
            match r {
                Ok((send, recv, remote)) => xk_transport(self@) == Ok::<
                    (CipherModel, CipherModel, Seq<u8>),
                    Seq<char>,
                >((send@, recv@, remote@)),
                Err(e) => xk_transport(self@) == Err::<
                    (CipherModel, CipherModel, Seq<u8>),
                    Seq<char>,
                >(e@),
            },
    {
        if self.progress != XkProgress::Complete {
            return Err("handshake not complete".to_string());
        }
        let (c1, c2) = self.symmetric.split();
        let remote = self.remote_static.unwrap();
        if self.role == Role::Initiator {
            Ok((c1, c2, remote))
        } else {
            Ok((c2, c1, remote))
        }
    }
}

// ============================================================================
// Agreement
// ============================================================================

/// The keys and epochs that the two sides of a session bring to the handshake.
#[verifier::ext_equal]
pub struct XkParties {
    pub initiator: Seq<u8>,
    pub initiator_ephemeral: Seq<u8>,
    pub initiator_epoch: Seq<u8>,
    pub responder: Seq<u8>,
    pub responder_ephemeral: Seq<u8>,
    pub responder_epoch: Seq<u8>,
    /// The responder's public key as the initiator has it, in either parity.
    pub responder_key: Seq<u8>,
}

/// All secrets are key pairs, the epochs have their size, and the initiator's copy of the
/// responder's key has the right x-coordinate.
pub open spec fn xk_parties_valid(p: XkParties) -> bool {
    &&& identity::is_keypair(p.initiator)
    &&& identity::is_keypair(p.initiator_ephemeral)
    &&& identity::is_keypair(p.responder)
    &&& identity::is_keypair(p.responder_ephemeral)
    &&& p.initiator_epoch.len() == EPOCH_SIZE
    &&& p.responder_epoch.len() == EPOCH_SIZE
    &&& identity::x_only(p.responder_key) == identity::x_only(identity::public_of(p.responder))
}

/// The initiator after its first message, and that message.
pub open spec fn xk_run_msg1(p: XkParties) -> (XkModel, Result<Seq<u8>, Seq<char>>) {
    xk_write_msg1(
        xk_initiator(p.initiator, p.responder_key, p.initiator_epoch),
        p.initiator_ephemeral,
    )
}

/// The responder after reading the first message.
pub open spec fn xk_run_heard1(p: XkParties) -> (XkModel, Result<(), Seq<char>>) {
    xk_read_msg1(xk_responder(p.responder, p.responder_epoch), xk_run_msg1(p).1->Ok_0)
}

/// The responder after its message, and that message.
pub open spec fn xk_run_msg2(p: XkParties) -> (XkModel, Result<Seq<u8>, Seq<char>>) {
    xk_write_msg2(xk_run_heard1(p).0, p.responder_ephemeral)
}

/// The initiator after reading the second message.
pub open spec fn xk_run_heard2(p: XkParties) -> (XkModel, Result<(), Seq<char>>) {
    xk_read_msg2(xk_run_msg1(p).0, xk_run_msg2(p).1->Ok_0)
}

/// The initiator after its last message, and that message.
pub open spec fn xk_run_msg3(p: XkParties) -> (XkModel, Result<Seq<u8>, Seq<char>>) {
    xk_write_msg3(xk_run_heard2(p).0)
}

/// The responder after reading the last message.
pub open spec fn xk_run_heard3(p: XkParties) -> (XkModel, Result<(), Seq<char>>) {
    xk_read_msg3(xk_run_msg2(p).0, xk_run_msg3(p).1->Ok_0)
}

/// The responder accepts the first message, and the two symmetric states are then the same.
pub proof fn law_xk_msg1(p: XkParties)
    requires
        xk_parties_valid(p),
    ensures
        xk_run_msg1(p).1 is Ok,
        xk_run_msg1(p).1->Ok_0.len() == XK_MSG1_SIZE,
        xk_run_heard1(p).1 is Ok,
        xk_run_heard1(p).0.symmetric == xk_run_msg1(p).0.symmetric,
{
    identity::law_dh_agrees(p.responder, p.initiator_ephemeral);
}

/// The initiator accepts the answer and learns the responder's epoch, and the two symmetric
/// states are then the same.
pub proof fn law_xk_msg2(p: XkParties)
    requires
        xk_parties_valid(p),
    ensures
        xk_run_msg2(p).1 is Ok,
        xk_run_msg2(p).1->Ok_0.len() == XK_MSG2_SIZE,
        xk_run_heard2(p).1 is Ok,
        xk_run_heard2(p).0.symmetric == xk_run_msg2(p).0.symmetric,
        xk_run_heard2(p).0.remote_epoch == Some(p.responder_epoch),
{
    law_xk_msg1(p);
    let e = identity::public_of(p.responder_ephemeral);
    identity::law_dh_agrees(p.responder_ephemeral, p.initiator_ephemeral);
    let s1 = noise::sym_keyed(
        noise::sym_hashed(xk_run_heard1(p).0.symmetric, e),
        identity::dh(p.responder_ephemeral, identity::public_of(p.initiator_ephemeral)),
    );
    noise::lemma_field_encrypts(s1, p.responder_epoch);
    noise::law_fields_decrypt(s1, p.responder_epoch);
    let field = noise::sym_encrypted(s1, p.responder_epoch).1->Ok_0;
    assert((e + field).take(33) =~= e);
    assert((e + field).skip(33) =~= field);
}

/// The responder accepts the last message and learns who the initiator is and its epoch, and the
/// two symmetric states are then the same.
pub proof fn law_xk_msg3(p: XkParties)
    requires
        xk_parties_valid(p),
    ensures
        xk_run_msg3(p).1 is Ok,
        xk_run_msg3(p).1->Ok_0.len() == XK_MSG3_SIZE,
        xk_run_heard3(p).1 is Ok,
        xk_run_heard3(p).0.symmetric == xk_run_msg3(p).0.symmetric,
        xk_run_heard3(p).0.remote_static == Some(identity::public_of(p.initiator)),
        xk_run_heard3(p).0.remote_epoch == Some(p.initiator_epoch),
{
    law_xk_msg1(p);
    law_xk_msg2(p);
    let i2 = xk_run_heard2(p).0;
    let s = identity::public_of(p.initiator);
    let e = identity::public_of(p.responder_ephemeral);
    identity::law_dh_agrees(p.responder_ephemeral, p.initiator_ephemeral);
    let k1 = noise::sym_keyed(
        noise::sym_hashed(xk_run_heard1(p).0.symmetric, e),
        identity::dh(p.responder_ephemeral, identity::public_of(p.initiator_ephemeral)),
    );
    noise::lemma_field_encrypts(k1, p.responder_epoch);
    let field2 = noise::sym_encrypted(k1, p.responder_epoch).1->Ok_0;
    assert((e + field2).take(33) =~= e);
    assert(i2.remote_ephemeral == Some(e));
    noise::lemma_field_encrypts(i2.symmetric, s);
    noise::law_fields_decrypt(i2.symmetric, s);
    let (s1, c1) = noise::sym_encrypted(i2.symmetric, s);
    identity::law_dh_agrees(p.responder_ephemeral, p.initiator);
    let s2 = noise::sym_keyed(s1, identity::dh(p.initiator, e));
    noise::lemma_field_encrypts(s2, p.initiator_epoch);
    noise::law_fields_decrypt(s2, p.initiator_epoch);
    let c2 = noise::sym_encrypted(s2, p.initiator_epoch).1;
    let message = c1->Ok_0 + c2->Ok_0;
    assert(message.take(49) =~= c1->Ok_0);
    assert(message.skip(49) =~= c2->Ok_0);
}

/// Both sides of a finished XK handshake agree: each sends with the cipher the other receives
/// with, and each knows the other's static key.
pub proof fn law_xk_agreement(p: XkParties)
    requires
        xk_parties_valid(p),
    ensures
        ({
            let ours = xk_transport(xk_run_msg3(p).0);
            let theirs = xk_transport(xk_run_heard3(p).0);
            &&& ours is Ok
            &&& theirs is Ok
            &&& ours->Ok_0.0 == theirs->Ok_0.1
            &&& ours->Ok_0.1 == theirs->Ok_0.0
            &&& ours->Ok_0.2 == p.responder_key
            &&& theirs->Ok_0.2 == identity::public_of(p.initiator)
        }),
{
    law_xk_msg1(p);
    law_xk_msg2(p);
    law_xk_msg3(p);
}

/// The whole XK handshake, written out over hashes, key derivation and seals: the three messages,
/// and what both sides end with. Both absorb, in this order, the responder's key in even parity,
/// `e` and `es`; `e`, `ee` and the responder's epoch; `s`, `se` and the initiator's epoch. All
/// three shared secrets go into the keys of the session.
#[verifier::rlimit(80)]
pub proof fn law_xk_transcript(p: XkParties)
    requires
        xk_parties_valid(p),
        p.responder_key.len() == 33,
    ensures
        ({
            let name = "Noise_XK_secp256k1_ChaChaPoly_SHA256"@;
            let start = crypto::sha256(Seq::new(36, |i: int| name[i] as u8))@;
            let first = Seq::new(12, |i: int| 0u8);
            let second = Seq::new(12, |i: int| if i == 4 { 1u8 } else { 0u8 });
            let none = Seq::<u8>::empty();
            let s = crypto::secp256k1_public(p.initiator)@;
            let e = crypto::secp256k1_public(p.initiator_ephemeral)@;
            let rs = crypto::secp256k1_public(p.responder)@;
            let re = crypto::secp256k1_public(p.responder_ephemeral)@;
            let (sx, ex) = (s.subrange(1, 33), e.subrange(1, 33));
            let (rsx, rex) = (rs.subrange(1, 33), re.subrange(1, 33));
            let es = crypto::sha256(crypto::secp256k1_shared_x(set![ex, rsx])@)@;
            let ee = crypto::sha256(crypto::secp256k1_shared_x(set![rex, ex])@)@;
            let se = crypto::sha256(crypto::secp256k1_shared_x(set![sx, rex])@)@;
            let k1 = crypto::hkdf_sha256(start, es, none)@;
            let k2 = crypto::hkdf_sha256(k1.subrange(0, 32), ee, none)@;
            let k3 = crypto::hkdf_sha256(k2.subrange(0, 32), se, none)@;
            let keys = crypto::hkdf_sha256(k3.subrange(0, 32), none, none)@;
            let field_answer = crypto::sealed(
                k2.subrange(32, 64),
                first,
                none,
                p.responder_epoch,
            );
            let field_s = crypto::sealed(k2.subrange(32, 64), second, none, s);
            let field_epoch = crypto::sealed(k3.subrange(32, 64), first, none, p.initiator_epoch);
            let h0 = crypto::sha256(start + (seq![2u8] + rsx))@;
            let h1 = crypto::sha256(h0 + e)@;
            let h2 = crypto::sha256(h1 + re)@;
            let h3 = crypto::sha256(h2 + field_answer)@;
            let h4 = crypto::sha256(h3 + field_s)@;
            let h5 = crypto::sha256(h4 + field_epoch)@;
            let (ours, message) = xk_run_msg3(p);
            let (theirs, heard) = xk_run_heard3(p);
            let sent = xk_transport(ours);
            let got = xk_transport(theirs);
            &&& xk_run_msg1(p).1 == Ok::<Seq<u8>, Seq<char>>(e)
            &&& xk_run_msg2(p).1 == Ok::<Seq<u8>, Seq<char>>(re + field_answer)
            &&& message == Ok::<Seq<u8>, Seq<char>>(field_s + field_epoch)
            &&& heard is Ok
            &&& ours.symmetric.ck == k3.subrange(0, 32)
            &&& ours.symmetric.h == h5
            &&& theirs.symmetric.ck == k3.subrange(0, 32)
            &&& theirs.symmetric.h == h5
            &&& ours.remote_epoch == Some(p.responder_epoch)
            &&& theirs.remote_epoch == Some(p.initiator_epoch)
            &&& sent is Ok
            &&& sent->Ok_0.0.key == Some(keys.subrange(0, 32))
            &&& sent->Ok_0.0.nonce == 0
            &&& sent->Ok_0.1.key == Some(keys.subrange(32, 64))
            &&& sent->Ok_0.1.nonce == 0
            &&& sent->Ok_0.2 == p.responder_key
            &&& got is Ok
            &&& got->Ok_0.0.key == Some(keys.subrange(32, 64))
            &&& got->Ok_0.0.nonce == 0
            &&& got->Ok_0.1.key == Some(keys.subrange(0, 32))
            &&& got->Ok_0.1.nonce == 0
            &&& got->Ok_0.2 == s
        }),
{
    reveal_strlit("Noise_XK_secp256k1_ChaChaPoly_SHA256");
    let name = "Noise_XK_secp256k1_ChaChaPoly_SHA256"@;
    assert(Seq::new(36, |i: int| name[i] as u8) =~= xk_protocol_name());
    let s = crypto::secp256k1_public(p.initiator)@;
    let e = crypto::secp256k1_public(p.initiator_ephemeral)@;
    let rs = crypto::secp256k1_public(p.responder)@;
    let re = crypto::secp256k1_public(p.responder_ephemeral)@;
    noise::lemma_x_at(s);
    noise::lemma_x_at(e);
    noise::lemma_x_at(rs);
    noise::lemma_x_at(re);
    noise::lemma_x_at(p.responder_key);
    noise::lemma_nonce_zero();
    lemma_nonce_one();
    law_xk_msg1(p);
    law_xk_msg2(p);
    law_xk_msg3(p);
    let es = identity::dh(p.initiator_ephemeral, p.responder_key);
    let ee = identity::dh(p.responder_ephemeral, e);
    let se = identity::dh(p.initiator, re);
    let s0 = xk_start(p.responder_key);
    noise::law_mix_key(noise::sym_hashed(s0, e), es);
    let s1 = noise::sym_keyed(noise::sym_hashed(s0, e), es);
    noise::law_mix_key(noise::sym_hashed(s1, re), ee);
    let s2 = noise::sym_keyed(noise::sym_hashed(s1, re), ee);
    let (s3, c1) = noise::sym_encrypted(s2, p.responder_epoch);
    assert(xk_run_msg2(p).0.symmetric == s3);
    assert((re + c1->Ok_0).take(33) =~= re);
    let (s4, c2) = noise::sym_encrypted(s3, s);
    noise::law_mix_key(s4, se);
    let s5 = noise::sym_keyed(s4, se);
    let (s6, c3) = noise::sym_encrypted(s5, p.initiator_epoch);
    assert(xk_run_msg3(p).0.symmetric == s6);
    noise::law_split(s6);
}

proof fn lemma_nonce_one()
    ensures
        cipher::nonce_of(1) == Seq::new(12, |i: int| if i == 4 { 1u8 } else { 0u8 }),
{
    reveal_with_fuel(bytes::le_bytes, 9);
    assert(cipher::nonce_of(1) =~= Seq::new(12, |i: int| if i == 4 { 1u8 } else { 0u8 }));
}

/// The steps of an XK handshake come in order and from the right side. A step out of order, and a
/// message of the wrong size, change nothing; only a finished handshake gives keys.
pub proof fn law_xk_steps_in_order(m: XkModel, ephemeral: Seq<u8>, message: Seq<u8>)
    ensures
        ({
            let starts = m.role == Role::Initiator;
            let answers = m.role == Role::Responder;
            let (w1, out1) = xk_write_msg1(m, ephemeral);
            let (r1, in1) = xk_read_msg1(m, message);
            let (w2, out2) = xk_write_msg2(m, ephemeral);
            let (r2, in2) = xk_read_msg2(m, message);
            let (w3, out3) = xk_write_msg3(m);
            let (r3, in3) = xk_read_msg3(m, message);
            let size = text::decimal(message.len());
            let wrong1 = !(answers && m.progress == XkProgress::Initial);
            let wrong2 = !(starts && m.progress == XkProgress::Msg1Done);
            let wrong3 = !(answers && m.progress == XkProgress::Msg2Done);
            &&& out1 is Ok <==> starts && m.progress == XkProgress::Initial
            &&& out1 is Err ==> w1 == m && out1->Err_0 == "wrong state for write_msg1"@
            &&& out1 is Ok ==> w1.progress == XkProgress::Msg1Done && w1.ephemeral_secret == Some(
                ephemeral,
            )
            &&& out2 is Ok <==> answers && m.progress == XkProgress::Msg1Done
            &&& out2 is Err ==> w2 == m && out2->Err_0 == "wrong state for write_msg2"@
            &&& out2 is Ok ==> w2.progress == XkProgress::Msg2Done && w2.ephemeral_secret == Some(
                ephemeral,
            )
            &&& out3 is Ok <==> starts && m.progress == XkProgress::Msg2Done
            &&& out3 is Err ==> w3 == m && out3->Err_0 == "wrong state for write_msg3"@
            &&& out3 is Ok ==> w3.progress == XkProgress::Complete
            &&& wrong1 ==> r1 == m && in1 == Err::<(), Seq<char>>("wrong state for read_msg1"@)
            &&& !wrong1 && message.len() != 33 ==> r1 == m && in1 == Err::<(), Seq<char>>(
                "xk msg1 wrong size: expected 33, got "@ + size,
            )
            &&& in1 is Ok ==> r1.progress == XkProgress::Msg1Done
            &&& in1 is Err ==> r1 == m
            &&& wrong2 ==> r2 == m && in2 == Err::<(), Seq<char>>("wrong state for read_msg2"@)
            &&& !wrong2 && message.len() != 57 ==> r2 == m && in2 == Err::<(), Seq<char>>(
                "xk msg2 wrong size: expected 57, got "@ + size,
            )
            &&& in2 is Ok ==> r2.progress == XkProgress::Msg2Done
            &&& in2 is Err ==> r2 == XkModel { symmetric: r2.symmetric, ..m }
            &&& wrong3 ==> r3 == m && in3 == Err::<(), Seq<char>>("wrong state for read_msg3"@)
            &&& !wrong3 && message.len() != 73 ==> r3 == m && in3 == Err::<(), Seq<char>>(
                "xk msg3 wrong size: expected 73, got "@ + size,
            )
            &&& in3 is Ok ==> r3.progress == XkProgress::Complete
            &&& in3 is Err ==> r3.progress == m.progress && r3.remote_epoch == m.remote_epoch
            &&& xk_transport(m) is Ok <==> m.progress == XkProgress::Complete
            &&& m.progress != XkProgress::Complete ==> xk_transport(m)->Err_0
                == "handshake not complete"@
        }),
{
}

/// No step changes who takes part: role, static key and own epoch stay, and a step learns only what
/// its message carries.
pub proof fn law_xk_steps_keep_party(m: XkModel, ephemeral: Seq<u8>, message: Seq<u8>)
    ensures
        ({
            let w1 = xk_write_msg1(m, ephemeral).0;
            let r1 = xk_read_msg1(m, message).0;
            let w2 = xk_write_msg2(m, ephemeral).0;
            let r2 = xk_read_msg2(m, message).0;
            let w3 = xk_write_msg3(m).0;
            let r3 = xk_read_msg3(m, message).0;
            &&& forall|a: XkModel|
                (a == w1 || a == r1 || a == w2 || a == r2 || a == w3 || a == r3)
                    ==> #[trigger] same_party(a, m)
            &&& w1.remote_ephemeral == m.remote_ephemeral && w1.remote_epoch == m.remote_epoch
            &&& w2.remote_ephemeral == m.remote_ephemeral && w2.remote_epoch == m.remote_epoch
            &&& w3.remote_ephemeral == m.remote_ephemeral && w3.remote_epoch == m.remote_epoch
            &&& w3.ephemeral_secret == m.ephemeral_secret
            &&& r1.ephemeral_secret == m.ephemeral_secret && r1.remote_epoch == m.remote_epoch
            &&& r2.ephemeral_secret == m.ephemeral_secret
            &&& r3.ephemeral_secret == m.ephemeral_secret
            &&& r3.remote_ephemeral == m.remote_ephemeral
            &&& w1.remote_static == m.remote_static && w2.remote_static == m.remote_static
            &&& w3.remote_static == m.remote_static && r1.remote_static == m.remote_static
            &&& r2.remote_static == m.remote_static
        }),
{
}

/// Whether two states belong to one party of a handshake.
pub open spec fn same_party(a: XkModel, b: XkModel) -> bool {
    &&& a.role == b.role
    &&& a.static_secret == b.static_secret
    &&& a.local_epoch == b.local_epoch
}

/// The first message is accepted if and only if it is a point. It is hashed as it came, and the
/// secret that it shares with our static key is mixed in.
pub proof fn law_xk_first_is_checked(m: XkModel, message: Seq<u8>)
    requires
        m.role == Role::Responder,
        m.progress == XkProgress::Initial,
        message.len() == 33,
    ensures
        ({
            let (read, r) = xk_read_msg1(m, message);
            let point = crypto::secp256k1_point(message);
            let sx = crypto::secp256k1_public(m.static_secret)@.subrange(1, 33);
            let rex = point->0@.subrange(1, 33);
            let es = crypto::sha256(crypto::secp256k1_shared_x(set![sx, rex])@)@;
            let k = crypto::hkdf_sha256(m.symmetric.ck, es, Seq::empty())@;
            &&& r is Ok <==> point is Some
            &&& r is Err ==> r->Err_0 == "invalid public key: crypto error"@
            &&& r is Ok ==> {
                &&& read.remote_ephemeral == Some(point->0@)
                &&& read.symmetric.h == crypto::sha256(m.symmetric.h + message)@
                &&& read.symmetric.ck == k.subrange(0, 32)
                &&& read.symmetric.cipher.key == Some(k.subrange(32, 64))
                &&& read.symmetric.cipher.nonce == 0
            }
        }),
{
    let point = crypto::secp256k1_point(message);
    if point is Some {
        identity::law_dh_is_hashed_x(m.static_secret, point->0@);
        noise::law_mix_key(
            noise::sym_hashed(m.symmetric, message),
            identity::dh(m.static_secret, point->0@),
        );
    }
}

/// The second message is accepted if and only if its first 33 bytes are a point and its last 16 the
/// tag of the 8 before them, under the key that the handshake so far and the secret shared by the
/// ephemeral keys give; those 8 bytes are then the responder's epoch, under the keystream.
#[verifier::rlimit(40)]
pub proof fn law_xk_second_is_checked(m: XkModel, message: Seq<u8>)
    requires
        m.role == Role::Initiator,
        m.progress == XkProgress::Msg1Done,
        m.ephemeral_secret is Some,
        message.len() == 57,
    ensures
        ({
            let (read, r) = xk_read_msg2(m, message);
            let nonce = Seq::new(12, |i: int| 0u8);
            let none = Seq::<u8>::empty();
            let point = crypto::secp256k1_point(message.subrange(0, 33));
            let ex = crypto::secp256k1_public(m.ephemeral_secret->0)@.subrange(1, 33);
            let rex = point->0@.subrange(1, 33);
            let ee = crypto::sha256(crypto::secp256k1_shared_x(set![ex, rex])@)@;
            let k = crypto::hkdf_sha256(m.symmetric.ck, ee, none)@;
            let key = k.subrange(32, 64);
            let sealed = message.subrange(33, 41);
            &&& r is Ok <==> point is Some && message.subrange(41, 57) == crypto::poly1305_tag(
                key,
                nonce,
                none,
                sealed,
            )@
            &&& point is None ==> read == m && r->Err_0 == "invalid public key: crypto error"@
            &&& point is Some && r is Err ==> r->Err_0 == "decryption failed"@
            &&& r is Ok ==> {
                &&& read.remote_epoch is Some
                &&& read.remote_epoch->0.len() == 8
                &&& forall|i: int|
                    0 <= i < 8 ==> #[trigger] read.remote_epoch->0[i] == message[33 + i]
                        ^ crypto::chacha20_keystream(key, nonce, i)
                &&& read.remote_ephemeral == Some(point->0@)
                &&& read.symmetric.ck == k.subrange(0, 32)
                &&& read.symmetric.cipher.key == Some(key)
                &&& read.symmetric.cipher.nonce == 1
                &&& read.symmetric.h == crypto::sha256(
                    crypto::sha256(m.symmetric.h + message.subrange(0, 33))@ + message.subrange(
                        33,
                        57,
                    ),
                )@
            }
        }),
{
    let nonce = Seq::new(12, |i: int| 0u8);
    let none = Seq::<u8>::empty();
    assert(message.take(33) =~= message.subrange(0, 33));
    assert(message.skip(33) =~= message.subrange(33, 57));
    let point = crypto::secp256k1_point(message.subrange(0, 33));
    if point is Some {
        let e = m.ephemeral_secret->0;
        let re = point->0@;
        identity::law_dh_is_hashed_x(e, re);
        let s0 = noise::sym_hashed(m.symmetric, message.subrange(0, 33));
        noise::law_mix_key(s0, identity::dh(e, re));
        let s1 = noise::sym_keyed(s0, identity::dh(e, re));
        let field = message.subrange(33, 57);
        noise::law_fields_are_hashed(s1, field);
        cipher::law_opening_in_order(s1.cipher, field);
        cipher::law_opening_checks_the_tag(s1.cipher.key->0, 0, 0, nonce, none, field);
        assert(field.skip(8) =~= message.subrange(41, 57));
        assert(field.take(8) =~= message.subrange(33, 41));
        assert(forall|i: int| 0 <= i < 8 ==> #[trigger] field[i] == message[33 + i]);
    }
}

/// The third message is accepted if and only if bytes 33 to 48 are the tag of the 33 before them
/// under the key so far, what those 33 open to is a point, and the last 16 bytes are the tag of
/// the 8 before them under the key that mixing in the secret of that point and our ephemeral key
/// gives. The point is the initiator's static key, the 8 bytes its epoch, both under the keystream.
#[verifier::rlimit(60)]
pub proof fn law_xk_third_is_checked(m: XkModel, message: Seq<u8>, s: Seq<u8>)
    requires
        m.role == Role::Responder,
        m.progress == XkProgress::Msg2Done,
        m.ephemeral_secret is Some,
        m.symmetric.cipher.key is Some,
        m.symmetric.cipher.nonce == 1,
        message.len() == 73,
        s.len() == 33,
        forall|i: int|
            0 <= i < 33 ==> #[trigger] s[i] == message[i] ^ crypto::chacha20_keystream(
                m.symmetric.cipher.key->0,
                Seq::new(12, |j: int| if j == 4 { 1u8 } else { 0u8 }),
                i,
            ),
    ensures
        ({
            let (read, r) = xk_read_msg3(m, message);
            let first = Seq::new(12, |i: int| 0u8);
            let second = Seq::new(12, |i: int| if i == 4 { 1u8 } else { 0u8 });
            let none = Seq::<u8>::empty();
            let tagged = message.subrange(33, 49) == crypto::poly1305_tag(
                m.symmetric.cipher.key->0,
                second,
                none,
                message.subrange(0, 33),
            )@;
            let point = crypto::secp256k1_point(s);
            let rex = crypto::secp256k1_public(m.ephemeral_secret->0)@.subrange(1, 33);
            let sx = point->0@.subrange(1, 33);
            let se = crypto::sha256(crypto::secp256k1_shared_x(set![rex, sx])@)@;
            let k = crypto::hkdf_sha256(m.symmetric.ck, se, none)@;
            let key = k.subrange(32, 64);
            &&& r is Ok <==> tagged && point is Some && message.subrange(57, 73)
                == crypto::poly1305_tag(key, first, none, message.subrange(49, 57))@
            &&& !tagged ==> r->Err_0 == "decryption failed"@
            &&& tagged && point is None ==> r->Err_0 == "invalid public key: crypto error"@
            &&& tagged && point is Some && r is Err ==> r->Err_0 == "decryption failed"@
            &&& r is Ok ==> {
                &&& read.remote_static == Some(point->0@)
                &&& read.remote_epoch is Some
                &&& read.remote_epoch->0.len() == 8
                &&& forall|i: int|
                    0 <= i < 8 ==> #[trigger] read.remote_epoch->0[i] == message[49 + i]
                        ^ crypto::chacha20_keystream(key, first, i)
                &&& read.symmetric.ck == k.subrange(0, 32)
                &&& read.symmetric.h == crypto::sha256(
                    crypto::sha256(m.symmetric.h + message.subrange(0, 49))@ + message.subrange(
                        49,
                        73,
                    ),
                )@
            }
        }),
{
    let first = Seq::new(12, |i: int| 0u8);
    let second = Seq::new(12, |i: int| if i == 4 { 1u8 } else { 0u8 });
    let none = Seq::<u8>::empty();
    let field_s = message.subrange(0, 49);
    let field = message.subrange(49, 73);
    assert(message.take(49) =~= field_s);
    assert(message.skip(49) =~= field);
    noise::law_fields_are_hashed(m.symmetric, field_s);
    cipher::law_opening_in_order(m.symmetric.cipher, field_s);
    cipher::law_opening_checks_the_tag(m.symmetric.cipher.key->0, 1, 1, second, none, field_s);
    assert(field_s.skip(33) =~= message.subrange(33, 49));
    assert(field_s.take(33) =~= message.subrange(0, 33));
    let (s1, opened) = noise::sym_decrypted(m.symmetric, field_s);
    if opened is Ok {
        assert(opened->Ok_0 =~= s) by {
            assert forall|i: int| 0 <= i < 33 implies #[trigger] opened->Ok_0[i] == s[i] by {
                assert(field_s[i] == message[i]);
            }
        }
        let point = crypto::secp256k1_point(s);
        if point is Some {
            let e = m.ephemeral_secret->0;
            identity::law_dh_is_hashed_x(e, point->0@);
            noise::law_mix_key(s1, identity::dh(e, point->0@));
            let s2 = noise::sym_keyed(s1, identity::dh(e, point->0@));
            noise::law_fields_are_hashed(s2, field);
            cipher::law_opening_in_order(s2.cipher, field);
            cipher::law_opening_checks_the_tag(s2.cipher.key->0, 0, 0, first, none, field);
            assert(field.skip(8) =~= message.subrange(57, 73));
            assert(field.take(8) =~= message.subrange(49, 57));
            assert(forall|i: int| 0 <= i < 8 ==> #[trigger] field[i] == message[49 + i]);
        }
    }
}

} // verus!
