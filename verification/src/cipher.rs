//! Symmetric cipher state for the Noise protocol: ChaCha20-Poly1305 with a counter nonce.

use crate::bytes;
use crate::crypto;
use crate::crypto::AEAD_MAX_MESSAGE;
use crate::text;
use vstd::prelude::*;

verus! {

/// AEAD tag size.
pub const TAG_SIZE: usize = 16;

/// A cipher state: its key, if it has one yet, and the counter of the next message.
#[verifier::ext_equal]
pub struct CipherModel {
    pub key: Option<Seq<u8>>,
    pub nonce: nat,
}

/// The 96-bit nonce of a counter: four zero bytes, then the counter in little-endian order.
pub open spec fn nonce_of(counter: nat) -> Seq<u8> {
    seq![0u8, 0u8, 0u8, 0u8] + bytes::le_bytes(counter, 8)
}

/// A cipher state with a key that has sealed nothing yet.
pub open spec fn cipher_with_key(key: Seq<u8>) -> CipherModel {
    CipherModel { key: Some(key), nonce: 0 }
}

/// A cipher state without a key.
pub open spec fn cipher_empty() -> CipherModel {
    CipherModel { key: None, nonce: 0 }
}

/// Sealing a message. Without a key it passes unchanged. With one, each message takes the next
/// counter as its nonce, and the last counter is never used.
pub open spec fn cipher_sealed(m: CipherModel, aad: Seq<u8>, plaintext: Seq<u8>) -> (
    CipherModel,
    Result<Seq<u8>, Seq<char>>,
) {
    match m.key {
        None => (m, Ok(plaintext)),
        Some(key) => if m.nonce == u64::MAX {
            (m, Err("nonce overflow"@))
        } else if plaintext.len() > AEAD_MAX_MESSAGE {
            (CipherModel { nonce: m.nonce + 1, ..m }, Err("encryption failed"@))
        } else {
            (
                CipherModel { nonce: m.nonce + 1, ..m },
                Ok(crypto::sealed(key, nonce_of(m.nonce), aad, plaintext)),
            )
        },
    }
}

/// Opening a message under a given key and counter.
pub open spec fn message_opened(key: Seq<u8>, counter: nat, aad: Seq<u8>, ciphertext: Seq<u8>) -> Result<
    Seq<u8>,
    Seq<char>,
> {
    if ciphertext.len() > AEAD_MAX_MESSAGE + TAG_SIZE {
        Err("decryption failed"@)
    } else {
        match crypto::opened(key, nonce_of(counter), aad, ciphertext) {
            Some(plaintext) => Ok(plaintext),
            None => Err("decryption failed"@),
        }
    }
}

/// Opening the next message in order, without associated data.
pub open spec fn cipher_opened(m: CipherModel, ciphertext: Seq<u8>) -> (
    CipherModel,
    Result<Seq<u8>, Seq<char>>,
) {
    match m.key {
        None => (m, Ok(ciphertext)),
        Some(key) => if ciphertext.len() < TAG_SIZE {
            (m, Err("ciphertext too short"@))
        } else if m.nonce == u64::MAX {
            (m, Err("nonce overflow"@))
        } else {
            (
                CipherModel { nonce: m.nonce + 1, ..m },
                message_opened(key, m.nonce, Seq::empty(), ciphertext),
            )
        },
    }
}

/// Opening a message that carries its own counter.
pub open spec fn cipher_opened_at(
    m: CipherModel,
    counter: nat,
    aad: Seq<u8>,
    ciphertext: Seq<u8>,
) -> Result<Seq<u8>, Seq<char>> {
    match m.key {
        None => Ok(ciphertext),
        Some(key) => if ciphertext.len() < TAG_SIZE {
            Err("ciphertext too short"@)
        } else {
            message_opened(key, counter, aad, ciphertext)
        },
    }
}

/// Symmetric cipher state for post-handshake encryption.
#[derive(Clone, Copy)]
pub struct CipherState {
    key: [u8; 32],
    nonce: u64,
    has_key: bool,
}

impl View for CipherState {
    type V = CipherModel;

    closed spec fn view(&self) -> CipherModel {
        CipherModel {
            key: if self.has_key {
                Some(self.key@)
            } else {
                None
            },
            nonce: self.nonce as nat,
        }
    }
}

/// The 12 nonce bytes of a counter.
fn nonce_array(counter: u64) -> (r: [u8; 12])
    ensures
        r@ == nonce_of(counter as nat),
{
    let mut r: [u8; 12] = [0u8; 12];
    let mut rest: u64 = counter;
    let mut i: usize = 4;
    proof {
        bytes::lemma_le_bytes_len(counter as nat, 8);
    }
    while i < 12
        invariant
            4 <= i <= 12,
            forall|j: int| 0 <= j < 4 ==> r@[j] == 0,
            r@.subrange(4, i as int) + bytes::le_bytes(rest as nat, (12 - i) as nat) == bytes::le_bytes(
                counter as nat,
                8,
            ),
        decreases 12 - i,
    {
        let ghost before = r@;
        r[i] = (rest % 256) as u8;
        proof {
            let tail = bytes::le_bytes((rest / 256) as nat, (11 - i) as nat);
            assert(bytes::le_bytes(rest as nat, (12 - i) as nat) == seq![(rest % 256) as u8] + tail);
            assert(r@.subrange(4, i + 1) + tail =~= before.subrange(4, i as int) + (seq![
                (rest % 256) as u8,
            ] + tail));
        }
        rest = rest / 256;
        i = i + 1;
    }
    assert(r@.subrange(4, 12) + bytes::le_bytes(rest as nat, 0) =~= r@.subrange(4, 12));
    assert(r@ =~= nonce_of(counter as nat));
    r
}

impl CipherState {
    /// Create with a key.
    pub fn new(key: [u8; 32]) -> (r: Self)
        ensures
            r@ == cipher_with_key(key@),
    {
        Self { key, nonce: 0, has_key: true }
    }

    /// Create empty (no key yet, used while a handshake starts).
    pub fn empty() -> (r: Self)
        ensures
            r@ == cipher_empty(),
    {
        Self { key: [0u8; 32], nonce: 0, has_key: false }
    }

    /// Set the key; counting starts over.
    pub fn initialize_key(&mut self, key: [u8; 32])
        ensures
            final(self)@ == cipher_with_key(key@),
    {
        self.key = key;
        self.nonce = 0;
        self.has_key = true;
    }

    /// Encrypt plaintext, returning ciphertext and 16-byte tag.
    pub fn encrypt(&mut self, plaintext: &[u8]) -> (r: Result<Vec<u8>, String>)
        ensures
            final(self)@ == cipher_sealed(old(self)@, Seq::empty(), plaintext@).0,
            text::bytes_result(r) == cipher_sealed(old(self)@, Seq::empty(), plaintext@).1,
    {
        let no_aad: [u8; 0] = [];
        assert(no_aad@ =~= Seq::<u8>::empty());
        self.encrypt_with_aad(plaintext, &no_aad)
    }

    /// Decrypt ciphertext (with appended tag).
    pub fn decrypt(&mut self, ciphertext: &[u8]) -> (r: Result<Vec<u8>, String>)
        ensures
            final(self)@ == cipher_opened(old(self)@, ciphertext@).0,
            text::bytes_result(r) == cipher_opened(old(self)@, ciphertext@).1,
    {
        if !self.has_key {
            return Ok(bytes::to_vec(ciphertext));
        }
        if ciphertext.len() < TAG_SIZE {
            return Err("ciphertext too short".to_string());
        }
        let counter: u64 = self.nonce;
        if !self.advance() {
            return Err("nonce overflow".to_string());
        }
        let no_aad: [u8; 0] = [];
        assert(no_aad@ =~= Seq::<u8>::empty());
        self.decrypt_with_counter_and_aad(ciphertext, counter, &no_aad)
    }

    /// Encrypt with additional authenticated data.
    pub fn encrypt_with_aad(&mut self, plaintext: &[u8], aad: &[u8]) -> (r: Result<Vec<u8>, String>)
        ensures
            final(self)@ == cipher_sealed(old(self)@, aad@, plaintext@).0,
            text::bytes_result(r) == cipher_sealed(old(self)@, aad@, plaintext@).1,
    {
        if !self.has_key {
            return Ok(bytes::to_vec(plaintext));
        }
        let counter: u64 = self.nonce;
        if !self.advance() {
            return Err("nonce overflow".to_string());
        }
        if plaintext.len() as u64 > AEAD_MAX_MESSAGE {
            return Err("encryption failed".to_string());
        }
        let nonce = nonce_array(counter);
        match crypto::aead_seal(&self.key, &nonce, aad, plaintext) {
            Some(message) => {
                proof {
                    let n = plaintext@.len() as int;
                    let text = crypto::keystream_applied(self.key@, nonce@, plaintext@);
                    assert(message@.take(n) =~= text);
                    assert(message@ =~= message@.take(n) + message@.skip(n));
                }
                Ok(message)
            },
            None => Err("encryption failed".to_string()),
        }
    }

    /// Decrypt with explicit counter and additional authenticated data (transport phase).
    pub fn decrypt_with_counter_and_aad(&self, ciphertext: &[u8], counter: u64, aad: &[u8]) -> (r:
        Result<Vec<u8>, String>)
        ensures
            text::bytes_result(r) == cipher_opened_at(self@, counter as nat, aad@, ciphertext@),
    {
        if !self.has_key {
            return Ok(bytes::to_vec(ciphertext));
        }
        if ciphertext.len() < TAG_SIZE {
            return Err("ciphertext too short".to_string());
        }
        if ciphertext.len() as u64 > AEAD_MAX_MESSAGE + TAG_SIZE as u64 {
            return Err("decryption failed".to_string());
        }
        let nonce = nonce_array(counter);
        match crypto::aead_open(&self.key, &nonce, aad, ciphertext) {
            Some(plaintext) => {
                proof {
                    let n = ciphertext@.len() - 16;
                    assert(plaintext@ =~= crypto::keystream_applied(
                        self.key@,
                        nonce@,
                        ciphertext@.take(n),
                    ));
                }
                Ok(plaintext)
            },
            None => Err("decryption failed".to_string()),
        }
    }

    /// Takes the next counter, unless it is the last one.
    fn advance(&mut self) -> (r: bool)
        ensures
            final(self).key == old(self).key,
            final(self).has_key == old(self).has_key,
            r == (old(self).nonce != u64::MAX),
            final(self).nonce == (if r {
                old(self).nonce + 1
            } else {
                old(self).nonce as int
            }),
    {
        if self.nonce == u64::MAX {
            return false;
        }
        self.nonce = self.nonce + 1;
        true
    }

    /// The counter that the next sealed message takes.
    pub fn nonce(&self) -> (r: u64)
        ensures
            r == self@.nonce,
    {
        self.nonce
    }
}

/// Different counters give different nonces.
pub proof fn law_nonces_differ(a: u64, b: u64)
    requires
        a != b,
    ensures
        nonce_of(a as nat) != nonce_of(b as nat),
{
    bytes::lemma_pow256_values();
    bytes::lemma_le_round_trip(a as nat, 8);
    bytes::lemma_le_round_trip(b as nat, 8);
    if nonce_of(a as nat) == nonce_of(b as nat) {
        assert(bytes::le_bytes(a as nat, 8) =~= nonce_of(a as nat).skip(4));
        assert(bytes::le_bytes(b as nat, 8) =~= nonce_of(b as nat).skip(4));
    }
}

/// A keyed state never uses a counter twice: whatever is sealed, the counter used lies below the
/// one that comes next, and the key stays.
pub proof fn law_counter_advances(m: CipherModel, aad: Seq<u8>, plaintext: Seq<u8>)
    requires
        m.key is Some,
    ensures
        cipher_sealed(m, aad, plaintext).1 is Ok ==> cipher_sealed(m, aad, plaintext).0.nonce
            == m.nonce + 1,
        cipher_sealed(m, aad, plaintext).0.nonce >= m.nonce,
        cipher_sealed(m, aad, plaintext).0.key == m.key,
{
}

/// The last counter value is never spent: a state that has reached it refuses to seal.
pub proof fn law_no_counter_left(m: CipherModel, aad: Seq<u8>, plaintext: Seq<u8>)
    requires
        m.key is Some,
        m.nonce == u64::MAX,
    ensures
        cipher_sealed(m, aad, plaintext) == (m, Err::<Seq<u8>, Seq<char>>("nonce overflow"@)),
{
}

/// What one side seals, a side with the same key opens under the counter it was sealed with.
pub proof fn law_sealed_opens(
    sender: CipherModel,
    receiver: CipherModel,
    aad: Seq<u8>,
    plaintext: Seq<u8>,
)
    requires
        sender.key == receiver.key,
        cipher_sealed(sender, aad, plaintext).1 is Ok,
    ensures
        cipher_opened_at(receiver, sender.nonce, aad, cipher_sealed(sender, aad, plaintext).1->Ok_0)
            == Ok::<Seq<u8>, Seq<char>>(plaintext),
{
    if let Some(key) = sender.key {
        crypto::law_open_after_seal(key, nonce_of(sender.nonce), aad, plaintext);
    }
}

/// The same for messages opened in the order in which they were sealed.
pub proof fn law_sealed_opens_in_order(
    sender: CipherModel,
    receiver: CipherModel,
    plaintext: Seq<u8>,
)
    requires
        sender == receiver,
        cipher_sealed(sender, Seq::empty(), plaintext).1 is Ok,
    ensures
        ({
            let (after, sealed) = cipher_sealed(sender, Seq::empty(), plaintext);
            cipher_opened(receiver, sealed->Ok_0) == (after, Ok::<Seq<u8>, Seq<char>>(plaintext))
        }),
{
    if let Some(key) = sender.key {
        crypto::law_open_after_seal(key, nonce_of(sender.nonce), Seq::empty(), plaintext);
    }
}

/// Whether twelve bytes are the nonce of a counter: four zeros, then eight bytes of which the first
/// weighs 1, the second 256 and so on.
pub open spec fn spells_counter(nonce: Seq<u8>, counter: nat) -> bool {
    &&& nonce.len() == 12
    &&& nonce[0] == 0 && nonce[1] == 0 && nonce[2] == 0 && nonce[3] == 0
    &&& counter == nonce[4] + 0x100 * nonce[5] + 0x1_0000 * nonce[6] + 0x100_0000 * nonce[7]
        + 0x1_0000_0000 * nonce[8] + 0x100_0000_0000 * nonce[9] + 0x1_0000_0000_0000 * nonce[10]
        + 0x100_0000_0000_0000 * nonce[11]
}

proof fn lemma_nonce_spelled(nonce: Seq<u8>, counter: nat)
    requires
        spells_counter(nonce, counter),
    ensures
        nonce == nonce_of(counter),
{
    bytes::law_le_value_weighs_bytes(nonce.skip(4));
    bytes::lemma_le_bytes_of_value(nonce.skip(4));
    assert(nonce =~= seq![0u8, 0u8, 0u8, 0u8] + nonce.skip(4));
}

/// A message sealed under a key is, byte by byte, the plaintext under the keystream of that key
/// and of the counter, with the tag over it and the associated data behind it. The counter is
/// spent and the key stays.
pub proof fn law_sealing_is_chacha20_poly1305(
    key: Seq<u8>,
    counter: nat,
    nonce: Seq<u8>,
    aad: Seq<u8>,
    plaintext: Seq<u8>,
)
    requires
        counter < u64::MAX,
        spells_counter(nonce, counter),
        plaintext.len() <= AEAD_MAX_MESSAGE,
    ensures
        ({
            let (after, r) = cipher_sealed(
                CipherModel { key: Some(key), nonce: counter },
                aad,
                plaintext,
            );
            let n = plaintext.len() as int;
            let c = r->Ok_0;
            &&& r is Ok
            &&& c.len() == n + 16
            &&& forall|i: int|
                0 <= i < n ==> #[trigger] c[i] == plaintext[i] ^ crypto::chacha20_keystream(
                    key,
                    nonce,
                    i,
                )
            &&& c.skip(n) == crypto::poly1305_tag(key, nonce, aad, c.take(n))@
            &&& after.key == Some(key)
            &&& after.nonce == counter + 1
        }),
{
    lemma_nonce_spelled(nonce, counter);
    let c = crypto::sealed(key, nonce, aad, plaintext);
    let n = plaintext.len() as int;
    assert(c.take(n) =~= crypto::keystream_applied(key, nonce, plaintext));
    assert(c.skip(n) =~= crypto::poly1305_tag(
        key,
        nonce,
        aad,
        crypto::keystream_applied(key, nonce, plaintext),
    )@);
}

/// A message opens under a key and a counter if and only if its last 16 bytes are the tag of what
/// stands before them and of the associated data; what it opens to is, byte by byte, the
/// ciphertext under the keystream.
pub proof fn law_opening_checks_the_tag(
    key: Seq<u8>,
    own: nat,
    counter: nat,
    nonce: Seq<u8>,
    aad: Seq<u8>,
    message: Seq<u8>,
)
    requires
        spells_counter(nonce, counter),
        message.len() <= AEAD_MAX_MESSAGE + 16,
    ensures
        ({
            let r = cipher_opened_at(
                CipherModel { key: Some(key), nonce: own },
                counter,
                aad,
                message,
            );
            let n = message.len() - 16;
            &&& r is Ok <==> n >= 0 && message.skip(n) == crypto::poly1305_tag(
                key,
                nonce,
                aad,
                message.take(n),
            )@
            &&& r is Ok ==> r->Ok_0.len() == n
            &&& r is Ok ==> forall|i: int|
                0 <= i < n ==> #[trigger] r->Ok_0[i] == message[i] ^ crypto::chacha20_keystream(
                    key,
                    nonce,
                    i,
                )
            &&& r is Err ==> r->Err_0 == if n < 0 {
                "ciphertext too short"@
            } else {
                "decryption failed"@
            }
        }),
{
    lemma_nonce_spelled(nonce, counter);
}

/// Messages opened in order take their own counter, without associated data, and spend it whether
/// they open or not. Too short a message spends none, and the last counter is never used.
pub proof fn law_opening_in_order(m: CipherModel, message: Seq<u8>)
    requires
        m.key is Some,
    ensures
        ({
            let (after, r) = cipher_opened(m, message);
            &&& after.key == m.key
            &&& message.len() < 16 ==> after.nonce == m.nonce && r is Err
            &&& message.len() >= 16 && m.nonce == u64::MAX ==> after.nonce == m.nonce && r
                == Err::<Seq<u8>, Seq<char>>("nonce overflow"@)
            &&& message.len() >= 16 && m.nonce != u64::MAX ==> after.nonce == m.nonce + 1 && r
                == cipher_opened_at(m, m.nonce, Seq::empty(), message)
        }),
{
}

/// Without a key, nothing is sealed and nothing is checked.
pub proof fn law_no_key_no_cipher(m: CipherModel, counter: nat, aad: Seq<u8>, data: Seq<u8>)
    requires
        m.key is None,
    ensures
        cipher_sealed(m, aad, data) == (m, Ok::<Seq<u8>, Seq<char>>(data)),
        cipher_opened(m, data) == (m, Ok::<Seq<u8>, Seq<char>>(data)),
        cipher_opened_at(m, counter, aad, data) == Ok::<Seq<u8>, Seq<char>>(data),
{
}

} // verus!
