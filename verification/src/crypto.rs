//! The cryptographic functions that this library takes from other crates.
//!
//! Everything here is believed, not proved. Each function states what its crate computes: where
//! that is short it is spelled out, and where it is a whole algorithm the result has a name.

use crate::bytes;
use crate::text;
use bech32::{Bech32, Hrp};
use chacha20poly1305::aead::{Aead, KeyInit, Payload};
use chacha20poly1305::{ChaCha20Poly1305, Nonce};
use hkdf::Hkdf;
use k256::ecdsa::signature::hazmat::PrehashSigner;
use k256::elliptic_curve::sec1::ToEncodedPoint;
use sha2::{Digest, Sha256};
use vstd::prelude::*;

verus! {

// ============================================================================
// Hashing and key derivation
// ============================================================================

/// The SHA-256 digest of `data`.
pub uninterp spec fn sha256(data: Seq<u8>) -> [u8; 32];

/// `sha2::Sha256::digest`: its result is a function of the input alone, named [`sha256`].
#[verifier::external_body]
pub(crate) fn sha256_digest(data: &[u8]) -> (r: [u8; 32])
    ensures
        r == sha256(data@),
{
    Sha256::digest(data).into()
}

/// The first 64 bytes of HKDF-SHA256 output for a salt, key material and info string.
pub uninterp spec fn hkdf_sha256(salt: Seq<u8>, ikm: Seq<u8>, info: Seq<u8>) -> [u8; 64];

/// `hkdf::Hkdf::<Sha256>::new` followed by `expand` to 64 bytes. `expand` refuses only outputs
/// over 255 hash lengths, so 64 bytes always come out; they are named [`hkdf_sha256`].
#[verifier::external_body]
pub(crate) fn hkdf_expand(salt: &[u8], ikm: &[u8], info: &[u8]) -> (r: [u8; 64])
    ensures
        r == hkdf_sha256(salt@, ikm@, info@),
{
    let mut output = [0u8; 64];
    Hkdf::<Sha256>::new(Some(salt), ikm).expand(info, &mut output).expect("64 bytes fit");
    output
}

// ============================================================================
// ChaCha20-Poly1305
// ============================================================================

/// The longest message one nonce can seal: the keystream has `2^32 - 2` blocks of 64 bytes left
/// once the authentication key is drawn from it.
pub const AEAD_MAX_MESSAGE: u64 = 274_877_906_816;

/// Byte `i` of the ChaCha20 keystream that ChaCha20-Poly1305 applies to a message.
pub uninterp spec fn chacha20_keystream(key: Seq<u8>, nonce: Seq<u8>, i: int) -> u8;

/// The Poly1305 tag that ChaCha20-Poly1305 puts on a ciphertext and its associated data.
pub uninterp spec fn poly1305_tag(
    key: Seq<u8>,
    nonce: Seq<u8>,
    aad: Seq<u8>,
    ciphertext: Seq<u8>,
) -> [u8; 16];

/// A text with the keystream applied to it, which both encrypts and decrypts.
pub open spec fn keystream_applied(key: Seq<u8>, nonce: Seq<u8>, text: Seq<u8>) -> Seq<u8> {
    Seq::new(text.len(), |i: int| text[i] ^ chacha20_keystream(key, nonce, i))
}

/// A sealed message: the ciphertext with its tag appended.
pub open spec fn sealed(key: Seq<u8>, nonce: Seq<u8>, aad: Seq<u8>, plaintext: Seq<u8>) -> Seq<
    u8,
> {
    let ciphertext = keystream_applied(key, nonce, plaintext);
    ciphertext + poly1305_tag(key, nonce, aad, ciphertext)@
}

/// What a sealed message opens to: the plaintext if the tag fits, else nothing.
pub open spec fn opened(key: Seq<u8>, nonce: Seq<u8>, aad: Seq<u8>, message: Seq<u8>) -> Option<
    Seq<u8>,
> {
    if message.len() < 16 {
        None
    } else {
        let n = message.len() - 16;
        let ciphertext = message.take(n);
        if poly1305_tag(key, nonce, aad, ciphertext)@ == message.skip(n) {
            Some(keystream_applied(key, nonce, ciphertext))
        } else {
            None
        }
    }
}

/// `ChaCha20Poly1305::encrypt` with associated data: the message is XORed with the keystream and
/// the tag of the ciphertext is appended. Within [`AEAD_MAX_MESSAGE`] it does not fail.
#[verifier::external_body]
pub(crate) fn aead_seal(key: &[u8; 32], nonce: &[u8; 12], aad: &[u8], plaintext: &[u8]) -> (r:
    Option<Vec<u8>>)
    requires
        plaintext@.len() <= AEAD_MAX_MESSAGE,
    ensures
        r is Some,
        r->0@.len() == plaintext@.len() + 16,
        forall|i: int|
            0 <= i < plaintext@.len() ==> #[trigger] r->0@[i] == plaintext@[i] ^ chacha20_keystream(
                key@,
                nonce@,
                i,
            ),
        r->0@.skip(plaintext@.len() as int) == poly1305_tag(
            key@,
            nonce@,
            aad@,
            r->0@.take(plaintext@.len() as int),
        )@,
{
    let cipher = ChaCha20Poly1305::new(key.into());
    cipher.encrypt(Nonce::from_slice(nonce), Payload { msg: plaintext, aad }).ok()
}

/// `ChaCha20Poly1305::decrypt` with associated data: it compares the last 16 bytes with the tag
/// of what stands before them, and hands out the decrypted text only if they agree.
#[verifier::external_body]
pub(crate) fn aead_open(key: &[u8; 32], nonce: &[u8; 12], aad: &[u8], message: &[u8]) -> (r: Option<
    Vec<u8>,
>)
    requires
        message@.len() <= AEAD_MAX_MESSAGE + 16,
    ensures
        (r is Some) == (message@.len() >= 16 && message@.skip(message@.len() - 16) == poly1305_tag(
            key@,
            nonce@,
            aad@,
            message@.take(message@.len() - 16),
        )@),
        r matches Some(p) ==> p@.len() == message@.len() - 16,
        r matches Some(p) ==> forall|i: int|
            0 <= i < p@.len() ==> #[trigger] p@[i] == message@[i] ^ chacha20_keystream(
                key@,
                nonce@,
                i,
            ),
{
    let cipher = ChaCha20Poly1305::new(key.into());
    cipher.decrypt(Nonce::from_slice(nonce), Payload { msg: message, aad }).ok()
}

/// Opening a sealed message under the same key, nonce and associated data gives the plaintext.
pub proof fn law_open_after_seal(key: Seq<u8>, nonce: Seq<u8>, aad: Seq<u8>, plaintext: Seq<u8>)
    ensures
        opened(key, nonce, aad, sealed(key, nonce, aad, plaintext)) == Some(plaintext),
{
    let ciphertext = keystream_applied(key, nonce, plaintext);
    let message = sealed(key, nonce, aad, plaintext);
    assert(message.take(message.len() - 16) =~= ciphertext);
    assert(message.skip(message.len() - 16) =~= poly1305_tag(key, nonce, aad, ciphertext)@);
    assert forall|i: int| 0 <= i < plaintext.len() implies #[trigger] keystream_applied(
        key,
        nonce,
        ciphertext,
    )[i] == plaintext[i] by {
        let a = plaintext[i];
        let b = chacha20_keystream(key, nonce, i);
        assert((a ^ b) ^ b == a) by (bit_vector);
    }
    assert(keystream_applied(key, nonce, ciphertext) =~= plaintext);
}

// ============================================================================
// secp256k1
// ============================================================================

/// The order of the secp256k1 group.
pub open spec fn secp256k1_order() -> nat {
    0xffffffff_ffffffff_ffffffff_fffffffe_baaedce6_af48a03b_bfd25e8c_d0364141nat
}

/// Whether 32 bytes are a secret key: a big-endian number from 1 to the group order, exclusive.
pub open spec fn is_secret(data: Seq<u8>) -> bool {
    data.len() == 32 && 0 < bytes::be_value(data) < secp256k1_order()
}

/// The compressed SEC1 encoding of a secret key's public key.
pub uninterp spec fn secp256k1_public(secret: Seq<u8>) -> [u8; 33];

/// The point that a SEC1 encoding names, in compressed form, if it names one.
pub uninterp spec fn secp256k1_point(bytes: Seq<u8>) -> Option<[u8; 33]>;

/// The x-coordinate of the Diffie-Hellman point of two keys, given by the x-coordinates of their
/// public keys in either order.
pub uninterp spec fn secp256k1_shared_x(keys: Set<Seq<u8>>) -> [u8; 32];

/// The BIP-340 signature of a secret key on a message, with all-zero auxiliary data.
pub uninterp spec fn bip340_signature(secret: Seq<u8>, message: Seq<u8>) -> Option<[u8; 64]>;

/// Whether 33 bytes are the compressed encoding of a point.
pub open spec fn is_point(bytes: Seq<u8>) -> bool {
    &&& bytes.len() == 33
    &&& bytes[0] == 2 || bytes[0] == 3
    &&& secp256k1_point(bytes) matches Some(p)
    &&& p@ == bytes
}

/// `k256::SecretKey::from_slice` on 32 bytes: it takes the numbers from 1 to the group order,
/// exclusive, and refuses the others.
#[verifier::external_body]
pub(crate) fn secret_accepted(bytes: &[u8; 32]) -> (r: bool)
    ensures
        r == is_secret(bytes@),
{
    k256::SecretKey::from_slice(bytes).is_ok()
}

/// `k256::SecretKey::random` over the operating system's generator: some secret key. Where the
/// system has no randomness to give, it panics.
#[verifier::external_body]
pub(crate) fn fresh_secret() -> (r: [u8; 32])
    ensures
        is_secret(r@),
{
    k256::SecretKey::random(&mut rand_core::OsRng).to_bytes().into()
}

/// `k256::SecretKey::public_key`, encoded in compressed form. The encoding names a point, and so
/// does the encoding with the same x-coordinate and even parity.
#[verifier::external_body]
pub(crate) fn public_of_secret(secret: &[u8; 32]) -> (r: [u8; 33])
    requires
        is_secret(secret@),
    ensures
        r == secp256k1_public(secret@),
        is_point(r@),
        is_point(seq![2u8] + r@.skip(1)),
{
    let key = k256::SecretKey::from_slice(secret).expect("a secret key");
    key.public_key().to_encoded_point(true).as_bytes().try_into().expect("33 bytes")
}

/// `k256::PublicKey::from_sec1_bytes`, handed back in compressed form. Of 33 input bytes the
/// result keeps the 32 of the x-coordinate; a compressed encoding comes back as it went in.
#[verifier::external_body]
pub(crate) fn point_of_bytes(bytes: &[u8]) -> (r: Option<[u8; 33]>)
    ensures
        r == secp256k1_point(bytes@),
        r matches Some(p) ==> is_point(p@),
        r matches Some(p) ==> is_point(seq![2u8] + p@.skip(1)),
        r is Some && bytes@.len() == 33 ==> r->0@.skip(1) == bytes@.skip(1),
        r is Some && bytes@.len() == 33 && (bytes@[0] == 2 || bytes@[0] == 3) ==> r->0@ == bytes@,
{
    let key = k256::PublicKey::from_sec1_bytes(bytes).ok()?;
    Some(key.to_encoded_point(true).as_bytes().try_into().expect("33 bytes"))
}

/// The point `public * secret` by `k256`'s scalar multiplication, as its x-coordinate. Neither
/// factor is zero, so the product is not the point at infinity. Multiplication commutes and
/// negating a factor only negates the product, so the x-coordinate depends on nothing but the
/// two public x-coordinates.
#[verifier::external_body]
pub(crate) fn shared_x(secret: &[u8; 32], public: &[u8; 33]) -> (r: [u8; 32])
    requires
        is_secret(secret@),
        is_point(public@),
    ensures
        r == secp256k1_shared_x(set![secp256k1_public(secret@)@.skip(1), public@.skip(1)]),
{
    let key = k256::SecretKey::from_slice(secret).expect("a secret key");
    let point = k256::PublicKey::from_sec1_bytes(public).expect("a point");
    let product = (*point.as_affine() * *key.to_nonzero_scalar()).to_affine();
    let encoded = product.to_encoded_point(false);
    encoded.x().copied().expect("not the point at infinity").into()
}

/// `k256::schnorr::SigningKey::sign_prehash`: a BIP-340 signature with all-zero auxiliary data,
/// so that key and message decide it. It fails only where a derived scalar is zero or too large.
#[verifier::external_body]
pub(crate) fn schnorr_sign(secret: &[u8; 32], message: &[u8; 32]) -> (r: Option<[u8; 64]>)
    requires
        is_secret(secret@),
    ensures
        r == bip340_signature(secret@, message@),
{
    let key = k256::SecretKey::from_slice(secret).expect("a secret key");
    let signature = k256::schnorr::SigningKey::from(key).sign_prehash(message).ok()?;
    Some(signature.to_bytes())
}

// ============================================================================
// Randomness
// ============================================================================

/// `getrandom::getrandom`: `n` bytes, or the text of its error. Nothing is known of either.
#[verifier::external_body]
pub(crate) fn random_bytes(n: usize) -> (r: Result<Vec<u8>, String>)
    ensures
        r matches Ok(v) ==> v@.len() == n,
{
    let mut v = vec![0u8; n];
    getrandom::getrandom(&mut v).map_err(|e| e.to_string())?;
    Ok(v)
}

// ============================================================================
// Bech32 and hexadecimal text
// ============================================================================

/// What a Bech32 or Bech32m string decodes to: its human-readable part and its data, or the text
/// of the decoding error.
pub uninterp spec fn bech32_decoded(s: Seq<char>) -> Result<(Seq<char>, Seq<u8>), Seq<char>>;

/// The Bech32 string with the given human-readable part and data.
pub uninterp spec fn bech32_encoded(hrp: Seq<char>, data: Seq<u8>) -> Seq<char>;

/// Whether a string decodes to the given human-readable part and data.
pub open spec fn bech32_holds(s: Seq<char>, hrp: Seq<char>, data: Seq<u8>) -> bool {
    bech32_decoded(s) matches Ok(d) && d.0 == hrp && d.1 == data
}

/// `bech32::decode`, with the human-readable part and the error as text.
#[verifier::external_body]
pub(crate) fn bech32_decode(s: &str) -> (r: Result<(String, Vec<u8>), String>)
    ensures
        r matches Ok(v) ==> bech32_decoded(s@) matches Ok(d) && d.0 == v.0@ && d.1 == v.1@,
        r matches Err(e) ==> bech32_decoded(s@) matches Err(t) && t == e@,
{
    match bech32::decode(s) {
        Ok((hrp, data)) => Ok((hrp.to_string(), data)),
        Err(e) => Err(e.to_string()),
    }
}

/// `bech32::encode::<Bech32>` with a human-readable part of lower-case letters and data short
/// enough for the code. The string starts with that part and a `1`, and decodes to both.
#[verifier::external_body]
pub(crate) fn bech32_encode(hrp: &str, data: &[u8]) -> (r: String)
    requires
        1 <= hrp@.len() <= 83,
        forall|i: int| 0 <= i < hrp@.len() ==> 'a' <= #[trigger] hrp@[i] <= 'z',
        data@.len() <= 512,
    ensures
        r@ == bech32_encoded(hrp@, data@),
        bech32_holds(r@, hrp@, data@),
        r@.len() > hrp@.len(),
        r@.take(hrp@.len() as int) == hrp@,
        r@[hrp@.len() as int] == '1',
{
    bech32::encode::<Bech32>(Hrp::parse_unchecked(hrp), data).expect("short data")
}

/// The text of the error that `hex::decode` gives for `s`.
pub uninterp spec fn hex_error(s: Seq<char>) -> Seq<char>;

/// `hex::decode`: takes an even number of hexadecimal digits in either case, and nothing else.
#[verifier::external_body]
pub(crate) fn hex_decode(s: &str) -> (r: Result<Vec<u8>, String>)
    ensures
        (r is Ok) == text::is_hex_text(s@),
        r matches Ok(data) ==> data@ == text::hex_text_value(s@),
        r matches Err(e) ==> e@ == hex_error(s@),
{
    hex::decode(s).map_err(|e| e.to_string())
}

/// `hex::encode`: two lower-case digits to a byte.
#[verifier::external_body]
pub(crate) fn hex_encode(data: &[u8]) -> (r: String)
    ensures
        r@ == text::hex_text(data@),
{
    hex::encode(data)
}

} // verus!
