//! Node identities: a secp256k1 key pair, the node address derived from it, and the NIP-19 text
//! forms of both keys.

use crate::bytes;
use crate::crypto;
use crate::text;
use vstd::prelude::*;

verus! {

/// Whether 32 bytes are a secret key whose public key is a point of the curve.
pub open spec fn is_keypair(secret: Seq<u8>) -> bool {
    crypto::is_secret(secret) && crypto::is_point(public_of(secret))
        && crypto::is_point(even_key(x_only(public_of(secret))))
}

/// The compressed public key of a secret key.
pub open spec fn public_of(secret: Seq<u8>) -> Seq<u8> {
    crypto::secp256k1_public(secret)@
}

/// The x-coordinate of a compressed public key.
pub open spec fn x_only(public: Seq<u8>) -> Seq<u8> {
    public.skip(1)
}

/// The compressed public key with a given x-coordinate and even parity.
pub open spec fn even_key(x: Seq<u8>) -> Seq<u8> {
    seq![2u8] + x
}

/// The node address of an x-only public key: the first 16 bytes of its SHA-256 digest.
pub open spec fn node_addr_of(x: Seq<u8>) -> Seq<u8> {
    crypto::sha256(x)@.take(16)
}

/// The npub text of an x-only public key.
pub open spec fn npub_of(x: Seq<u8>) -> Seq<char> {
    crypto::bech32_encoded("npub"@, x)
}

/// A secp256k1 secret key, with its public key beside it.
#[derive(Clone, Copy)]
pub struct SecretKey {
    bytes: [u8; 32],
    public: [u8; 33],
}

/// A secp256k1 public key in compressed form.
#[derive(Clone, Copy)]
pub struct PublicKey {
    bytes: [u8; 33],
}

impl View for SecretKey {
    type V = Seq<u8>;

    closed spec fn view(&self) -> Seq<u8> {
        self.bytes@
    }
}

impl View for PublicKey {
    type V = Seq<u8>;

    closed spec fn view(&self) -> Seq<u8> {
        self.bytes@
    }
}

impl SecretKey {
    /// The bytes are a secret key, and the public key beside them is its own.
    #[verifier::type_invariant]
    pub closed spec fn inv(self) -> bool {
        is_keypair(self@) && self.public@ == public_of(self@)
    }

    /// The secret key of 32 big-endian bytes, unless they are zero or not below the group order.
    pub fn from_bytes(bytes: [u8; 32]) -> (r: Option<Self>)
        ensures
            r is Some <==> crypto::is_secret(bytes@),
            r matches Some(k) ==> k@ == bytes@ && is_keypair(k@),
    {
        if crypto::secret_accepted(&bytes) {
            let public = crypto::public_of_secret(&bytes);
            Some(Self { bytes, public })
        } else {
            None
        }
    }

    /// A new random secret key.
    pub fn random() -> (r: Self)
        ensures
            is_keypair(r@),
    {
        let bytes = crypto::fresh_secret();
        let public = crypto::public_of_secret(&bytes);
        Self { bytes, public }
    }

    /// The 32 big-endian bytes of the key.
    pub fn to_bytes(&self) -> (r: [u8; 32])
        ensures
            r@ == self@,
            is_keypair(self@),
    {
        proof {
            use_type_invariant(&*self);
        }
        self.bytes
    }

    /// The public key that belongs to this secret key.
    pub fn public_key(&self) -> (r: PublicKey)
        ensures
            r@ == public_of(self@),
            is_keypair(self@),
    {
        proof {
            use_type_invariant(&*self);
        }
        PublicKey { bytes: self.public }
    }
}

/// Every secret key is one.
pub proof fn lemma_secret_key(key: SecretKey)
    requires
        key.inv(),
    ensures
        is_keypair(key@),
{
}

impl PublicKey {
    /// The bytes are the compressed form of a point.
    #[verifier::type_invariant]
    spec fn inv(self) -> bool {
        crypto::is_point(self@)
    }

    /// The 33 bytes of the compressed form.
    pub fn to_bytes(&self) -> (r: [u8; 33])
        ensures
            r@ == self@,
            crypto::is_point(self@),
    {
        proof {
            use_type_invariant(&*self);
        }
        self.bytes
    }

    /// The 32-byte x-coordinate.
    pub fn x_only(&self) -> (r: [u8; 32])
        ensures
            r@ == x_only(self@),
            crypto::is_point(self@),
    {
        proof {
            use_type_invariant(&*self);
        }
        let r = bytes::array32_at(&self.bytes, 1);
        assert(r@ =~= x_only(self@));
        r
    }
}

/// The secret that both sides of a Diffie-Hellman exchange arrive at: SHA-256 of the
/// x-coordinate of the shared point.
pub open spec fn dh(secret: Seq<u8>, public: Seq<u8>) -> Seq<u8> {
    crypto::sha256(
        crypto::secp256k1_shared_x(set![x_only(public_of(secret)), x_only(public)])@,
    )@
}

/// Perform ECDH and return SHA-256 of the x-coordinate of the shared point.
///
/// Hashing the x-coordinate alone makes the shared secret independent of parity.
pub fn ecdh(our_secret: &SecretKey, their_public: &PublicKey) -> (r: [u8; 32])
    ensures
        r@ == dh(our_secret@, their_public@),
{
    proof {
        use_type_invariant(&*our_secret);
        use_type_invariant(&*their_public);
    }
    let x = crypto::shared_x(&our_secret.bytes, &their_public.bytes);
    crypto::sha256_digest(&x)
}

/// Both sides of an exchange arrive at the same secret.
pub proof fn law_dh_agrees(a: Seq<u8>, b: Seq<u8>)
    ensures
        dh(a, public_of(b)) == dh(b, public_of(a)),
{
    let (x, y) = (x_only(public_of(a)), x_only(public_of(b)));
    assert(set![x, y] =~= set![y, x]);
}

/// The shared secret does not depend on the parity of the other side's public key.
pub proof fn law_dh_ignores_parity(a: Seq<u8>, p: Seq<u8>, q: Seq<u8>)
    requires
        x_only(p) == x_only(q),
    ensures
        dh(a, p) == dh(a, q),
{
}

/// A FIPS node identity: key pair and derived node address.
pub struct Identity {
    /// secp256k1 secret key.
    secret: SecretKey,
    /// Corresponding public key.
    public: PublicKey,
    /// 16-byte node address (first 16 bytes of SHA-256 of the x-only public key).
    node_addr: [u8; 16],
}

impl View for Identity {
    type V = Seq<u8>;

    closed spec fn view(&self) -> Seq<u8> {
        self.secret@
    }
}

/// The public key of an identity, which its secret key decides.
pub open spec fn identity_x_only(secret: Seq<u8>) -> Seq<u8> {
    x_only(public_of(secret))
}

/// The node address of an identity, which its secret key decides.
pub open spec fn identity_addr(secret: Seq<u8>) -> Seq<u8> {
    node_addr_of(identity_x_only(secret))
}

impl Identity {
    /// The public key and the node address belong to the secret key.
    #[verifier::type_invariant]
    spec fn inv(self) -> bool {
        &&& is_keypair(self.secret@)
        &&& self.public@ == public_of(self.secret@)
        &&& self.node_addr@ == identity_addr(self.secret@)
    }

    /// Create a new random identity.
    pub fn generate() -> (r: Self)
        ensures
            is_keypair(r@),
    {
        Self::from_secret(SecretKey::random())
    }

    /// Create from an existing secret key.
    pub fn from_secret(secret: SecretKey) -> (r: Self)
        ensures
            r@ == secret@,
            is_keypair(r@),
    {
        let public = secret.public_key();
        let node_addr = derive_node_addr(&public);
        Self { secret, public, node_addr }
    }

    /// Create from a secret key encoded as nsec (bech32) or hex string.
    pub fn from_secret_str(s: &str) -> (r: Result<Self, String>)
        ensures
            match r {
                Ok(id) => secret_of_text(s@) == Ok::<Seq<u8>, Seq<char>>(id@) && is_keypair(id@),
                Err(e) => secret_of_text(s@) == Err::<Seq<u8>, Seq<char>>(e@),
            },
    {
        let bytes = match decode_secret(s) {
            Ok(bytes) => bytes,
            Err(e) => return Err(e),
        };
        match SecretKey::from_bytes(bytes) {
            Some(secret) => Ok(Self::from_secret(secret)),
            None => Err("invalid secret key: crypto error".to_string()),
        }
    }

    /// Get the secret key.
    pub fn secret_key(&self) -> (r: &SecretKey)
        ensures
            r@ == self@,
            is_keypair(self@),
    {
        proof {
            use_type_invariant(&*self);
        }
        &self.secret
    }

    /// Get the 32-byte x-only public key (no parity prefix).
    pub fn pubkey_x_only(&self) -> (r: [u8; 32])
        ensures
            r@ == identity_x_only(self@),
    {
        proof {
            use_type_invariant(&*self);
        }
        self.public.x_only()
    }

    /// Get the 16-byte node address.
    pub fn node_addr(&self) -> (r: &[u8; 16])
        ensures
            r@ == identity_addr(self@),
    {
        proof {
            use_type_invariant(&*self);
        }
        &self.node_addr
    }

    /// Get the node address as a hex string.
    pub fn node_addr_hex(&self) -> (r: String)
        ensures
            r@ == text::hex_text(identity_addr(self@)),
    {
        proof {
            use_type_invariant(&*self);
        }
        crypto::hex_encode(&self.node_addr)
    }

    /// Encode as bech32 npub string (NIP-19).
    pub fn npub(&self) -> (r: String)
        ensures
            r@ == npub_of(identity_x_only(self@)),
            decoded_npub(r@) == Ok::<Seq<u8>, Seq<char>>(identity_x_only(self@)),
            r@.len() > 0,
    {
        encode_npub(&self.pubkey_x_only())
    }
}

// ============================================================================
// Node addresses
// ============================================================================

/// Derive a 16-byte node address from a public key.
fn derive_node_addr(pubkey: &PublicKey) -> (r: [u8; 16])
    ensures
        r@ == node_addr_of(x_only(pubkey@)),
{
    node_addr_from_x_only(&pubkey.x_only())
}

/// Derive a 16-byte node address from an x-only public key.
pub fn node_addr_from_x_only(x: &[u8; 32]) -> (r: [u8; 16])
    ensures
        r@ == node_addr_of(x@),
{
    let hash = crypto::sha256_digest(x);
    let r = bytes::array16_at(&hash, 0);
    assert(r@ =~= node_addr_of(x@));
    r
}

// ============================================================================
// Public keys
// ============================================================================

/// What bytes parse to as a SEC1 public key.
pub open spec fn parsed_key(data: Seq<u8>) -> Result<Seq<u8>, Seq<char>> {
    match crypto::secp256k1_point(data) {
        Some(p) => Ok(p@),
        None => Err("invalid public key: crypto error"@),
    }
}

/// Parse a 33-byte compressed public key (SEC1 format).
pub fn pubkey_from_bytes(data: &[u8]) -> (r: Result<PublicKey, String>)
    ensures
        match r {
            Ok(k) => parsed_key(data@) == Ok::<Seq<u8>, Seq<char>>(k@) && crypto::is_point(k@)
                && crypto::is_point(even_key(x_only(k@))),
            Err(e) => parsed_key(data@) == Err::<Seq<u8>, Seq<char>>(e@),
        },
        r matches Ok(k) ==> data@.len() == 33 ==> x_only(k@) == x_only(data@),
{
    match crypto::point_of_bytes(data) {
        Some(bytes) => Ok(PublicKey { bytes }),
        None => Err("invalid public key: crypto error".to_string()),
    }
}

/// Construct a full public key from a 32-byte x-only key, taking even parity.
pub fn pubkey_from_x_only(x_bytes: &[u8; 32]) -> (r: Result<PublicKey, String>)
    ensures
        r is Ok <==> crypto::secp256k1_point(even_key(x_bytes@)) is Some,
        r matches Ok(k) ==> k@ == even_key(x_bytes@) && crypto::is_point(k@),
        r matches Err(e) ==> e@ == "invalid x-only key: crypto error"@,
{
    let compressed = with_even_parity(x_bytes);
    match crypto::point_of_bytes(&compressed) {
        Some(bytes) => Ok(PublicKey { bytes }),
        None => Err("invalid x-only key: crypto error".to_string()),
    }
}

fn with_even_parity(x_bytes: &[u8; 32]) -> (r: [u8; 33])
    ensures
        r@ == even_key(x_bytes@),
{
    let mut r: [u8; 33] = [2u8; 33];
    let mut i: usize = 0;
    while i < 32
        invariant
            i <= 32,
            r@[0] == 2,
            forall|j: int| 0 <= j < i ==> r@[j + 1] == x_bytes@[j],
        decreases 32 - i,
    {
        r[i + 1] = x_bytes[i];
        i = i + 1;
    }
    assert forall|j: int| 0 <= j < 33 implies r@[j] == even_key(x_bytes@)[j] by {
        if j > 0 {
            assert(r@[(j - 1) + 1] == x_bytes@[j - 1]);
        }
    }
    assert(r@ =~= even_key(x_bytes@));
    r
}

/// Serialize a public key as 33-byte compressed SEC1.
pub fn pubkey_to_bytes(pubkey: &PublicKey) -> (r: [u8; 33])
    ensures
        r@ == pubkey@,
        crypto::is_point(pubkey@),
{
    pubkey.to_bytes()
}

/// Normalize a compressed public key to even parity for Noise pre-message hashing.
///
/// Both sides of the handshake must mix identical bytes into the hash chain. Since the initiator
/// may only have the x-only key (from an npub) and assumes even parity, the responder normalizes
/// to even parity too.
pub fn normalize_for_premessage(pubkey: &PublicKey) -> (r: [u8; 33])
    ensures
        r@ == even_key(x_only(pubkey@)),
{
    with_even_parity(&pubkey.x_only())
}

/// Keys that differ at most in parity are the same pre-message.
pub proof fn law_premessage_ignores_parity(p: Seq<u8>, q: Seq<u8>)
    requires
        x_only(p) == x_only(q),
    ensures
        even_key(x_only(p)) == even_key(x_only(q)),
{
}

/// Normalizing keeps the x-coordinate, and normalizing twice changes nothing more.
pub proof fn law_normalizing_keeps_x(p: Seq<u8>)
    requires
        p.len() == 33,
    ensures
        x_only(even_key(x_only(p))) == x_only(p),
        even_key(x_only(even_key(x_only(p)))) == even_key(x_only(p)),
{
    assert(even_key(x_only(p)).skip(1) =~= x_only(p));
}

// ============================================================================
// Bech32 encoding (npub / nsec)
// ============================================================================

/// Encode a 32-byte x-only public key as bech32 npub.
pub fn encode_npub(x: &[u8; 32]) -> (r: String)
    ensures
        r@ == npub_of(x@),
        decoded_npub(r@) == Ok::<Seq<u8>, Seq<char>>(x@),
        r@.len() > 0,
{
    proof {
        reveal_strlit("npub");
    }
    let r = crypto::bech32_encode("npub", x);
    assert(text::ascii_lower_text("npub"@) =~= "npub"@);
    r
}

/// Encode a public key as bech32 npub; the parity is not part of it.
pub fn pubkey_to_npub(pubkey: &PublicKey) -> (r: String)
    ensures
        r@ == npub_of(x_only(pubkey@)),
        decoded_npub(r@) == Ok::<Seq<u8>, Seq<char>>(x_only(pubkey@)),
        r@.len() > 0,
{
    encode_npub(&pubkey.x_only())
}

/// What a bech32 text holds when a human-readable part and 32 bytes are expected.
pub open spec fn decoded_key(s: Seq<char>, hrp: Seq<char>) -> Result<Seq<u8>, Seq<char>> {
    match crypto::bech32_decoded(s) {
        Err(e) => Err("bech32 decode: "@ + e),
        Ok(d) => if text::ascii_lower_text(d.0) != hrp {
            Err("expected "@ + hrp + " prefix, got "@ + d.0)
        } else if d.1.len() != 32 {
            Err("expected 32 bytes, got "@ + text::decimal(d.1.len()))
        } else {
            Ok(d.1)
        },
    }
}

/// The x-only public key that an npub names, or what is wrong with it.
pub open spec fn decoded_npub(s: Seq<char>) -> Result<Seq<u8>, Seq<char>> {
    decoded_key(s, "npub"@)
}

/// The bytes that a secret key text names: bech32 if it starts with `nsec1`, else hexadecimal.
pub open spec fn decoded_secret(s: Seq<char>) -> Result<Seq<u8>, Seq<char>> {
    if "nsec1"@.is_prefix_of(s) {
        decoded_key(s, "nsec"@)
    } else if !text::is_hex_text(s) {
        Err("hex decode: "@ + crypto::hex_error(s))
    } else if text::hex_text_value(s).len() != 32 {
        Err("expected 32 bytes, got "@ + text::decimal(text::hex_text_value(s).len()))
    } else {
        Ok(text::hex_text_value(s))
    }
}

/// The secret key that a text names, or what is wrong with it.
pub open spec fn secret_of_text(s: Seq<char>) -> Result<Seq<u8>, Seq<char>> {
    match decoded_secret(s) {
        Err(e) => Err(e),
        Ok(bytes) => if crypto::is_secret(bytes) {
            Ok(bytes)
        } else {
            Err("invalid secret key: crypto error"@)
        },
    }
}

/// A 32-byte result as its value.
pub open spec fn array_result(r: Result<[u8; 32], String>) -> Result<Seq<u8>, Seq<char>> {
    match r {
        Ok(v) => Ok(v@),
        Err(e) => Err(e@),
    }
}

/// Decode an npub string to a 32-byte x-only public key.
pub fn decode_npub(npub: &str) -> (r: Result<[u8; 32], String>)
    ensures
        array_result(r) == decoded_npub(npub@),
{
    proof {
        reveal_strlit("npub");
        assert(text::ascii_lower_text("npub"@) =~= "npub"@);
    }
    decode_key(npub, "npub")
}

/// Decode a secret key from nsec (bech32) or hex format. Returns raw 32 bytes.
fn decode_secret(s: &str) -> (r: Result<[u8; 32], String>)
    ensures
        array_result(r) == decoded_secret(s@),
{
    if text::starts_with(s, "nsec1") {
        proof {
            reveal_strlit("nsec");
            assert(text::ascii_lower_text("nsec"@) =~= "nsec"@);
        }
        decode_key(s, "nsec")
    } else {
        match crypto::hex_decode(s) {
            Ok(data) => exactly_32(&data),
            Err(e) => Err(text::join2("hex decode: ", e.as_str())),
        }
    }
}

fn decode_key(s: &str, hrp: &str) -> (r: Result<[u8; 32], String>)
    requires
        text::ascii_lower_text(hrp@) == hrp@,
    ensures
        array_result(r) == decoded_key(s@, hrp@),
{
    match crypto::bech32_decode(s) {
        Ok((found, data)) => {
            if !text::same_ignoring_case(found.as_str(), hrp) {
                return Err(text::join4("expected ", hrp, " prefix, got ", found.as_str()));
            }
            exactly_32(&data)
        },
        Err(e) => Err(text::join2("bech32 decode: ", e.as_str())),
    }
}

fn exactly_32(data: &Vec<u8>) -> (r: Result<[u8; 32], String>)
    ensures
        array_result(r) == (if data@.len() == 32 {
            Ok(data@)
        } else {
            Err("expected 32 bytes, got "@ + text::decimal(data@.len()))
        }),
{
    if data.len() != 32 {
        let n = text::decimal_text(data.len() as u64);
        return Err(text::join2("expected 32 bytes, got ", n.as_str()));
    }
    let key = bytes::array32_at(data.as_slice(), 0);
    assert(key@ =~= data@);
    Ok(key)
}

/// The node address of a key is the first half of the SHA-256 digest of its x-coordinate, which is
/// what stands behind the first byte of the public key.
pub proof fn law_address_of_secret(secret: Seq<u8>)
    ensures
        identity_x_only(secret) == crypto::secp256k1_public(secret)@.subrange(1, 33),
        identity_addr(secret).len() == 16,
        identity_addr(secret) == crypto::sha256(
            crypto::secp256k1_public(secret)@.subrange(1, 33),
        )@.subrange(0, 16),
{
    let p = crypto::secp256k1_public(secret)@;
    assert(p.skip(1) =~= p.subrange(1, 33));
    let d = crypto::sha256(p.subrange(1, 33))@;
    assert(d.take(16) =~= d.subrange(0, 16));
}

/// The address of an x-only key.
pub proof fn law_address_of_key(x: Seq<u8>)
    ensures
        node_addr_of(x) == crypto::sha256(x)@.subrange(0, 16),
        npub_of(x) == crypto::bech32_encoded("npub"@, x),
{
    assert(crypto::sha256(x)@.take(16) =~= crypto::sha256(x)@.subrange(0, 16));
}

/// The shared secret of two keys is the digest of the x-coordinate that their x-coordinates share.
pub proof fn law_dh_is_hashed_x(secret: Seq<u8>, public: Seq<u8>)
    requires
        public.len() == 33,
    ensures
        dh(secret, public) == crypto::sha256(
            crypto::secp256k1_shared_x(
                set![
                    crypto::secp256k1_public(secret)@.subrange(1, 33),
                    public.subrange(1, 33),
                ],
            )@,
        )@,
{
    let p = crypto::secp256k1_public(secret)@;
    assert(p.skip(1) =~= p.subrange(1, 33));
    assert(public.skip(1) =~= public.subrange(1, 33));
}

/// A key in even parity starts with a two.
pub proof fn law_even_key_starts_with_two(x: Seq<u8>)
    requires
        x.len() == 32,
    ensures
        even_key(x).len() == 33,
        even_key(x)[0] == 2,
        even_key(x).subrange(1, 33) == x,
{
    assert(even_key(x).subrange(1, 33) =~= x);
}

/// A text is an npub if and only if it is Bech32 of 32 bytes under `npub`, in either case; those
/// bytes are the key.
pub proof fn law_npub_is_bech32(s: Seq<char>)
    ensures
        ({
            let d = crypto::bech32_decoded(s);
            &&& decoded_npub(s) is Ok <==> d is Ok && text::ascii_lower_text((d->Ok_0).0)
                == "npub"@ && (d->Ok_0).1.len() == 32
            &&& decoded_npub(s) is Ok ==> decoded_npub(s)->Ok_0 == (d->Ok_0).1
            &&& d is Err ==> decoded_npub(s)->Err_0 == "bech32 decode: "@ + d->Err_0
            &&& d is Ok && text::ascii_lower_text((d->Ok_0).0) != "npub"@
                ==> decoded_npub(s)->Err_0 == "expected "@ + "npub"@ + " prefix, got "@ + (
            d->Ok_0).0
            &&& d is Ok && text::ascii_lower_text((d->Ok_0).0) == "npub"@ && (d->Ok_0).1.len() != 32
                ==> decoded_npub(s)->Err_0 == "expected 32 bytes, got "@ + text::decimal(
                (d->Ok_0).1.len(),
            )
        }),
{
}

/// A text that starts with `nsec1` is a secret key if and only if it is Bech32 of 32 bytes under
/// `nsec`; any other text, if and only if it is 64 hexadecimal digits. Either way the bytes must be
/// a number from one to the group order, exclusive.
pub proof fn law_secret_is_nsec_or_hex(s: Seq<char>)
    ensures
        ({
            let d = crypto::bech32_decoded(s);
            let r = secret_of_text(s);
            &&& "nsec1"@.is_prefix_of(s) ==> {
                &&& r is Ok <==> d is Ok && text::ascii_lower_text((d->Ok_0).0) == "nsec"@ && (
                d->Ok_0).1.len() == 32 && crypto::is_secret((d->Ok_0).1)
                &&& r is Ok ==> r->Ok_0 == (d->Ok_0).1
            }
            &&& !"nsec1"@.is_prefix_of(s) ==> {
                &&& r is Ok <==> text::is_hex_text(s) && s.len() == 64 && crypto::is_secret(
                    text::hex_text_value(s),
                )
                &&& r is Ok ==> r->Ok_0 == text::hex_text_value(s)
            }
        }),
{
}

} // verus!
