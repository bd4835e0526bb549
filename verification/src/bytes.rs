//! Integers in little- and big-endian order, and copies between slices, arrays and vectors.

use vstd::prelude::*;

verus! {

/// The number of values that `n` bytes can hold.
pub open spec fn pow256(n: nat) -> nat
    decreases n,
{
    if n == 0 {
        1
    } else {
        256 * pow256((n - 1) as nat)
    }
}

/// The number that `s` spells with its least significant byte first.
pub open spec fn le_value(s: Seq<u8>) -> nat
    decreases s.len(),
{
    if s.len() == 0 {
        0
    } else {
        s[0] as nat + 256 * le_value(s.skip(1))
    }
}

/// The `n` lowest bytes of `v`, least significant first.
pub open spec fn le_bytes(v: nat, n: nat) -> Seq<u8>
    decreases n,
{
    if n == 0 {
        Seq::empty()
    } else {
        seq![(v % 256) as u8] + le_bytes(v / 256, (n - 1) as nat)
    }
}

/// The number that `s` spells with its most significant byte first.
pub open spec fn be_value(s: Seq<u8>) -> nat
    decreases s.len(),
{
    if s.len() == 0 {
        0
    } else {
        256 * be_value(s.drop_last()) + s.last() as nat
    }
}

/// The `n` lowest bytes of `v`, most significant first.
pub open spec fn be_bytes(v: nat, n: nat) -> Seq<u8>
    decreases n,
{
    if n == 0 {
        Seq::empty()
    } else {
        be_bytes(v / 256, (n - 1) as nat).push((v % 256) as u8)
    }
}

/// Encoding yields exactly the requested number of bytes.
pub broadcast proof fn lemma_le_bytes_len(v: nat, n: nat)
    ensures
        #[trigger] le_bytes(v, n).len() == n,
    decreases n,
{
    if n > 0 {
        lemma_le_bytes_len(v / 256, (n - 1) as nat);
    }
}

/// Encoding yields exactly the requested number of bytes.
pub broadcast proof fn lemma_be_bytes_len(v: nat, n: nat)
    ensures
        #[trigger] be_bytes(v, n).len() == n,
    decreases n,
{
    if n > 0 {
        lemma_be_bytes_len(v / 256, (n - 1) as nat);
    }
}

/// `n` bytes spell a number below `256^n`.
pub proof fn lemma_le_value_bound(s: Seq<u8>)
    ensures
        le_value(s) < pow256(s.len()),
    decreases s.len(),
{
    if s.len() > 0 {
        lemma_le_value_bound(s.skip(1));
    }
}

/// `n` bytes spell a number below `256^n`.
pub proof fn lemma_be_value_bound(s: Seq<u8>)
    ensures
        be_value(s) < pow256(s.len()),
    decreases s.len(),
{
    if s.len() > 0 {
        lemma_be_value_bound(s.drop_last());
    }
}

/// Decoding what was encoded gives the number back.
pub proof fn lemma_le_round_trip(v: nat, n: nat)
    requires
        v < pow256(n),
    ensures
        le_value(le_bytes(v, n)) == v,
    decreases n,
{
    if n > 0 {
        lemma_le_round_trip(v / 256, (n - 1) as nat);
        assert(le_bytes(v, n).skip(1) =~= le_bytes(v / 256, (n - 1) as nat));
    }
}

/// Encoding what was decoded gives the bytes back.
pub proof fn lemma_le_bytes_of_value(s: Seq<u8>)
    ensures
        le_bytes(le_value(s), s.len()) == s,
    decreases s.len(),
{
    if s.len() > 0 {
        lemma_le_bytes_of_value(s.skip(1));
        let v = le_value(s);
        assert(v % 256 == s[0] && v / 256 == le_value(s.skip(1)));
        assert(seq![s[0]] + s.skip(1) =~= s);
    } else {
        assert(s =~= Seq::empty());
    }
}

/// Decoding what was encoded gives the number back.
pub proof fn lemma_be_round_trip(v: nat, n: nat)
    requires
        v < pow256(n),
    ensures
        be_value(be_bytes(v, n)) == v,
    decreases n,
{
    if n > 0 {
        lemma_be_round_trip(v / 256, (n - 1) as nat);
        assert(be_bytes(v, n).drop_last() =~= be_bytes(v / 256, (n - 1) as nat));
    }
}

/// Encoding what was decoded gives the bytes back.
pub proof fn lemma_be_bytes_of_value(s: Seq<u8>)
    ensures
        be_bytes(be_value(s), s.len()) == s,
    decreases s.len(),
{
    if s.len() > 0 {
        lemma_be_bytes_of_value(s.drop_last());
        let v = be_value(s);
        assert(v % 256 == s.last() && v / 256 == be_value(s.drop_last()));
        assert(s.drop_last().push(s.last()) =~= s);
    } else {
        assert(s =~= Seq::empty());
    }
}

/// The sizes of the integer types, as powers of 256.
pub proof fn lemma_pow256_values()
    ensures
        pow256(1) == 0x100,
        pow256(2) == 0x1_0000,
        pow256(4) == 0x1_0000_0000,
        pow256(8) == 0x1_0000_0000_0000_0000,
{
    reveal_with_fuel(pow256, 9);
}

/// Two bytes, spelled out.
pub proof fn lemma_be16_split(v: nat)
    ensures
        be_bytes(v, 2) == seq![((v / 256) % 256) as u8, (v % 256) as u8],
{
    reveal_with_fuel(be_bytes, 3);
    assert(be_bytes(v, 2) =~= seq![((v / 256) % 256) as u8, (v % 256) as u8]);
}

/// Only the lowest two bytes of a number show in two bytes.
pub proof fn lemma_le16_low(v: nat)
    ensures
        le_bytes(v % 0x1_0000, 2) == le_bytes(v, 2),
{
    reveal_with_fuel(le_bytes, 3);
    let w = v % 0x1_0000;
    assert(w % 256 == v % 256);
    assert((w / 256) % 256 == (v / 256) % 256);
}

/// Only the lowest two bytes of a number show in two bytes.
pub proof fn lemma_be16_low(v: nat)
    ensures
        be_bytes(v % 0x1_0000, 2) == be_bytes(v, 2),
{
    lemma_be16_split(v);
    lemma_be16_split(v % 0x1_0000);
    let w = v % 0x1_0000;
    assert(w % 256 == v % 256);
    assert((w / 256) % 256 == (v / 256) % 256);
}

/// Numbers of the usual sizes survive a round trip through little-endian bytes.
pub proof fn lemma_le_integers(a: u16, b: u32, c: u64)
    ensures
        le_value(le_bytes(a as nat, 2)) == a,
        le_value(le_bytes(b as nat, 4)) == b,
        le_value(le_bytes(c as nat, 8)) == c,
        le_bytes(a as nat, 2).len() == 2,
        le_bytes(b as nat, 4).len() == 4,
        le_bytes(c as nat, 8).len() == 8,
{
    lemma_pow256_values();
    lemma_le_round_trip(a as nat, 2);
    lemma_le_round_trip(b as nat, 4);
    lemma_le_round_trip(c as nat, 8);
    lemma_le_bytes_len(a as nat, 2);
    lemma_le_bytes_len(b as nat, 4);
    lemma_le_bytes_len(c as nat, 8);
}

/// Appends a slice to a vector.
pub fn append(out: &mut Vec<u8>, data: &[u8])
    ensures
        final(out)@ == old(out)@ + data@,
{
    let mut i: usize = 0;
    assert(old(out)@ + data@.take(0) =~= old(out)@);
    while i < data.len()
        invariant
            i <= data.len(),
            out@ == old(out)@ + data@.take(i as int),
        decreases data.len() - i,
    {
        out.push(data[i]);
        assert(data@.take(i as int).push(data@[i as int]) =~= data@.take(i + 1));
        assert(out@ =~= old(out)@ + data@.take(i + 1));
        i = i + 1;
    }
    assert(data@.take(i as int) =~= data@);
}

/// A number of zero bytes.
pub open spec fn zeros(n: nat) -> Seq<u8> {
    Seq::new(n, |i: int| 0u8)
}

/// Appends a number of zero bytes.
pub fn push_zeros(out: &mut Vec<u8>, n: usize)
    ensures
        final(out)@ == old(out)@ + zeros(n as nat),
{
    let mut i: usize = 0;
    assert(old(out)@ + zeros(0) =~= old(out)@);
    while i < n
        invariant
            i <= n,
            out@ == old(out)@ + zeros(i as nat),
        decreases n - i,
    {
        out.push(0);
        assert(out@ =~= old(out)@ + zeros((i + 1) as nat));
        i = i + 1;
    }
}

/// Copies a slice into a fresh vector.
pub fn to_vec(data: &[u8]) -> (r: Vec<u8>)
    ensures
        r@ == data@,
{
    let mut out: Vec<u8> = Vec::with_capacity(data.len());
    append(&mut out, data);
    assert(out@ =~= data@);
    out
}

/// Appends a number in little-endian order.
pub fn push_u16_le(out: &mut Vec<u8>, v: u16)
    ensures
        final(out)@ == old(out)@ + le_bytes(v as nat, 2),
{
    proof {
        reveal_with_fuel(le_bytes, 3);
    }
    out.push((v % 256) as u8);
    out.push((v / 256) as u8);
    assert(out@ =~= old(out)@ + le_bytes(v as nat, 2));
}

/// Appends the lowest two bytes of a length in little-endian order.
pub fn push_len_le(out: &mut Vec<u8>, n: usize)
    ensures
        final(out)@ == old(out)@ + le_bytes(n as nat, 2),
{
    proof {
        lemma_le16_low(n as nat);
    }
    push_u16_le(out, (n % 0x1_0000) as u16);
}

/// Appends a number in little-endian order.
pub fn push_u32_le(out: &mut Vec<u8>, v: u32)
    ensures
        final(out)@ == old(out)@ + le_bytes(v as nat, 4),
{
    push_u64_low(out, v as u64, 4);
}

/// Appends a number in little-endian order.
pub fn push_u64_le(out: &mut Vec<u8>, v: u64)
    ensures
        final(out)@ == old(out)@ + le_bytes(v as nat, 8),
{
    push_u64_low(out, v, 8);
}

fn push_u64_low(out: &mut Vec<u8>, v: u64, n: usize)
    ensures
        final(out)@ == old(out)@ + le_bytes(v as nat, n as nat),
{
    let mut rest: u64 = v;
    let mut i: usize = 0;
    while i < n
        invariant
            i <= n,
            out@ + le_bytes(rest as nat, (n - i) as nat) == old(out)@ + le_bytes(v as nat, n as nat),
        decreases n - i,
    {
        let ghost before = out@;
        out.push((rest % 256) as u8);
        assert(before + le_bytes(rest as nat, (n - i) as nat) =~= out@ + le_bytes(
            (rest / 256) as nat,
            (n - i - 1) as nat,
        ));
        rest = rest / 256;
        i = i + 1;
    }
    assert(out@ + le_bytes(rest as nat, 0) =~= out@);
}

/// Appends a number in big-endian order.
pub fn push_u16_be(out: &mut Vec<u8>, v: u16)
    ensures
        final(out)@ == old(out)@ + be_bytes(v as nat, 2),
{
    proof {
        lemma_be16_split(v as nat);
    }
    out.push((v / 256) as u8);
    out.push((v % 256) as u8);
    assert(out@ =~= old(out)@ + be_bytes(v as nat, 2));
}

/// Reads a number in little-endian order.
pub fn u16_le_at(data: &[u8], pos: usize) -> (r: u16)
    requires
        pos + 2 <= data@.len(),
    ensures
        r == le_value(data@.subrange(pos as int, pos + 2)),
{
    proof {
        reveal_with_fuel(le_value, 3);
        let s = data@.subrange(pos as int, pos + 2);
        assert(s.skip(1)[0] == s[1]);
    }
    data[pos] as u16 + 256 * (data[pos + 1] as u16)
}

/// Reads a number in little-endian order.
pub fn u32_le_at(data: &[u8], pos: usize) -> (r: u32)
    requires
        pos + 4 <= data@.len(),
    ensures
        r == le_value(data@.subrange(pos as int, pos + 4)),
{
    proof {
        lemma_le_value_bound(data@.subrange(pos as int, pos + 4));
        lemma_pow256_values();
    }
    u64_low_at(data, pos, 4) as u32
}

/// Reads a number in little-endian order.
pub fn u64_le_at(data: &[u8], pos: usize) -> (r: u64)
    requires
        pos + 8 <= data@.len(),
    ensures
        r == le_value(data@.subrange(pos as int, pos + 8)),
{
    u64_low_at(data, pos, 8)
}

fn u64_low_at(data: &[u8], pos: usize, n: usize) -> (r: u64)
    requires
        pos + n <= data@.len(),
        n <= 8,
    ensures
        r == le_value(data@.subrange(pos as int, pos + n)),
{
    let mut v: u64 = 0;
    let mut i: usize = n;
    while i > 0
        invariant
            i <= n <= 8,
            pos + n <= data.len(),
            v == le_value(data@.subrange(pos + i, pos + n)),
        decreases i,
    {
        i = i - 1;
        proof {
            let s = data@.subrange(pos + i, pos + n);
            assert(s.skip(1) =~= data@.subrange(pos + i + 1, pos + n));
            lemma_le_value_bound(s);
            lemma_pow256_values();
            lemma_pow256_mono(s.len(), 8);
        }
        v = v * 256 + data[pos + i] as u64;
    }
    v
}

/// More bytes hold more values.
pub proof fn lemma_pow256_mono(m: nat, n: nat)
    requires
        m <= n,
    ensures
        pow256(m) <= pow256(n),
    decreases n,
{
    if m < n {
        lemma_pow256_mono(m, (n - 1) as nat);
    }
}

/// Reads a number in big-endian order.
pub fn u16_be_at(data: &[u8], pos: usize) -> (r: u16)
    requires
        pos + 2 <= data@.len(),
    ensures
        r == be_value(data@.subrange(pos as int, pos + 2)),
{
    proof {
        reveal_with_fuel(be_value, 3);
        let s = data@.subrange(pos as int, pos + 2);
        assert(s.drop_last().last() == s[0]);
    }
    256 * (data[pos] as u16) + data[pos + 1] as u16
}

/// Copies 8 bytes out of a slice.
pub fn array8_at(data: &[u8], pos: usize) -> (r: [u8; 8])
    requires
        pos + 8 <= data@.len(),
    ensures
        r@ == data@.subrange(pos as int, pos + 8),
{
    let mut r: [u8; 8] = [0u8; 8];
    let mut i: usize = 0;
    while i < 8
        invariant
            i <= 8,
            pos + 8 <= data.len(),
            forall|j: int| 0 <= j < i ==> r@[j] == data@[pos + j],
        decreases 8 - i,
    {
        r[i] = data[pos + i];
        i = i + 1;
    }
    assert(r@ =~= data@.subrange(pos as int, pos + 8));
    r
}

/// Copies 16 bytes out of a slice.
pub fn array16_at(data: &[u8], pos: usize) -> (r: [u8; 16])
    requires
        pos + 16 <= data@.len(),
    ensures
        r@ == data@.subrange(pos as int, pos + 16),
{
    let mut r: [u8; 16] = [0u8; 16];
    let mut i: usize = 0;
    while i < 16
        invariant
            i <= 16,
            pos + 16 <= data.len(),
            forall|j: int| 0 <= j < i ==> r@[j] == data@[pos + j],
        decreases 16 - i,
    {
        r[i] = data[pos + i];
        i = i + 1;
    }
    assert(r@ =~= data@.subrange(pos as int, pos + 16));
    r
}

/// Copies 12 bytes out of a slice.
pub fn array12_at(data: &[u8], pos: usize) -> (r: [u8; 12])
    requires
        pos + 12 <= data@.len(),
    ensures
        r@ == data@.subrange(pos as int, pos + 12),
{
    let mut r: [u8; 12] = [0u8; 12];
    let mut i: usize = 0;
    while i < 12
        invariant
            i <= 12,
            pos + 12 <= data.len(),
            forall|j: int| 0 <= j < i ==> r@[j] == data@[pos + j],
        decreases 12 - i,
    {
        r[i] = data[pos + i];
        i = i + 1;
    }
    assert(r@ =~= data@.subrange(pos as int, pos + 12));
    r
}

/// Copies 32 bytes out of a slice.
pub fn array32_at(data: &[u8], pos: usize) -> (r: [u8; 32])
    requires
        pos + 32 <= data@.len(),
    ensures
        r@ == data@.subrange(pos as int, pos + 32),
{
    let mut r: [u8; 32] = [0u8; 32];
    let mut i: usize = 0;
    while i < 32
        invariant
            i <= 32,
            pos + 32 <= data.len(),
            forall|j: int| 0 <= j < i ==> r@[j] == data@[pos + j],
        decreases 32 - i,
    {
        r[i] = data[pos + i];
        i = i + 1;
    }
    assert(r@ =~= data@.subrange(pos as int, pos + 32));
    r
}

/// Whether two 16-byte arrays hold the same bytes.
pub fn same16(a: &[u8; 16], b: &[u8; 16]) -> (r: bool)
    ensures
        r == (a@ == b@),
{
    let mut i: usize = 0;
    while i < 16
        invariant
            i <= 16,
            forall|j: int| 0 <= j < i ==> a@[j] == b@[j],
        decreases 16 - i,
    {
        if a[i] != b[i] {
            return false;
        }
        i = i + 1;
    }
    assert(a@ =~= b@);
    true
}

/// Whether two slices hold the same bytes.
pub fn same(a: &[u8], b: &[u8]) -> (r: bool)
    ensures
        r == (a@ == b@),
{
    if a.len() != b.len() {
        return false;
    }
    let mut i: usize = 0;
    while i < a.len()
        invariant
            i <= a@.len(),
            a@.len() == b@.len(),
            forall|j: int| 0 <= j < i ==> a@[j] == b@[j],
        decreases a@.len() - i,
    {
        if a[i] != b[i] {
            return false;
        }
        i = i + 1;
    }
    assert(a@ =~= b@);
    true
}

/// Byte `i` of a number in little-endian order is its digit of weight `256^i`.
pub proof fn law_le_bytes_are_digits(v: nat, n: nat, i: nat)
    requires
        i < n,
    ensures
        le_bytes(v, n).len() == n,
        le_bytes(v, n)[i as int] as int == (v as int / vstd::arithmetic::power::pow(256, i)) % 256,
    decreases n,
{
    lemma_le_bytes_len(v, n);
    if i == 0 {
        vstd::arithmetic::power::lemma_pow0(256);
    } else {
        let j = (i - 1) as nat;
        law_le_bytes_are_digits(v / 256, (n - 1) as nat, j);
        assert(le_bytes(v, n)[i as int] == le_bytes(v / 256, (n - 1) as nat)[j as int]);
        vstd::arithmetic::power::lemma_pow_positive(256, j);
        vstd::arithmetic::div_mod::lemma_div_denominator(
            v as int,
            256,
            vstd::arithmetic::power::pow(256, j),
        );
        reveal(vstd::arithmetic::power::pow);
    }
}

/// Byte `i` from the end of a number in big-endian order is its digit of weight `256^i`.
pub proof fn law_be_bytes_are_digits(v: nat, n: nat, i: nat)
    requires
        i < n,
    ensures
        be_bytes(v, n).len() == n,
        be_bytes(v, n)[n - 1 - i] as int == (v as int / vstd::arithmetic::power::pow(256, i)) % 256,
    decreases n,
{
    lemma_be_bytes_len(v, n);
    if i == 0 {
        vstd::arithmetic::power::lemma_pow0(256);
    } else {
        let j = (i - 1) as nat;
        law_be_bytes_are_digits(v / 256, (n - 1) as nat, j);
        lemma_be_bytes_len(v / 256, (n - 1) as nat);
        assert(be_bytes(v, n)[n - 1 - i] == be_bytes(v / 256, (n - 1) as nat)[n - 2 - j]);
        vstd::arithmetic::power::lemma_pow_positive(256, j);
        vstd::arithmetic::div_mod::lemma_div_denominator(
            v as int,
            256,
            vstd::arithmetic::power::pow(256, j),
        );
        reveal(vstd::arithmetic::power::pow);
    }
}

/// The bytes of a little-endian number weigh 1, 256, 65536 and so on.
pub proof fn law_le_value_weighs_bytes(s: Seq<u8>)
    ensures
        s.len() == 2 ==> le_value(s) == s[0] + 0x100 * s[1],
        s.len() == 4 ==> le_value(s) == s[0] + 0x100 * s[1] + 0x1_0000 * s[2] + 0x100_0000 * s[3],
        s.len() == 8 ==> le_value(s) == s[0] + 0x100 * s[1] + 0x1_0000 * s[2] + 0x100_0000 * s[3]
            + 0x1_0000_0000 * s[4] + 0x100_0000_0000 * s[5] + 0x1_0000_0000_0000 * s[6]
            + 0x100_0000_0000_0000 * s[7],
{
    reveal_with_fuel(le_value, 9);
    assert(s.len() >= 2 ==> s.skip(1)[0] == s[1]);
    assert(s.len() >= 3 ==> s.skip(1).skip(1)[0] == s[2]);
    assert(s.len() >= 4 ==> s.skip(1).skip(1).skip(1)[0] == s[3]);
    assert(s.len() >= 5 ==> s.skip(1).skip(1).skip(1).skip(1)[0] == s[4]);
    assert(s.len() >= 6 ==> s.skip(1).skip(1).skip(1).skip(1).skip(1)[0] == s[5]);
    assert(s.len() >= 7 ==> s.skip(1).skip(1).skip(1).skip(1).skip(1).skip(1)[0] == s[6]);
    assert(s.len() >= 8 ==> s.skip(1).skip(1).skip(1).skip(1).skip(1).skip(1).skip(1)[0] == s[7]);
}

/// The last byte of a big-endian number weighs 1, the one before it 256.
pub proof fn law_be_value_weighs_bytes(s: Seq<u8>)
    requires
        s.len() == 2,
    ensures
        be_value(s) == 0x100 * s[0] + s[1],
{
    reveal_with_fuel(be_value, 3);
    assert(s.drop_last()[0] == s[0]);
}

/// Zero bytes are zero.
pub proof fn law_zeros_are_zero(n: nat, i: int)
    requires
        0 <= i < n,
    ensures
        zeros(n).len() == n,
        zeros(n)[i] == 0,
{
}

} // verus!
