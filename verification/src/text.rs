//! Numbers and bytes as text.

use vstd::prelude::*;

verus! {

/// The digit for a value below 16, with lower-case letters.
pub open spec fn digit(d: nat) -> char {
    if d < 10 {
        (48 + d) as char
    } else {
        (87 + d) as char
    }
}

/// A number in base ten.
pub open spec fn decimal(n: nat) -> Seq<char>
    decreases n,
{
    if n < 10 {
        seq![digit(n)]
    } else {
        decimal(n / 10).push(digit(n % 10))
    }
}

/// A number in base sixteen, with lower-case letters.
pub open spec fn hexadecimal(n: nat) -> Seq<char>
    decreases n,
{
    if n < 16 {
        seq![digit(n)]
    } else {
        hexadecimal(n / 16).push(digit(n % 16))
    }
}

/// A byte as two hexadecimal digits.
pub open spec fn hex_byte(b: u8) -> Seq<char> {
    seq![digit(b as nat / 16), digit(b as nat % 16)]
}

/// Bytes as hexadecimal text, two digits to a byte.
pub open spec fn hex_text(data: Seq<u8>) -> Seq<char> {
    Seq::new(
        2 * data.len(),
        |i: int|
            if i % 2 == 0 {
                digit(data[i / 2] as nat / 16)
            } else {
                digit(data[i / 2] as nat % 16)
            },
    )
}

/// The value of a hexadecimal digit in either case.
pub open spec fn digit_value(c: char) -> Option<nat> {
    if '0' <= c <= '9' {
        Some((c as nat - 48) as nat)
    } else if 'a' <= c <= 'f' {
        Some((c as nat - 87) as nat)
    } else if 'A' <= c <= 'F' {
        Some((c as nat - 55) as nat)
    } else {
        None
    }
}

/// Whether `s` is hexadecimal text: an even number of digits in either case.
pub open spec fn is_hex_text(s: Seq<char>) -> bool {
    s.len() % 2 == 0 && forall|i: int| 0 <= i < s.len() ==> digit_value(#[trigger] s[i]) is Some
}

/// The bytes that hexadecimal text spells.
pub open spec fn hex_text_value(s: Seq<char>) -> Seq<u8> {
    Seq::new(
        s.len() / 2,
        |i: int| (16 * digit_value(s[2 * i])->0 + digit_value(s[2 * i + 1])->0) as u8,
    )
}

/// Reading hexadecimal text gives back the bytes it was written from.
pub proof fn law_hex_text_round_trip(data: Seq<u8>)
    ensures
        is_hex_text(hex_text(data)),
        hex_text_value(hex_text(data)) == data,
{
    let t = hex_text(data);
    assert forall|d: nat| d < 16 implies digit_value(#[trigger] digit(d)) == Some(d) by {}
    assert forall|i: int| 0 <= i < t.len() implies digit_value(#[trigger] t[i]) is Some by {
        let b = data[i / 2] as nat;
        assert(b / 16 < 16);
    }
    assert forall|i: int| 0 <= i < data.len() implies #[trigger] hex_text_value(t)[i]
        == data[i] by {
        let b = data[i] as nat;
        assert((2 * i) / 2 == i && (2 * i + 1) / 2 == i && (2 * i) % 2 == 0 && (2 * i + 1) % 2
            == 1);
        assert(t[2 * i] == digit(b / 16));
        assert(t[2 * i + 1] == digit(b % 16));
        assert(b / 16 < 16);
        assert(16 * (b / 16) + b % 16 == b);
    }
    assert(hex_text_value(t) =~= data);
}

/// One letter in lower case, if it is an ASCII letter.
pub open spec fn ascii_lower(c: char) -> char {
    if 'A' <= c <= 'Z' {
        (c as nat + 32) as char
    } else {
        c
    }
}

/// Text in lower case, as far as it is ASCII.
pub open spec fn ascii_lower_text(s: Seq<char>) -> Seq<char> {
    s.map_values(|c: char| ascii_lower(c))
}

/// An optional string as its value.
pub open spec fn optional_text(s: Option<String>) -> Option<Seq<char>> {
    match s {
        Some(t) => Some(t@),
        None => None,
    }
}

/// A result as its value: the bytes, or the text of the error.
pub open spec fn bytes_result(r: Result<Vec<u8>, String>) -> Result<Seq<u8>, Seq<char>> {
    match r {
        Ok(v) => Ok(v@),
        Err(e) => Err(e@),
    }
}

/// A result as its value: success, or the text of the error.
pub open spec fn unit_result(r: Result<(), String>) -> Result<(), Seq<char>> {
    match r {
        Ok(_) => Ok(()),
        Err(e) => Err(e@),
    }
}

/// What bytes that are not UTF-8 are shown as, with replacement characters.
pub uninterp spec fn utf8_replaced(data: Seq<u8>) -> Seq<char>;

/// What bytes are shown as: decoded, if they are UTF-8, else with replacement characters.
pub open spec fn shown_text(data: Seq<u8>) -> Seq<char> {
    if vstd::utf8::valid_utf8(data) {
        vstd::utf8::decode_utf8(data)
    } else {
        utf8_replaced(data)
    }
}

/// `String::from_utf8_lossy`: valid UTF-8 is decoded as it is. What becomes of other bytes is
/// named [`utf8_replaced`].
#[verifier::external_body]
pub(crate) fn lossy_text(data: &[u8]) -> (r: String)
    ensures
        vstd::utf8::valid_utf8(data@) ==> r@ == vstd::utf8::decode_utf8(data@),
        !vstd::utf8::valid_utf8(data@) ==> r@ == utf8_replaced(data@),
{
    String::from_utf8_lossy(data).to_string()
}

/// `std::str::from_utf8`: the text that bytes encode, where they are UTF-8.
#[verifier::external_body]
pub(crate) fn utf8_text(data: &[u8]) -> (r: Option<String>)
    ensures
        (r is Some) == vstd::utf8::valid_utf8(data@),
        r matches Some(t) ==> t@ == vstd::utf8::decode_utf8(data@),
{
    std::str::from_utf8(data).ok().map(|t| t.to_string())
}

/// Text that goes through bytes is shown as it was written.
pub proof fn law_text_is_shown(t: Seq<char>)
    ensures
        shown_text(vstd::utf8::encode_utf8(t)) == t,
{
    vstd::utf8::encode_utf8_valid_utf8(t);
    vstd::utf8::encode_utf8_decode_utf8(t);
}

fn digit_text(d: u8) -> (r: &'static str)
    requires
        d < 16,
    ensures
        r@ == seq![digit(d as nat)],
{
    proof {
        reveal_strlit("0");
        reveal_strlit("1");
        reveal_strlit("2");
        reveal_strlit("3");
        reveal_strlit("4");
        reveal_strlit("5");
        reveal_strlit("6");
        reveal_strlit("7");
        reveal_strlit("8");
        reveal_strlit("9");
        reveal_strlit("a");
        reveal_strlit("b");
        reveal_strlit("c");
        reveal_strlit("d");
        reveal_strlit("e");
        reveal_strlit("f");
    }
    let r = match d {
        0 => "0",
        1 => "1",
        2 => "2",
        3 => "3",
        4 => "4",
        5 => "5",
        6 => "6",
        7 => "7",
        8 => "8",
        9 => "9",
        10 => "a",
        11 => "b",
        12 => "c",
        13 => "d",
        14 => "e",
        _ => "f",
    };
    assert(r@ =~= seq![digit(d as nat)]);
    r
}

/// Writes a number in base ten.
pub fn decimal_text(n: u64) -> (r: String)
    ensures
        r@ == decimal(n as nat),
    decreases n,
{
    if n < 10 {
        digit_text(n as u8).to_string()
    } else {
        let mut r = decimal_text(n / 10);
        r.append(digit_text((n % 10) as u8));
        assert(r@ =~= decimal(n as nat));
        r
    }
}

/// Writes a short number in base ten.
pub fn short_decimal_text(n: u16) -> (r: String)
    ensures
        r@ == decimal(n as nat),
{
    decimal_text(n as u64)
}

/// Writes a number in base sixteen.
pub fn hexadecimal_text(n: u64) -> (r: String)
    ensures
        r@ == hexadecimal(n as nat),
    decreases n,
{
    if n < 16 {
        digit_text(n as u8).to_string()
    } else {
        let mut r = hexadecimal_text(n / 16);
        r.append(digit_text((n % 16) as u8));
        assert(r@ =~= hexadecimal(n as nat));
        r
    }
}

/// Writes a byte as two hexadecimal digits.
pub fn hex_byte_text(b: u8) -> (r: String)
    ensures
        r@ == hex_byte(b),
{
    let mut r = digit_text(b / 16).to_string();
    r.append(digit_text(b % 16));
    assert(r@ =~= hex_byte(b));
    r
}

/// Joins two texts.
pub fn join2(a: &str, b: &str) -> (r: String)
    ensures
        r@ == a@ + b@,
{
    let mut r = a.to_string();
    r.append(b);
    r
}

/// Joins three texts.
pub fn join3(a: &str, b: &str, c: &str) -> (r: String)
    ensures
        r@ == a@ + b@ + c@,
{
    let mut r = a.to_string();
    r.append(b);
    r.append(c);
    r
}

/// Joins four texts.
pub fn join4(a: &str, b: &str, c: &str, d: &str) -> (r: String)
    ensures
        r@ == a@ + b@ + c@ + d@,
{
    let mut r = a.to_string();
    r.append(b);
    r.append(c);
    r.append(d);
    r
}

/// Whether a text starts with another.
pub fn starts_with(s: &str, prefix: &str) -> (r: bool)
    ensures
        r == prefix@.is_prefix_of(s@),
{
    let n: usize = prefix.unicode_len();
    if s.unicode_len() < n {
        return false;
    }
    let mut i: usize = 0;
    while i < n
        invariant
            i <= n,
            n == prefix@.len(),
            n <= s@.len(),
            forall|j: int| 0 <= j < i ==> prefix@[j] == s@[j],
        decreases n - i,
    {
        if s.get_char(i) != prefix.get_char(i) {
            assert(s@.take(n as int)[i as int] != prefix@[i as int]);
            return false;
        }
        i = i + 1;
    }
    assert(prefix@ =~= s@.take(n as int));
    true
}

/// The code of a letter in lower case, if it is an ASCII letter.
pub fn lower_code(c: char) -> (r: u32)
    ensures
        r == ascii_lower(c) as u32,
{
    let code: u32 = c as u32;
    if 65 <= code && code <= 90 {
        code + 32
    } else {
        code
    }
}

/// Whether two texts are the same, letting ASCII letters differ in case.
pub fn same_ignoring_case(a: &str, b: &str) -> (r: bool)
    ensures
        r == (ascii_lower_text(a@) == ascii_lower_text(b@)),
{
    let n: usize = a.unicode_len();
    if b.unicode_len() != n {
        assert(ascii_lower_text(a@).len() != ascii_lower_text(b@).len());
        return false;
    }
    let mut i: usize = 0;
    while i < n
        invariant
            i <= n,
            n == a@.len(),
            n == b@.len(),
            forall|j: int| 0 <= j < i ==> ascii_lower(a@[j]) == ascii_lower(b@[j]),
        decreases n - i,
    {
        if lower_code(a.get_char(i)) != lower_code(b.get_char(i)) {
            assert(ascii_lower_text(a@)[i as int] != ascii_lower_text(b@)[i as int]);
            return false;
        }
        i = i + 1;
    }
    assert(ascii_lower_text(a@) =~= ascii_lower_text(b@));
    true
}

/// The sixteen digits.
pub proof fn law_digits(d: nat)
    requires
        d < 16,
    ensures
        digit(d) == "0123456789abcdef"@[d as int],
        digit_value("0123456789abcdef"@[d as int]) == Some(d),
        digit_value("0123456789ABCDEF"@[d as int]) == Some(d),
{
    reveal_strlit("0123456789abcdef");
    reveal_strlit("0123456789ABCDEF");
}

/// Only those are digits, in either case.
pub proof fn law_nothing_else_is_a_digit(c: char)
    ensures
        digit_value(c) matches Some(d) ==> d < 16 && (c == "0123456789abcdef"@[d as int] || c
            == "0123456789ABCDEF"@[d as int]),
{
    reveal_strlit("0123456789abcdef");
    reveal_strlit("0123456789ABCDEF");
}

/// A number below ten is one digit; behind the digits of any other number stands one more digit
/// for what it is ten times as much, and so much more.
pub proof fn law_decimal_digits(n: nat, d: nat)
    requires
        d < 10,
    ensures
        decimal(d) == seq!["0123456789"@[d as int]],
        n > 0 ==> decimal(10 * n + d) == decimal(n) + seq!["0123456789"@[d as int]],
{
    reveal_strlit("0123456789");
    assert(decimal(d) =~= seq!["0123456789"@[d as int]]);
    if n > 0 {
        assert((10 * n + d) / 10 == n && (10 * n + d) % 10 == d);
        assert(decimal(10 * n + d) =~= decimal(n) + seq!["0123456789"@[d as int]]);
    }
}

/// The same in base sixteen, without leading zeros.
pub proof fn law_hexadecimal_digits(n: nat, d: nat)
    requires
        d < 16,
    ensures
        hexadecimal(d) == seq!["0123456789abcdef"@[d as int]],
        n > 0 ==> hexadecimal(16 * n + d) == hexadecimal(n) + seq!["0123456789abcdef"@[d as int]],
{
    reveal_strlit("0123456789abcdef");
    assert(hexadecimal(d) =~= seq!["0123456789abcdef"@[d as int]]);
    if n > 0 {
        assert((16 * n + d) / 16 == n && (16 * n + d) % 16 == d);
        assert(hexadecimal(16 * n + d) =~= hexadecimal(n) + seq!["0123456789abcdef"@[d as int]]);
    }
}

/// A byte is written as its high digit and its low digit, and bytes one after another.
pub proof fn law_hex_digits(data: Seq<u8>, i: int)
    requires
        0 <= i < data.len(),
    ensures
        hex_text(data).len() == 2 * data.len(),
        hex_text(data)[2 * i] == "0123456789abcdef"@[data[i] as int / 16],
        hex_text(data)[2 * i + 1] == "0123456789abcdef"@[data[i] as int % 16],
        hex_byte(data[i]) == hex_text(data).subrange(2 * i, 2 * i + 2),
{
    let b = data[i] as nat;
    law_digits(b / 16);
    law_digits(b % 16);
    assert((2 * i) / 2 == i && (2 * i + 1) / 2 == i && (2 * i) % 2 == 0 && (2 * i + 1) % 2 == 1);
    assert(hex_byte(data[i]) =~= hex_text(data).subrange(2 * i, 2 * i + 2));
}

/// Text is read as hexadecimal if and only if it has an even number of digits and nothing else; each
/// two digits are a byte, the high one first.
pub proof fn law_hex_is_read_by_pairs(s: Seq<char>)
    ensures
        is_hex_text(s) <==> s.len() % 2 == 0 && forall|i: int|
            0 <= i < s.len() ==> digit_value(#[trigger] s[i]) is Some,
        is_hex_text(s) ==> hex_text_value(s).len() == s.len() / 2,
        is_hex_text(s) ==> forall|i: int|
            0 <= i < s.len() / 2 ==> #[trigger] hex_text_value(s)[i] == 16 * digit_value(
                s[2 * i],
            )->0 + digit_value(s[2 * i + 1])->0,
{
    if is_hex_text(s) {
        assert forall|i: int| 0 <= i < s.len() / 2 implies #[trigger] hex_text_value(s)[i] == 16
            * digit_value(s[2 * i])->0 + digit_value(s[2 * i + 1])->0 by {
            law_nothing_else_is_a_digit(s[2 * i]);
            law_nothing_else_is_a_digit(s[2 * i + 1]);
        }
    }
}

/// Only the 26 capital ASCII letters change, each to its small letter.
pub proof fn law_lower_case(c: char, i: int)
    requires
        0 <= i < 26,
    ensures
        ascii_lower("ABCDEFGHIJKLMNOPQRSTUVWXYZ"@[i]) == "abcdefghijklmnopqrstuvwxyz"@[i],
        c < 'A' || 'Z' < c ==> ascii_lower(c) == c,
{
    reveal_strlit("ABCDEFGHIJKLMNOPQRSTUVWXYZ");
    reveal_strlit("abcdefghijklmnopqrstuvwxyz");
}

/// What is not UTF-8 is shown as `String::from_utf8_lossy` shows it, and what is, as it decodes.
pub proof fn law_bytes_are_shown(data: Seq<u8>)
    ensures
        vstd::utf8::valid_utf8(data) ==> shown_text(data) == vstd::utf8::decode_utf8(data),
        !vstd::utf8::valid_utf8(data) ==> shown_text(data) == utf8_replaced(data),
{
}

} // verus!
