//! A datagram echo service: what comes in goes back with the time of day in front.

use crate::text;
use crate::wire;
use vstd::prelude::*;

verus! {

/// A number below 100 in two decimal digits.
pub open spec fn two_digits(n: nat) -> Seq<char> {
    seq![text::digit(n / 10), text::digit(n % 10)]
}

/// A number below 1000 in three decimal digits.
pub open spec fn three_digits(n: nat) -> Seq<char> {
    seq![text::digit(n / 100), text::digit(n / 10 % 10), text::digit(n % 10)]
}

/// The time of day (UTC) at a time in milliseconds since the epoch, as `hh:mm:ss.mmm`.
pub open spec fn time_of_day(time_ms: nat) -> Seq<char> {
    let secs = time_ms / 1000;
    two_digits(secs / 3600 % 24) + ":"@ + two_digits(secs % 3600 / 60) + ":"@ + two_digits(
        secs % 60,
    ) + "."@ + three_digits(time_ms % 1000)
}

fn push_digit(out: &mut String, d: u8)
    requires
        d < 10,
    ensures
        final(out)@ == old(out)@.push(text::digit(d as nat)),
{
    let digit = text::decimal_text(d as u64);
    assert(digit@ =~= seq![text::digit(d as nat)]) by {
        reveal_with_fuel(text::decimal, 2);
    }
    out.append(digit.as_str());
    assert(old(out)@ + digit@ =~= old(out)@.push(text::digit(d as nat)));
}

fn push_two_digits(out: &mut String, n: u64)
    requires
        n < 100,
    ensures
        final(out)@ == old(out)@ + two_digits(n as nat),
{
    push_digit(out, (n / 10) as u8);
    push_digit(out, (n % 10) as u8);
    assert(out@ =~= old(out)@ + two_digits(n as nat));
}

/// The time of day (UTC) at a time in milliseconds since the epoch.
pub fn time_of_day_text(time_ms: u64) -> (r: String)
    ensures
        r@ == time_of_day(time_ms as nat),
{
    let secs: u64 = time_ms / 1000;
    let ms: u64 = time_ms % 1000;
    let mut r = String::new();
    push_two_digits(&mut r, (secs / 3600) % 24);
    r.append(":");
    push_two_digits(&mut r, (secs % 3600) / 60);
    r.append(":");
    push_two_digits(&mut r, secs % 60);
    r.append(".");
    let ghost head = r@;
    push_digit(&mut r, (ms / 100) as u8);
    push_digit(&mut r, (ms / 10 % 10) as u8);
    push_digit(&mut r, (ms % 10) as u8);
    assert(r@ =~= head + three_digits(ms as nat));
    assert(r@ =~= time_of_day(time_ms as nat));
    r
}

/// Cheap wall-clock timestamp.
pub fn chrono_lite_now() -> (r: String)
    ensures
        exists|now: nat| now <= u64::MAX && r@ == #[trigger] time_of_day(now),
{
    let now: u64 = wire::current_time_ms();
    assert(time_of_day(now as nat) == time_of_day(now as nat));
    time_of_day_text(now)
}

/// A datagram as text, if it is UTF-8.
pub open spec fn payload_text(datagram: Seq<u8>) -> Seq<char> {
    if vstd::utf8::valid_utf8(datagram) {
        vstd::utf8::decode_utf8(datagram)
    } else {
        "<invalid utf-8>"@
    }
}

/// A datagram as it is shown: its text, or a fixed placeholder where it is not UTF-8.
pub fn shown_payload(datagram: &[u8]) -> (r: String)
    ensures
        r@ == payload_text(datagram@),
{
    match text::utf8_text(datagram) {
        Some(t) => t,
        None => "<invalid utf-8>".to_string(),
    }
}

/// What a datagram is answered with, at a time of day.
pub fn reply_to(datagram: &[u8], now: &str) -> (r: String)
    ensures
        r@ == "["@ + now@ + "] server says: "@ + payload_text(datagram@),
{
    let payload = shown_payload(datagram);
    text::join4("[", now, "] server says: ", payload.as_str())
}

/// The number that two digits spell.
pub open spec fn spelled2(a: char, b: char) -> int {
    10 * (a as int - '0' as int) + (b as int - '0' as int)
}

/// The twelve characters of a time of day spell hours below 24, minutes and seconds below 60 and
/// milliseconds, which together are how far the time lies behind midnight.
pub proof fn law_time_of_day_is_since_midnight(time_ms: nat)
    ensures
        ({
            let t = time_of_day(time_ms);
            let h = spelled2(t[0], t[1]);
            let m = spelled2(t[3], t[4]);
            let s = spelled2(t[6], t[7]);
            let ms = 100 * (t[9] as int - '0' as int) + spelled2(t[10], t[11]);
            &&& t.len() == 12
            &&& t[2] == ':' && t[5] == ':' && t[8] == '.'
            &&& 0 <= h < 24 && 0 <= m < 60 && 0 <= s < 60 && 0 <= ms < 1000
            &&& 3_600_000 * h + 60_000 * m + 1000 * s + ms == time_ms % 86_400_000
        }),
        forall|i: int|
            0 <= i < 12 && i != 2 && i != 5 && i != 8 ==> '0' <= #[trigger] time_of_day(time_ms)[i]
                <= '9',
{
    reveal_strlit(":");
    reveal_strlit(".");
    let t = time_of_day(time_ms);
    let secs = time_ms / 1000;
    let h = secs / 3600 % 24;
    let m = secs % 3600 / 60;
    let s = secs % 60;
    let ms = time_ms % 1000;
    assert(t =~= seq![
        text::digit(h / 10),
        text::digit(h % 10),
        ':',
        text::digit(m / 10),
        text::digit(m % 10),
        ':',
        text::digit(s / 10),
        text::digit(s % 10),
        '.',
        text::digit(ms / 100),
        text::digit(ms / 10 % 10),
        text::digit(ms % 10),
    ]);
    assert(secs % 86_400 == 3600 * h + secs % 3600);
    assert(secs % 3600 == 60 * m + s);
    assert(time_ms % 86_400_000 == 1000 * (secs % 86_400) + ms);
}

/// A datagram that is UTF-8 is shown as its text, and any other as a placeholder.
pub proof fn law_payload_is_shown(datagram: Seq<u8>, t: Seq<char>)
    ensures
        payload_text(vstd::utf8::encode_utf8(t)) == t,
        !vstd::utf8::valid_utf8(datagram) ==> payload_text(datagram) == "<invalid utf-8>"@,
{
    vstd::utf8::encode_utf8_valid_utf8(t);
    vstd::utf8::encode_utf8_decode_utf8(t);
}

} // verus!
