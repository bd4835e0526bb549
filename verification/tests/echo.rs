use fips_browser::echo;

#[test]
fn times_of_day() {
    assert_eq!(echo::time_of_day_text(0), "00:00:00.000");
    assert_eq!(echo::time_of_day_text(86_399_999), "23:59:59.999");
    assert_eq!(echo::time_of_day_text(86_400_000), "00:00:00.000");
    assert_eq!(echo::time_of_day_text(1_700_000_000_123), "22:13:20.123");
    let now = echo::chrono_lite_now();
    assert_eq!(now.len(), 12);
    assert_eq!(&now[2..3], ":");
    assert_eq!(&now[8..9], ".");
}

#[test]
fn replies() {
    assert_eq!(
        echo::reply_to("gr\u{fc}\u{df}".as_bytes(), "01:02:03.004"),
        "[01:02:03.004] server says: gr\u{fc}\u{df}"
    );
    assert_eq!(
        echo::reply_to(&[0xff, 0xfe], "x"),
        "[x] server says: <invalid utf-8>"
    );
    assert_eq!(echo::reply_to(b"", "x"), "[x] server says: ");
}

#[test]
fn shown_payloads() {
    assert_eq!(echo::shown_payload("gr\u{fc}\u{df}".as_bytes()), "gr\u{fc}\u{df}");
    assert_eq!(echo::shown_payload(b""), "");
    assert_eq!(echo::shown_payload(&[b'a', 0xff]), "<invalid utf-8>");
}
