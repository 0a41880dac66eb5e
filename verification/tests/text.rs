use control_plane::text::{append_decimal, append_hex};

fn decimal(n: u64) -> String {
    let mut text = String::new();
    append_decimal(&mut text, n);
    text
}

fn hex(n: u16) -> String {
    let mut text = String::new();
    append_hex(&mut text, n);
    text
}

#[test]
fn decimal_text() {
    assert_eq!(decimal(0), "0");
    assert_eq!(decimal(7), "7");
    assert_eq!(decimal(10), "10");
    assert_eq!(decimal(123), "123");
    assert_eq!(decimal(65535), "65535");
    assert_eq!(decimal(1_000_000_007), "1000000007");
    assert_eq!(decimal(u64::MAX), "18446744073709551615");
}

#[test]
fn hexadecimal_text() {
    assert_eq!(hex(0), "0");
    assert_eq!(hex(9), "9");
    assert_eq!(hex(10), "a");
    assert_eq!(hex(15), "f");
    assert_eq!(hex(16), "10");
    assert_eq!(hex(0x0101), "101");
    assert_eq!(hex(0xabcd), "abcd");
    assert_eq!(hex(0xffff), "ffff");
}

#[test]
fn text_is_appended_to_what_is_there() {
    let mut text = String::from("port ");
    append_decimal(&mut text, 443);
    text.push_str(" group ");
    append_hex(&mut text, 0xfe80);
    assert_eq!(text, "port 443 group fe80");
}
