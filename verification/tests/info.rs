//! Tests of host ids and runtime info.

use heph_rt::info::{from_hex, from_hex_byte, from_hex_hyphenated, host_id_from, HostIdError, Info, Uuid};

#[test]
fn uuid_to_string_is_32_lower_case_hex_digits() {
    assert_eq!(Uuid(0).to_string(), "00000000000000000000000000000000");
    assert_eq!(Uuid(0xABCDEF).to_string(), "00000000000000000000000000abcdef");
    assert_eq!(Uuid(u128::MAX).to_string(), "ffffffffffffffffffffffffffffffff");
}

#[test]
fn uuid_round_trip() {
    for value in [0u128, 1, 0x1234_5678_9abc_def0_0fed_cba9_8765_4321, u128::MAX] {
        let text = Uuid(value).to_string();
        assert_eq!(from_hex(text.as_bytes()), Ok(Uuid(value)));
    }
}

#[test]
fn hex_bytes() {
    assert_eq!(from_hex_byte(b'0'), Ok(0));
    assert_eq!(from_hex_byte(b'9'), Ok(9));
    assert_eq!(from_hex_byte(b'a'), Ok(10));
    assert_eq!(from_hex_byte(b'F'), Ok(15));
    assert_eq!(from_hex_byte(b'g'), Err(()));
    assert_eq!(from_hex_byte(b'-'), Err(()));
}

#[test]
fn parse_upper_and_lower_case() {
    assert_eq!(from_hex(b"000000000000000000000000000000AB"), Ok(Uuid(0xab)));
    assert_eq!(from_hex(b"000000000000000000000000000000ab"), Ok(Uuid(0xab)));
    assert_eq!(from_hex(b"00000000000000000000000000000x00"), Err(()));
}

#[test]
fn parse_hyphenated() {
    assert_eq!(
        from_hex_hyphenated(b"12345678-9abc-def0-0fed-cba987654321"),
        Ok(Uuid(0x1234_5678_9abc_def0_0fed_cba9_8765_4321))
    );
    // Trailing data after a hyphen is fine.
    assert_eq!(
        from_hex_hyphenated(b"12345678-9abc-def0-0fed-cba987654321-extra"),
        Ok(Uuid(0x1234_5678_9abc_def0_0fed_cba9_8765_4321))
    );
    // Missing hyphens are not.
    assert_eq!(from_hex_hyphenated(b"12345678_9abc-def0-0fed-cba987654321"), Err(()));
    assert_eq!(from_hex_hyphenated(b"12345678-9abc-def0-0fed-cba987654321x"), Err(()));
    // Nor are non hex digits.
    assert_eq!(from_hex_hyphenated(b"1234567g-9abc-def0-0fed-cba987654321"), Err(()));
}

#[test]
fn host_id_errors() {
    let buf = *b"0123456789abcdef0123456789abcdef";
    assert_eq!(host_id_from(&buf, 32), Ok(Uuid(0x0123456789abcdef0123456789abcdef)));
    assert_eq!(host_id_from(&buf, 31), Err(HostIdError::ShortRead(31)));
    assert_eq!(host_id_from(&buf, 0), Err(HostIdError::ShortRead(0)));
    let buf = *b"0123456789abcdef0123456789abcdeX";
    assert_eq!(host_id_from(&buf, 32), Err(HostIdError::NotHex));
}

#[test]
fn info_from_uname() {
    let info = Info::new(
        "my_app".to_string(),
        "Linux",
        "6.1.0",
        "#1 SMP",
        "my_host".to_string(),
        Uuid(7),
    );
    assert_eq!(info.host_os(), "GNU/Linux");
    assert_eq!(info.host_release(), "Linux 6.1.0 #1 SMP");
    assert_eq!(info.host_name(), "my_host");
    assert_eq!(info.app_name(), "my_app");
    assert_eq!(info.host_id(), Uuid(7));
}
