use eth_indexer::render::{bytes_to_address, bytes_to_hex, bytes_to_u256, u64_to_decimal};

fn address_bytes() -> Vec<u8> {
    // 0xd8da6bf26964af9d7eed9e03e53415d37aa96045
    vec![
        0xd8, 0xda, 0x6b, 0xf2, 0x69, 0x64, 0xaf, 0x9d, 0x7e, 0xed, 0x9e, 0x03, 0xe5, 0x34, 0x15,
        0xd3, 0x7a, 0xa9, 0x60, 0x45,
    ]
}

#[test]
fn hex_is_lowercase_and_prefixed() {
    assert_eq!(bytes_to_hex(&[0x01, 0xab]), "0x01ab");
    assert_eq!(bytes_to_hex(&[]), "0x");
    assert_eq!(bytes_to_hex(&[0x00, 0xff]), "0x00ff");
}

#[test]
fn address_of_twenty_bytes_is_checksummed() {
    let rendered = bytes_to_address(&address_bytes());
    assert_eq!(rendered, "0xd8dA6BF26964aF9D7eEd9e03E53415D37aA96045");
}

#[test]
fn address_of_a_word_uses_its_low_twenty_bytes() {
    let mut word = vec![0u8; 12];
    word.extend_from_slice(&address_bytes());
    let rendered = bytes_to_address(&word);
    assert_eq!(rendered, "0xd8dA6BF26964aF9D7eEd9e03E53415D37aA96045");
}

#[test]
fn address_of_odd_length_reports_the_length_and_hex() {
    let rendered = bytes_to_address(&[0xab, 0xcd, 0xef]);
    assert_eq!(rendered, "<invalid address length 3: 0xabcdef>");
}

#[test]
fn amount_renders_in_decimal() {
    assert_eq!(bytes_to_u256(&[0x01, 0x00]), "256");
    assert_eq!(bytes_to_u256(&[]), "0");
    assert_eq!(bytes_to_u256(&[0x00]), "0");
    assert_eq!(bytes_to_u256(&[0xde, 0xad, 0xbe, 0xef]), "3735928559");
    let full = [0xffu8; 32];
    assert_eq!(
        bytes_to_u256(&full),
        "115792089237316195423570985008687907853269984665640564039457584007913129639935"
    );
}

#[test]
fn overlong_amount_reports_the_hex() {
    let long = [0x11u8; 33];
    let rendered = bytes_to_u256(&long);
    assert!(rendered.starts_with("<invalid u256: 0x1111"));
    assert!(rendered.ends_with(">"));
}

#[test]
fn decimal_rendering_of_plain_numbers() {
    assert_eq!(u64_to_decimal(0), "0");
    assert_eq!(u64_to_decimal(7), "7");
    assert_eq!(u64_to_decimal(1234567890), "1234567890");
    assert_eq!(u64_to_decimal(u64::MAX), "18446744073709551615");
}
