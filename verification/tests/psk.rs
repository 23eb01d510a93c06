use mqttsn_client::psk::{decode_psk_key, pack_client_identity};

#[test]
fn decodes_hex_keys_of_either_case() {
    assert_eq!(decode_psk_key("0a1B"), Some(vec![0x0a, 0x1b]));
    assert_eq!(decode_psk_key("DEADbeef"), Some(vec![0xde, 0xad, 0xbe, 0xef]));
    assert_eq!(decode_psk_key(""), Some(vec![]));
}

#[test]
fn rejects_odd_length_and_non_digits() {
    assert_eq!(decode_psk_key("abc"), None);
    assert_eq!(decode_psk_key("zz"), None);
    assert_eq!(decode_psk_key("0 1"), None);
}

#[test]
fn packs_an_identity_with_its_terminator() {
    assert_eq!(pack_client_identity("abc"), Some(vec![b'a', b'b', b'c', 0]));
    assert_eq!(pack_client_identity(""), Some(vec![0]));
}

#[test]
fn rejects_an_identity_with_an_interior_zero() {
    assert_eq!(pack_client_identity("a\0b"), None);
}
