use drcom::config::Config;
use drcom::store::{
    conceal_password, key_from_mac, reveal_password, xor_hex_decode, xor_hex_encode, PlainConfig, StoreError,
};

#[test]
fn xor_round_trip() {
    let key = b"CC28AA1A1ED1";
    let plain = b"secret-password";
    let hex = xor_hex_encode(plain, key);
    assert_eq!(xor_hex_decode(&hex, key).unwrap(), plain);
}

#[test]
fn xor_encoding_is_lowercase_hex() {
    assert_eq!(xor_hex_encode(&[0x00, 0xff], &[0x0f]), "0ff0");
    assert_eq!(xor_hex_decode("0FF0", &[0x0f]), Ok(vec![0x00, 0xff]));
    assert_eq!(xor_hex_decode("0ff", &[0x0f]), Err(StoreError::OddHexLength));
    assert_eq!(xor_hex_decode("0g", &[0x0f]), Err(StoreError::InvalidHex));
}

#[test]
fn key_from_mac_cases() {
    assert_eq!(key_from_mac(Some("AA:BB-CC")), Ok(b"AABBCC".to_vec()));
    assert_eq!(key_from_mac(None), Err(StoreError::MissingMac));
    assert_eq!(key_from_mac(Some(":-:")), Err(StoreError::EmptyMac));
}

#[test]
fn conceal_then_reveal() {
    let mut cfg = Config::default();
    cfg.server = "10.100.61.3".to_string();
    cfg.password = "p@ss 密码".to_string();
    cfg.mac = "AA:BB:CC:DD:EE:FF".to_string();
    let fields = PlainConfig::from(&cfg);
    let stored = conceal_password(&fields).unwrap();
    assert_ne!(stored.password, fields.password);
    assert_eq!(stored.server, fields.server);
    let back = reveal_password(&stored).unwrap();
    assert_eq!(back.password, fields.password);
    assert_eq!(back.mac, fields.mac);
    assert_eq!(back.is_test, Some(true));
}

#[test]
fn conceal_needs_mac_for_password() {
    let fields = PlainConfig { password: Some("x".to_string()), ..PlainConfig::default() };
    assert_eq!(conceal_password(&fields).unwrap_err(), StoreError::MissingMac);
    let empty = PlainConfig { password: Some(String::new()), ..PlainConfig::default() };
    assert_eq!(conceal_password(&empty).unwrap().password, Some(String::new()));
    let none = PlainConfig::default();
    assert_eq!(reveal_password(&none).unwrap().password, None);
}

#[test]
fn reveal_rejects_non_utf8() {
    // 0xff ^ 'A'(0x41) = 0xbe, a lone continuation byte
    let fields = PlainConfig {
        password: Some("be".to_string()),
        mac: Some("A".to_string()),
        ..PlainConfig::default()
    };
    assert_eq!(reveal_password(&fields).unwrap_err(), StoreError::InvalidPasswordEncoding);
}
