use drcom::config::{
    default_adapter_num, default_auth_version, default_bind_ip, default_control_check_status,
    default_dhcp_server, default_host_name, default_ip_dog, default_is_test, default_keep_alive_version,
    default_primary_dns, default_unlimited_retry, parse_hex_str, parse_ipv4, Config, ConfigError,
};

fn with_mac(mac: &str) -> Config {
    Config { mac: mac.to_string(), ..Config::default() }
}

#[test]
fn mac_forms_agree() {
    let a = with_mac("AA:BB:CC:DD:EE:FF").parse_mac().unwrap();
    let b = with_mac("AA-BB-CC-DD-EE-FF").parse_mac().unwrap();
    let c = with_mac("AABBCCDDEEFF").parse_mac().unwrap();
    assert_eq!(a, 0xAABBCCDDEEFF);
    assert_eq!(a, b);
    assert_eq!(a, c);
}

#[test]
fn mac_rejects_bad_input() {
    assert_eq!(with_mac("").parse_mac(), Err(ConfigError::InvalidMac));
    assert_eq!(with_mac("::").parse_mac(), Err(ConfigError::InvalidMac));
    assert_eq!(with_mac("GG:00:00:00:00:00").parse_mac(), Err(ConfigError::InvalidMac));
    assert_eq!(with_mac("1:0000:0000:0000:0000").parse_mac(), Err(ConfigError::InvalidMac));
    assert_eq!(with_mac("+ab").parse_mac(), Err(ConfigError::InvalidMac));
    assert_eq!(with_mac("-ab").parse_mac(), Ok(0xab));
    assert_eq!(with_mac("FFFFFFFFFFFFFFFF").parse_mac(), Err(ConfigError::InvalidMac));
    assert_eq!(with_mac("1:00:00:00:00:00:00").parse_mac(), Err(ConfigError::InvalidMac));
    assert_eq!(with_mac("FF:FF:FF:FF:FF:FF").parse_mac(), Ok(0xFFFF_FFFF_FFFF));
    assert_eq!(with_mac("ab").parse_mac(), Ok(0xab));
}

#[test]
fn ip_parsing() {
    let cfg = Config::default();
    assert_eq!(cfg.parse_ip("192.168.1.100"), Ok([192, 168, 1, 100]));
    assert_eq!(cfg.parse_ip("1.2"), Err(ConfigError::InvalidIp));
    assert_eq!(cfg.parse_ip("1.2.3"), Err(ConfigError::InvalidIp));
    assert_eq!(cfg.parse_ip("1.2.3.256"), Err(ConfigError::InvalidIp));
    assert_eq!(cfg.parse_ip("0.0.0.0"), Ok([0, 0, 0, 0]));
    assert_eq!(cfg.parse_ip("+1.02.3.4"), Ok([1, 2, 3, 4]));
    assert_eq!(cfg.parse_ip("1.2.3.4.5"), Err(ConfigError::InvalidIp));
    assert_eq!(cfg.parse_ip("256.0.0.1"), Err(ConfigError::InvalidIp));
    assert_eq!(cfg.parse_ip(""), Err(ConfigError::InvalidIp));
    assert_eq!(cfg.parse_ip("1..2"), Err(ConfigError::InvalidIp));
    assert_eq!(parse_ipv4("10.10.10.10"), Ok([10, 10, 10, 10]));
}

#[test]
fn hex_parsing() {
    let cfg = Config::default();
    assert_eq!(cfg.parse_hex("68 00"), Ok(vec![0x68, 0x00]));
    assert_eq!(cfg.parse_hex("dc 02"), Ok(vec![0xdc, 0x02]));
    assert_eq!(cfg.parse_hex(" D c\t0 2 "), Ok(vec![0xdc, 0x02]));
    assert_eq!(cfg.parse_hex(""), Ok(vec![]));
    assert_eq!(cfg.parse_hex("abc"), Err(ConfigError::OddHexLength));
    assert_eq!(cfg.parse_hex("zz"), Err(ConfigError::InvalidHex));
    assert_eq!(cfg.parse_hex("+a"), Err(ConfigError::InvalidHex));
    assert_eq!(cfg.parse_hex("+f"), Err(ConfigError::InvalidHex));
    assert_eq!(cfg.parse_hex("aéa"), Err(ConfigError::InvalidHex));
    assert_eq!(cfg.parse_hex("€a"), Err(ConfigError::InvalidHex));
    assert_eq!(cfg.parse_hex("a€"), Err(ConfigError::InvalidHex));
    assert_eq!(cfg.parse_hex("aé"), Err(ConfigError::OddHexLength));
    assert_eq!(cfg.parse_hex("-a"), Err(ConfigError::InvalidHex));
    assert_eq!(parse_hex_str("é"), Err(ConfigError::InvalidHex));
    assert_eq!(parse_hex_str("\u{3000}20"), Ok(vec![0x20]));
}

#[test]
fn defaults() {
    assert_eq!(default_host_name(), "YOURPCNAME");
    assert_eq!(default_primary_dns(), "10.10.10.10");
    assert_eq!(default_dhcp_server(), "0.0.0.0");
    assert_eq!(default_bind_ip(), "0.0.0.0");
    assert_eq!(default_control_check_status(), "20");
    assert_eq!(default_adapter_num(), "03");
    assert_eq!(default_ip_dog(), "01");
    assert_eq!(default_auth_version(), "68 00");
    assert_eq!(default_keep_alive_version(), "dc 02");
    assert!(default_is_test());
    assert!(default_unlimited_retry());
    let d = Config::default();
    assert_eq!(d.server, "");
    assert_eq!(d.keep_alive_version, "dc 02");
}

#[test]
fn ip_round_trip_examples() {
    let cfg = Config::default();
    for (a, b, c, d) in [(192u8, 168u8, 1u8, 100u8), (0, 0, 0, 0), (255, 255, 255, 255), (10, 9, 100, 1)] {
        assert_eq!(cfg.parse_ip(&format!("{a}.{b}.{c}.{d}")), Ok([a, b, c, d]));
    }
}
