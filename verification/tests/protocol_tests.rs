use drcom::config::Config;
use drcom::protocol::{checksum, dump, keep_alive1_packet, keep_alive_package_builder, logout, md5sum, mkpkt, ror};

fn unhex(s: &str) -> Vec<u8> {
    let compact: String = s.chars().filter(|c| !c.is_whitespace()).collect();
    (0..compact.len())
        .step_by(2)
        .map(|i| u8::from_str_radix(&compact[i..i + 2], 16).unwrap())
        .collect()
}

fn to_hex(b: &[u8]) -> String {
    b.iter().map(|x| format!("{x:02x}")).collect()
}

fn test_config() -> Config {
    Config {
        server: "10.100.61.3".to_string(),
        username: "testuser".to_string(),
        password: "testpass123".to_string(),
        host_ip: "192.168.1.100".to_string(),
        mac: "AA:BB:CC:DD:EE:FF".to_string(),
        host_name: "TESTPC".to_string(),
        primary_dns: "10.10.10.10".to_string(),
        dhcp_server: "0.0.0.0".to_string(),
        ..Config::default()
    }
}

#[test]
fn md5_and_dump() {
    assert_eq!(to_hex(&md5sum(b"hello")), "5d41402abc4b2a76b9719d911017c592");
    assert_eq!(to_hex(&dump(0)), "00");
    assert_eq!(to_hex(&dump(255)), "ff");
    assert_eq!(to_hex(&dump(256)), "0100");
}

#[test]
fn checksum_matches_python() {
    assert_eq!(to_hex(&checksum(b"abcdefgh")), "206dc65e");
}

#[test]
fn mkpkt_matches_python() {
    let cfg = test_config();
    let salt: [u8; 4] = [0x11, 0x22, 0x33, 0x44];
    let packet = mkpkt(&salt, b"testuser", b"testpass123", 0xAABBCCDDEEFF, &cfg).unwrap();

    let expected = "0301001ccd5aacb5b263c2e2a9df3e163af1e8d3746573747573657200000000000000000000000000000000000000000000000000000000200367e160685c9c6d805acc4d5b804226e38e74e141f78b01c0a80164000000000000000000000000258d55c6a51b2a7f010000000054455354504300000000000000000000000000000000000000000000000000000a0a0a0a00000000000000000000000000000000940000000600000002000000f0230000020000004472434f4d00cf076800000000000000000000000000000000000000000000000000000000000000000000000000000000000000000000000000000000000000336463373966353231326538313730616366613965633935663164373439313635343262653762310000000000000000000000000000000000000000000000006800000bcdf9fe0e16108d8cc46f68020c8001217d0000aabbccddeeff000060a200000000000000000000000000000000000000000000000000000000";

    assert_eq!(to_hex(&packet), to_hex(&unhex(expected)));
}

#[test]
fn keep_alive_builder_matches_python() {
    let cfg = test_config();
    let host_ip = cfg.parse_ip(&cfg.host_ip).unwrap();
    let kav = cfg.parse_hex(&cfg.keep_alive_version).unwrap();

    let ka1 = keep_alive_package_builder(0, &[], &[0u8; 4], 1, true, host_ip, &kav);
    assert_eq!(
        to_hex(&ka1),
        "070028000b010f272f12000000000000000000000000000000000000000000000000000000000000"
    );

    let ka3 = keep_alive_package_builder(5, &[], &[1, 2, 3, 4], 3, false, host_ip, &kav);
    assert_eq!(
        to_hex(&ka3),
        "070528000b03dc022f12000000000000010203040000000000000000c0a801640000000000000000"
    );
}

#[test]
fn ror_rotates_xor_left_by_three() {
    // 0x01 ^ 0x00 = 0x01 -> 0x08; 0xff ^ 0x0f = 0xf0 -> 0x87
    assert_eq!(ror(&[0x01, 0xff], &[0x00, 0x0f]), vec![0x08, 0x87]);
}

#[test]
fn logout_packet_layout() {
    let cfg = test_config();
    let (packet, reply_cmd) = logout(b"user", 0xAABBCCDDEEFF, &cfg).unwrap();
    assert_eq!(reply_cmd, 0x04);
    let mut expected = vec![0x06, 0x01, 0x00, 24];
    expected.extend_from_slice(&[0u8; 16]);
    expected.extend_from_slice(b"user");
    expected.extend_from_slice(&[0u8; 32]);
    expected.extend_from_slice(&[0x20, 0x03]);
    expected.extend_from_slice(&[0xaa, 0xbb, 0xcc, 0xdd, 0xee, 0xff]);
    assert_eq!(packet, expected);
}

#[test]
fn packet_lengths() {
    let cfg = test_config();
    let packet = mkpkt(&[0x11, 0x22, 0x33, 0x44], b"testuser", b"testpass123", 0xAABBCCDDEEFF, &cfg).unwrap();
    // 279 fixed + 36 + 32 + 1 + 1 + 1 + 2 + 11 + 6 + 11 / 4
    assert_eq!(packet.len(), 371);
    assert_eq!(keep_alive1_packet(&[1, 2, 3, 4], b"pw", &[0; 16], 99).len(), 42);
}

#[test]
fn checksum_tail_and_block_order() {
    // without 0x0A bytes the last len % 4 bytes do not matter
    assert_eq!(checksum(b"abcdefghXYZ"), checksum(b"abcdefgh"));
    // and whole blocks may be exchanged
    assert_eq!(checksum(b"efghabcd"), checksum(b"abcdefgh"));
    // a 0x0A byte realigns the scan
    assert_eq!(checksum(b"ab\ncdefgh"), checksum(b"cdef"));
}
