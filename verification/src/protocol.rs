//! Dr.COM protocol packets.

use vstd::prelude::*;
use md5::{Digest, Md5};
use vstd::utf8::encode_utf8;
use crate::bytes::{append_bytes, append_fit6, append_padded, append_zeros, fit6, pad_right, zeros};
use crate::config::{hex_field, ip_field, Config, ConfigError};

verus! {

/// Minimal big-endian bytes of `n`; `0` is the single byte `00`.
pub open spec fn dump_spec(n: nat) -> Seq<u8>
    decreases n,
{
    if n < 256 {
        seq![n as u8]
    } else {
        dump_spec(n / 256).push((n % 256) as u8)
    }
}

/// Converts an integer into its shortest even-length hex byte string, i.e. its
/// minimal big-endian bytes: `0 -> [00]`, `255 -> [ff]`, `256 -> [01, 00]`.
pub fn dump(n: u64) -> (r: Vec<u8>)
    ensures
        r@ == dump_spec(n as nat),
{
    let mut out: Vec<u8> = Vec::new();
    let mut m: u64 = n;
    while m >= 256
        invariant
            dump_spec(n as nat) == dump_spec(m as nat) + out@,
        decreases m,
    {
        let b: u8 = (m % 256) as u8;
        let ghost old_out = out@;
        out.insert(0, b);
        proof {
            assert(dump_spec(m as nat) == dump_spec((m / 256) as nat).push(b));
            assert(dump_spec((m / 256) as nat).push(b) + old_out =~= dump_spec((m / 256) as nat) + out@);
        }
        m = m / 256;
    }
    let ghost old_out = out@;
    out.insert(0, m as u8);
    proof {
        assert(dump_spec(m as nat) == seq![m as u8]);
        assert(seq![m as u8] + old_out =~= out@);
    }
    out
}


/// The MD5 digest of `data`, as the `md-5` crate computes it.
pub uninterp spec fn md5_spec(data: Seq<u8>) -> Seq<u8>;

/// `Md5::digest` of the `md-5` crate: the result is the MD5 digest of
/// `data`, named by [`md5_spec`]. Its length, 16, is that of the array type.
#[verifier::external_body]
fn md5_digest(data: &[u8]) -> (d: [u8; 16])
    ensures
        d@ == md5_spec(data@),
{
    Md5::digest(data).into()
}

/// The MD5 digest of `data`.
pub fn md5sum(data: &[u8]) -> (d: [u8; 16])
    ensures
        d@ == md5_spec(data@),
{
    md5_digest(data)
}

/// `x` rotated left by three bits.
pub open spec fn rotl3(x: u8) -> u8 {
    (x << 3u8) | (x >> 5u8)
}

/// The password obfuscation: byte `i` is `md5[i] ^ pwd[i]` rotated left by three bits.
pub open spec fn ror_spec(md5: Seq<u8>, pwd: Seq<u8>) -> Seq<u8> {
    Seq::new(pwd.len(), |i: int| rotl3(md5[i] ^ pwd[i]))
}

/// Dr.COM password obfuscation (`ror`). `md5` must be at
/// least as long as `pwd`.
pub fn ror(md5: &[u8], pwd: &[u8]) -> (r: Vec<u8>)
    requires
        md5@.len() >= pwd@.len(),
    ensures
        r@ == ror_spec(md5@, pwd@),
{
    let mut r: Vec<u8> = Vec::new();
    let mut i: usize = 0;
    while i < pwd.len()
        invariant
            i <= pwd@.len() <= md5@.len(),
            r@ == ror_spec(md5@, pwd@).take(i as int),
        decreases pwd@.len() - i,
    {
        let x: u8 = md5[i] ^ pwd[i];
        let hi: u8 = (x << 3u8) & 0xFF;
        let lo: u8 = x >> 5u8;
        assert(hi as int + lo as int <= 255 && hi + lo == ((x << 3u8) | (x >> 5u8))) by (bit_vector)
            requires
                hi == (x << 3u8) & 0xFF,
                lo == x >> 5u8,
        ;
        r.push(hi + lo);
        assert(r@ =~= ror_spec(md5@, pwd@).take(i + 1));
        i = i + 1;
    }
    r
}

/// Little-endian `u32` read at `p`.
pub open spec fn le_word(d: Seq<u8>, p: int) -> u32 {
    (d[p] as u32) | ((d[p + 1] as u32) << 8u32) | ((d[p + 2] as u32) << 16u32) | ((d[p + 3] as u32) << 24u32)
}

/// One of the four bytes at `p` is `0x0A`.
pub open spec fn window_has_newline(d: Seq<u8>, p: int) -> bool {
    d[p] == 0x0A || d[p + 1] == 0x0A || d[p + 2] == 0x0A || d[p + 3] == 0x0A
}

/// XOR of the little-endian words that `re.findall(b'....', d[p..])` yields:
/// the scan takes four bytes at a time, but a window holding `0x0A` (which
/// the regex `.` does not match) moves the scan one byte instead.
pub open spec fn xor_words(d: Seq<u8>, p: int) -> u32
    decreases d.len() - p,
{
    if p < 0 || p + 4 > d.len() {
        0
    } else if window_has_newline(d, p) {
        xor_words(d, p + 1)
    } else {
        le_word(d, p) ^ xor_words(d, p + 4)
    }
}

/// Little-endian bytes of `x`.
pub open spec fn u32_le(x: u32) -> Seq<u8> {
    seq![x as u8, (x >> 8u32) as u8, (x >> 16u32) as u8, (x >> 24u32) as u8]
}

/// The Dr.COM checksum: `1968 * (1234 ^ words)` modulo 2^32, little-endian.
pub open spec fn checksum_spec(d: Seq<u8>) -> Seq<u8> {
    u32_le(((1968 * (1234u32 ^ xor_words(d, 0)) as int) % 0x1_0000_0000) as u32)
}

/// Little-endian bytes of `x`.
fn u32_to_le(x: u32) -> (r: [u8; 4])
    ensures
        r@ == u32_le(x),
{
    let r = [x as u8, (x >> 8u32) as u8, (x >> 16u32) as u8, (x >> 24u32) as u8];
    assert(r@ =~= u32_le(x));
    r
}

/// Dr.COM packet checksum, including its realignment on `0x0A` bytes
/// (see [`xor_words`]).
pub fn checksum(data: &[u8]) -> (r: [u8; 4])
    ensures
        r@ == checksum_spec(data@),
{
    let mut ret: u32 = 1234;
    let mut pos: usize = 0;
    let n = data.len();
    while n >= 4 && pos <= n - 4
        invariant
            n == data@.len(),
            pos <= n,
            1234u32 ^ xor_words(data@, 0) == ret ^ xor_words(data@, pos as int),
        decreases n - pos,
    {
        if data[pos] == 0x0A || data[pos + 1] == 0x0A || data[pos + 2] == 0x0A || data[pos + 3] == 0x0A {
            pos = pos + 1;
        } else {
            let w: u32 = (data[pos] as u32) | ((data[pos + 1] as u32) << 8u32) | ((data[pos + 2] as u32) << 16u32)
                | ((data[pos + 3] as u32) << 24u32);
            let ghost rest = xor_words(data@, pos + 4);
            assert(w == le_word(data@, pos as int));
            assert(ret ^ (w ^ rest) == (ret ^ w) ^ rest) by (bit_vector);
            ret = ret ^ w;
            pos = pos + 4;
        }
    }
    assert(xor_words(data@, pos as int) == 0);
    assert(ret ^ 0u32 == ret) by (bit_vector);
    let v: u32 = 1968u32.wrapping_mul(ret);
    u32_to_le(v)
}

/// A keep-alive packet.
pub open spec fn keep_alive_spec(
    number: u8,
    tail: Seq<u8>,
    pkg_type: u8,
    first: bool,
    host_ip: Seq<u8>,
    keep_alive_version: Seq<u8>,
) -> Seq<u8> {
    seq![0x07u8, number, 0x28, 0x00, 0x0b, pkg_type]
        + (if first { seq![0x0fu8, 0x27] } else { keep_alive_version })
        + seq![0x2fu8, 0x12]
        + zeros(6)
        + tail
        + zeros(4)
        + (if pkg_type == 3 { zeros(4) + host_ip + zeros(8) } else { zeros(16) })
}

/// Builds a keep-alive packet. The random bytes are not part of the packet.
pub fn keep_alive_package_builder(
    number: u8,
    _random: &[u8],
    tail: &[u8],
    pkg_type: u8,
    first: bool,
    host_ip: [u8; 4],
    keep_alive_version: &[u8],
) -> (r: Vec<u8>)
    ensures
        r@ == keep_alive_spec(number, tail@, pkg_type, first, host_ip@, keep_alive_version@),
{
    let mut data: Vec<u8> = Vec::new();
    data.push(0x07);
    data.push(number);
    data.push(0x28);
    data.push(0x00);
    data.push(0x0b);
    data.push(pkg_type);
    let ghost head = data@;
    if first {
        data.push(0x0f);
        data.push(0x27);
    } else {
        append_bytes(&mut data, keep_alive_version);
    }
    let ghost with_version = data@;
    assert(with_version == head + (if first { seq![0x0fu8, 0x27] } else { keep_alive_version@ }));
    data.push(0x2f);
    data.push(0x12);
    assert(data@ =~= with_version + seq![0x2fu8, 0x12]);
    append_zeros(&mut data, 6);
    append_bytes(&mut data, tail);
    append_zeros(&mut data, 4);
    let ghost body = data@;
    if pkg_type == 3 {
        append_zeros(&mut data, 4);
        append_bytes(&mut data, host_ip.as_slice());
        append_zeros(&mut data, 8);
        assert(data@ =~= body + (zeros(4) + host_ip@ + zeros(8)));
    } else {
        append_zeros(&mut data, 16);
    }
    assert(head =~= seq![0x07u8, number, 0x28, 0x00, 0x0b, pkg_type]);
    assert(data@ =~= keep_alive_spec(number, tail@, pkg_type, first, host_ip@, keep_alive_version@));
    data
}


/// The length byte of a login or logout header: the username length plus 20,
/// truncated to a byte.
pub open spec fn header_len_byte(usr: Seq<u8>) -> u8 {
    ((usr.len() + 20) % 256) as u8
}

/// A logout packet: the login header with command `0x06` and a zeroed
/// digest, then the username, the control and adapter bytes and the MAC.
pub open spec fn logout_spec(usr: Seq<u8>, mac: u64, ccs: Seq<u8>, adapter: Seq<u8>) -> Seq<u8> {
    seq![0x06u8, 0x01, 0x00, header_len_byte(usr)]
        + zeros(16)
        + pad_right(usr, 36)
        + ccs
        + adapter
        + fit6(dump_spec(mac as nat))
}

/// What [`logout`] returns for a configuration: the first field that cannot
/// be read gives the error.
pub open spec fn logout_result(usr: Seq<u8>, mac: u64, config: Config) -> Result<Seq<u8>, ConfigError> {
    match hex_field(config.control_check_status@) {
        Err(e) => Err(e),
        Ok(ccs) => match hex_field(config.adapter_num@) {
            Err(e) => Err(e),
            Ok(adapter) => Ok(logout_spec(usr, mac, ccs, adapter)),
        },
    }
}

/// The command byte with which the server answers a logout it accepts: `04`,
/// the success code it also answers a login with.
pub open spec fn logout_reply_cmd() -> u8 {
    0x04
}

/// The view of a [`logout`] result: the packet and the expected reply command.
pub open spec fn logout_view(r: Result<(Vec<u8>, u8), ConfigError>) -> Result<(Seq<u8>, u8), ConfigError> {
    match r {
        Ok((p, cmd)) => Ok((p@, cmd)),
        Err(e) => Err(e),
    }
}

/// What [`logout`] returns: the packet of [`logout_result`] with the expected
/// reply command, or its error.
pub open spec fn logout_answer(usr: Seq<u8>, mac: u64, config: Config) -> Result<(Seq<u8>, u8), ConfigError> {
    match logout_result(usr, mac, config) {
        Ok(p) => Ok((p, logout_reply_cmd())),
        Err(e) => Err(e),
    }
}

/// The low byte of `n`.
fn low_byte(n: usize) -> (b: u8)
    ensures
        b == (n % 256) as u8,
{
    (n % 256) as u8
}

/// The login/logout header length byte.
fn header_len(usr: &[u8]) -> (b: u8)
    ensures
        b == header_len_byte(usr@),
{
    let l: u8 = low_byte(usr.len());
    let b: u8 = l.wrapping_add(20);
    assert(b == ((usr@.len() + 20) % 256) as u8);
    b
}

/// Builds the logout packet, returned with the command byte of the reply the
/// server is expected to answer with.
pub fn logout(usr: &[u8], mac: u64, config: &Config) -> (r: Result<(Vec<u8>, u8), ConfigError>)
    ensures
        logout_view(r) == logout_answer(usr@, mac, *config),
{
    let ccs = match config.parse_hex(config.control_check_status.as_str()) {
        Ok(v) => v,
        Err(e) => return Err(e),
    };
    let adapter = match config.parse_hex(config.adapter_num.as_str()) {
        Ok(v) => v,
        Err(e) => return Err(e),
    };
    let mut data: Vec<u8> = Vec::new();
    data.push(0x06);
    data.push(0x01);
    data.push(0x00);
    data.push(header_len(usr));
    let ghost head = data@;
    append_zeros(&mut data, 16);
    append_padded(&mut data, usr, 36);
    append_bytes(&mut data, ccs.as_slice());
    append_bytes(&mut data, adapter.as_slice());
    let mac_bytes = dump(mac);
    append_fit6(&mut data, &mac_bytes);
    assert(head =~= seq![0x06u8, 0x01, 0x00, header_len_byte(usr@)]);
    assert(data@ =~= logout_spec(usr@, mac, ccs@, adapter@));
    Ok((data, 0x04))
}


/// The first login digest: MD5 of `03 01`, the salt and the password.
pub open spec fn md51_spec(salt: Seq<u8>, pwd: Seq<u8>) -> Seq<u8> {
    md5_spec(seq![0x03u8, 0x01] + salt + pwd)
}

/// The big-endian number in the first six bytes of `b`.
pub open spec fn be48(b: Seq<u8>) -> u64 {
    ((b[0] as u64) << 40u64) | ((b[1] as u64) << 32u64) | ((b[2] as u64) << 24u64) | ((b[3] as u64)
        << 16u64) | ((b[4] as u64) << 8u64) | (b[5] as u64)
}

/// The fixed OS and client-identification block of a login packet.
pub open spec fn os_info() -> Seq<u8> {
    seq![
        0x94u8, 0x00, 0x00, 0x00,
        0x06, 0x00, 0x00, 0x00,
        0x02, 0x00, 0x00, 0x00,
        0xf0, 0x23, 0x00, 0x00,
        0x02, 0x00, 0x00, 0x00,
        0x44, 0x72, 0x43, 0x4f, 0x4d, 0x00, 0xcf, 0x07, 0x68,
    ] + zeros(55) + seq![
        0x33u8, 0x64, 0x63, 0x37, 0x39, 0x66, 0x35, 0x32, 0x31, 0x32, 0x65, 0x38, 0x31, 0x37,
        0x30, 0x61, 0x63, 0x66, 0x61, 0x39, 0x65, 0x63, 0x39, 0x35, 0x66, 0x31, 0x64, 0x37,
        0x34, 0x39, 0x31, 0x36, 0x35, 0x34, 0x32, 0x62, 0x65, 0x37, 0x62, 0x31,
    ] + zeros(24)
}

/// A login packet up to the third digest: header, first digest, padded
/// username, control and adapter bytes, MAC masked by the first digest,
/// second digest, address count and host address.
pub open spec fn login_prefix(
    salt: Seq<u8>,
    usr: Seq<u8>,
    pwd: Seq<u8>,
    mac: u64,
    ccs: Seq<u8>,
    adapter: Seq<u8>,
    host_ip: Seq<u8>,
) -> Seq<u8> {
    let md51 = md51_spec(salt, pwd);
    seq![0x03u8, 0x01, 0x00, header_len_byte(usr)]
        + md51
        + pad_right(usr, 36)
        + ccs
        + adapter
        + fit6(dump_spec((be48(md51) ^ mac) as nat))
        + md5_spec(seq![0x01u8] + pwd + salt + zeros(4))
        + seq![0x01u8]
        + host_ip
        + zeros(12)
}

/// A login packet up to the checksum.
pub open spec fn login_body(
    salt: Seq<u8>,
    usr: Seq<u8>,
    pwd: Seq<u8>,
    mac: u64,
    ccs: Seq<u8>,
    adapter: Seq<u8>,
    ip_dog: Seq<u8>,
    auth_version: Seq<u8>,
    host_ip: Seq<u8>,
    primary_dns: Seq<u8>,
    dhcp_server: Seq<u8>,
    host_name: Seq<u8>,
) -> Seq<u8> {
    let prefix = login_prefix(salt, usr, pwd, mac, ccs, adapter, host_ip);
    prefix
        + md5_spec(prefix + seq![0x14u8, 0x00, 0x07, 0x0b]).subrange(0, 8)
        + ip_dog
        + zeros(4)
        + pad_right(host_name, 32)
        + primary_dns
        + dhcp_server
        + zeros(12)
        + os_info()
        + auth_version
        + seq![0x00u8, (pwd.len() % 256) as u8]
        + ror_spec(md51_spec(salt, pwd), pwd)
        + seq![0x02u8, 0x0c]
}

/// A login packet.
pub open spec fn mkpkt_spec(
    salt: Seq<u8>,
    usr: Seq<u8>,
    pwd: Seq<u8>,
    mac: u64,
    ccs: Seq<u8>,
    adapter: Seq<u8>,
    ip_dog: Seq<u8>,
    auth_version: Seq<u8>,
    host_ip: Seq<u8>,
    primary_dns: Seq<u8>,
    dhcp_server: Seq<u8>,
    host_name: Seq<u8>,
) -> Seq<u8> {
    let body = login_body(
        salt, usr, pwd, mac, ccs, adapter, ip_dog, auth_version, host_ip, primary_dns, dhcp_server, host_name,
    );
    body
        + checksum_spec(body + seq![0x01u8, 0x26, 0x07, 0x11, 0x00, 0x00] + dump_spec(mac as nat))
        + seq![0x00u8, 0x00]
        + dump_spec(mac as nat)
        + (if pwd.len() != 16 { zeros(pwd.len() / 4) } else { seq![] })
        + seq![0x60u8, 0xa2]
        + zeros(28)
}

/// What [`mkpkt`] returns for a configuration: the first field that cannot be
/// read gives the error, in the order control status, adapter number, IP dog,
/// authentication version, host address, primary DNS, DHCP server.
pub open spec fn mkpkt_result(salt: Seq<u8>, usr: Seq<u8>, pwd: Seq<u8>, mac: u64, config: Config) -> Result<
    Seq<u8>,
    ConfigError,
> {
    match hex_field(config.control_check_status@) {
        Err(e) => Err(e),
        Ok(ccs) => match hex_field(config.adapter_num@) {
            Err(e) => Err(e),
            Ok(adapter) => match hex_field(config.ip_dog@) {
                Err(e) => Err(e),
                Ok(ip_dog) => match hex_field(config.auth_version@) {
                    Err(e) => Err(e),
                    Ok(auth) => match ip_field(config.host_ip@) {
                        Err(e) => Err(e),
                        Ok(host_ip) => match ip_field(config.primary_dns@) {
                            Err(e) => Err(e),
                            Ok(dns) => match ip_field(config.dhcp_server@) {
                                Err(e) => Err(e),
                                Ok(dhcp) => Ok(
                                    mkpkt_spec(
                                        salt,
                                        usr,
                                        pwd,
                                        mac,
                                        ccs,
                                        adapter,
                                        ip_dog,
                                        auth,
                                        host_ip,
                                        dns,
                                        dhcp,
                                        encode_utf8(config.host_name@),
                                    ),
                                ),
                            },
                        },
                    },
                },
            },
        },
    }
}

/// `n` or the length of `s`, whichever is larger: the length of [`pad_right`].
pub open spec fn padded_len(s: Seq<u8>, n: nat) -> nat {
    if s.len() < n { n } else { s.len() }
}

/// The length of the login packet that [`mkpkt`] builds: 279 fixed bytes, the
/// padded username and host name, the hex fields, the password (and the
/// quarter of its length when it is not 16 bytes) and the MAC bytes.
pub open spec fn mkpkt_len(usr: Seq<u8>, pwd: Seq<u8>, mac: u64, c: Config) -> nat {
    279 + padded_len(usr, 36) + padded_len(encode_utf8(c.host_name@), 32)
        + hex_field(c.control_check_status@)->Ok_0.len() + hex_field(c.adapter_num@)->Ok_0.len()
        + hex_field(c.ip_dog@)->Ok_0.len() + hex_field(c.auth_version@)->Ok_0.len()
        + pwd.len() + dump_spec(mac as nat).len() + (if pwd.len() != 16 { pwd.len() / 4 } else { 0 })
}

/// All login fields of `config` can be read.
pub open spec fn login_fields_ok(config: Config) -> bool {
    &&& hex_field(config.control_check_status@) is Ok
    &&& hex_field(config.adapter_num@) is Ok
    &&& hex_field(config.ip_dog@) is Ok
    &&& hex_field(config.auth_version@) is Ok
    &&& ip_field(config.host_ip@) is Ok
    &&& ip_field(config.primary_dns@) is Ok
    &&& ip_field(config.dhcp_server@) is Ok
}

/// The inputs on which building a login packet panics: every field can be
/// read, but the password is longer than the 16 bytes of the digest that
/// obfuscates it.
pub open spec fn mkpkt_panics(pwd: Seq<u8>, config: Config) -> bool {
    login_fields_ok(config) && pwd.len() > 16
}

/// The fixed OS block of a login packet.
fn append_os_info(v: &mut Vec<u8>)
    ensures
        final(v)@ == old(v)@ + os_info(),
{
    let head: [u8; 29] = [
        0x94, 0x00, 0x00, 0x00,
        0x06, 0x00, 0x00, 0x00,
        0x02, 0x00, 0x00, 0x00,
        0xf0, 0x23, 0x00, 0x00,
        0x02, 0x00, 0x00, 0x00,
        0x44, 0x72, 0x43, 0x4f, 0x4d, 0x00, 0xcf, 0x07, 0x68,
    ];
    let hash: [u8; 40] = [
        0x33, 0x64, 0x63, 0x37, 0x39, 0x66, 0x35, 0x32, 0x31, 0x32, 0x65, 0x38, 0x31, 0x37,
        0x30, 0x61, 0x63, 0x66, 0x61, 0x39, 0x65, 0x63, 0x39, 0x35, 0x66, 0x31, 0x64, 0x37,
        0x34, 0x39, 0x31, 0x36, 0x35, 0x34, 0x32, 0x62, 0x65, 0x37, 0x62, 0x31,
    ];
    append_bytes(v, head.as_slice());
    append_zeros(v, 55);
    append_bytes(v, hash.as_slice());
    append_zeros(v, 24);
    assert(final(v)@ =~= old(v)@ + os_info());
}

/// The big-endian number in the first six bytes of `b`.
fn be48_of(b: &[u8; 16]) -> (r: u64)
    ensures
        r == be48(b@),
{
    ((b[0] as u64) << 40u64) | ((b[1] as u64) << 32u64) | ((b[2] as u64) << 24u64) | ((b[3] as u64)
        << 16u64) | ((b[4] as u64) << 8u64) | (b[5] as u64)
}

/// The login packet up to the third digest (see [`login_prefix`]).
fn build_login_prefix(
    salt: &[u8; 4],
    usr: &[u8],
    pwd: &[u8],
    mac: u64,
    ccs: &[u8],
    adapter: &[u8],
    host_ip: &[u8; 4],
) -> (r: (Vec<u8>, [u8; 16]))
    ensures
        r.0@ == login_prefix(salt@, usr@, pwd@, mac, ccs@, adapter@, host_ip@),
        r.0@.len() == 59 + padded_len(usr@, 36) + ccs@.len() + adapter@.len(),
        r.1@ == md51_spec(salt@, pwd@),
{
    let mut data: Vec<u8> = Vec::new();
    data.push(0x03);
    data.push(0x01);
    data.push(0x00);
    data.push(header_len(usr));

    let mut md51_input: Vec<u8> = Vec::new();
    md51_input.push(0x03);
    md51_input.push(0x01);
    append_bytes(&mut md51_input, salt.as_slice());
    append_bytes(&mut md51_input, pwd);
    assert(md51_input@ =~= seq![0x03u8, 0x01] + salt@ + pwd@);
    let md51 = md5sum(md51_input.as_slice());
    append_bytes(&mut data, md51.as_slice());
    append_padded(&mut data, usr, 36);
    append_bytes(&mut data, ccs);
    append_bytes(&mut data, adapter);

    let xor_val: u64 = be48_of(&md51) ^ mac;
    let xor_bytes = dump(xor_val);
    append_fit6(&mut data, &xor_bytes);

    let mut md52_input: Vec<u8> = Vec::new();
    md52_input.push(0x01);
    append_bytes(&mut md52_input, pwd);
    append_bytes(&mut md52_input, salt.as_slice());
    append_zeros(&mut md52_input, 4);
    assert(md52_input@ =~= seq![0x01u8] + pwd@ + salt@ + zeros(4));
    let md52 = md5sum(md52_input.as_slice());
    append_bytes(&mut data, md52.as_slice());

    data.push(0x01);
    append_bytes(&mut data, host_ip.as_slice());
    append_zeros(&mut data, 12);
    assert(data@ =~= login_prefix(salt@, usr@, pwd@, mac, ccs@, adapter@, host_ip@));
    (data, md51)
}

/// Appends the first eight bytes of the third digest, taken over `data` and `14 00 07 0b`.
fn append_md53(data: &mut Vec<u8>)
    ensures
        final(data)@ == old(data)@ + md5_spec(old(data)@ + seq![0x14u8, 0x00, 0x07, 0x0b]).subrange(0, 8),
        final(data)@.len() == old(data)@.len() + 8,
{
    let mut md53_input: Vec<u8> = Vec::new();
    append_bytes(&mut md53_input, data.as_slice());
    md53_input.push(0x14);
    md53_input.push(0x00);
    md53_input.push(0x07);
    md53_input.push(0x0b);
    assert(md53_input@ =~= old(data)@ + seq![0x14u8, 0x00, 0x07, 0x0b]);
    let md53 = md5sum(md53_input.as_slice());
    let mut k: usize = 0;
    while k < 8
        invariant
            k <= 8,
            md53@.len() == 16,
            data@ == old(data)@ + md53@.subrange(0, k as int),
        decreases 8 - k,
    {
        data.push(md53[k]);
        assert(data@ =~= old(data)@ + md53@.subrange(0, k + 1));
        k = k + 1;
    }
}

/// The login packet up to the checksum (see [`login_body`]).
fn build_login_body(
    salt: &[u8; 4],
    usr: &[u8],
    pwd: &[u8],
    mac: u64,
    ccs: &[u8],
    adapter: &[u8],
    ip_dog: &[u8],
    auth_version: &[u8],
    host_ip: &[u8; 4],
    primary_dns: &[u8; 4],
    dhcp_server: &[u8; 4],
    host_name: &[u8],
) -> (r: Vec<u8>)
    requires
        pwd@.len() <= 16,
    ensures
        r@ == login_body(
            salt@,
            usr@,
            pwd@,
            mac,
            ccs@,
            adapter@,
            ip_dog@,
            auth_version@,
            host_ip@,
            primary_dns@,
            dhcp_server@,
            host_name@,
        ),
        r@.len() == 243 + padded_len(usr@, 36) + padded_len(host_name@, 32) + ccs@.len() + adapter@.len()
            + ip_dog@.len() + auth_version@.len() + pwd@.len(),
{
    let (mut data, md51) = build_login_prefix(salt, usr, pwd, mac, ccs, adapter, host_ip);
    let ghost prefix = data@;
    append_md53(&mut data);
    append_bytes(&mut data, ip_dog);
    append_zeros(&mut data, 4);
    append_padded(&mut data, host_name, 32);
    append_bytes(&mut data, primary_dns.as_slice());
    append_bytes(&mut data, dhcp_server.as_slice());
    append_zeros(&mut data, 12);
    append_os_info(&mut data);
    append_bytes(&mut data, auth_version);
    let ghost before_len = data@;
    data.push(0x00);
    data.push(low_byte(pwd.len()));
    assert(data@ =~= before_len + seq![0x00u8, (pwd@.len() % 256) as u8]);
    let ror_data = ror(md51.as_slice(), pwd);
    append_bytes(&mut data, ror_data.as_slice());
    let ghost before_end = data@;
    data.push(0x02);
    data.push(0x0c);
    assert(data@ =~= before_end + seq![0x02u8, 0x0c]);
    assert(data@ =~= login_body(
        salt@,
        usr@,
        pwd@,
        mac,
        ccs@,
        adapter@,
        ip_dog@,
        auth_version@,
        host_ip@,
        primary_dns@,
        dhcp_server@,
        host_name@,
    ));
    data
}

/// Appends the checksum, the MAC and the trailer to a login body.
fn append_login_trailer(data: &mut Vec<u8>, pwd: &[u8], mac: u64)
    ensures
        final(data)@ == old(data)@ + checksum_spec(old(data)@ + seq![0x01u8, 0x26, 0x07, 0x11, 0x00, 0x00] + dump_spec(mac as nat))
            + seq![0x00u8, 0x00] + dump_spec(mac as nat) + (if pwd@.len() != 16 { zeros(pwd@.len() / 4) } else { seq![] })
            + seq![0x60u8, 0xa2] + zeros(28),
        final(data)@.len() == old(data)@.len() + 36 + dump_spec(mac as nat).len()
            + (if pwd@.len() != 16 { pwd@.len() / 4 } else { 0 }),
{
    let mac_bytes = dump(mac);
    let mut checksum_input: Vec<u8> = Vec::new();
    append_bytes(&mut checksum_input, data.as_slice());
    checksum_input.push(0x01);
    checksum_input.push(0x26);
    checksum_input.push(0x07);
    checksum_input.push(0x11);
    checksum_input.push(0x00);
    checksum_input.push(0x00);
    append_bytes(&mut checksum_input, mac_bytes.as_slice());
    assert(checksum_input@ =~= old(data)@ + seq![0x01u8, 0x26, 0x07, 0x11, 0x00, 0x00] + dump_spec(mac as nat));
    let chk = checksum(checksum_input.as_slice());
    append_bytes(data, chk.as_slice());
    data.push(0x00);
    data.push(0x00);
    append_bytes(data, mac_bytes.as_slice());
    let ghost before_pad = data@;
    if pwd.len() != 16 {
        append_zeros(data, pwd.len() / 4);
    }
    assert(data@ =~= before_pad + (if pwd@.len() != 16 { zeros(pwd@.len() / 4) } else { seq![] }));
    let ghost before_end = data@;
    data.push(0x60);
    data.push(0xa2);
    assert(data@ =~= before_end + seq![0x60u8, 0xa2]);
    append_zeros(data, 28);
}

/// Builds the login packet.
pub fn mkpkt(salt: &[u8; 4], usr: &[u8], pwd: &[u8], mac: u64, config: &Config) -> (r: Result<
    Vec<u8>,
    ConfigError,
>)
    requires
        !mkpkt_panics(pwd@, *config),
    ensures
        crate::config::vec_view(r) == mkpkt_result(salt@, usr@, pwd@, mac, *config),
        r matches Ok(p) ==> p@.len() == mkpkt_len(usr@, pwd@, mac, *config),
{
    let control_check_status = match config.parse_hex(config.control_check_status.as_str()) {
        Ok(v) => v,
        Err(e) => return Err(e),
    };
    let adapter_num = match config.parse_hex(config.adapter_num.as_str()) {
        Ok(v) => v,
        Err(e) => return Err(e),
    };
    let ip_dog = match config.parse_hex(config.ip_dog.as_str()) {
        Ok(v) => v,
        Err(e) => return Err(e),
    };
    let auth_version = match config.parse_hex(config.auth_version.as_str()) {
        Ok(v) => v,
        Err(e) => return Err(e),
    };
    let host_ip = match config.parse_ip(config.host_ip.as_str()) {
        Ok(v) => v,
        Err(e) => return Err(e),
    };
    let primary_dns = match config.parse_ip(config.primary_dns.as_str()) {
        Ok(v) => v,
        Err(e) => return Err(e),
    };
    let dhcp_server = match config.parse_ip(config.dhcp_server.as_str()) {
        Ok(v) => v,
        Err(e) => return Err(e),
    };
    let host_name = config.host_name.as_str().as_bytes();
    assert(login_fields_ok(*config));
    let mut data = build_login_body(
        salt,
        usr,
        pwd,
        mac,
        control_check_status.as_slice(),
        adapter_num.as_slice(),
        ip_dog.as_slice(),
        auth_version.as_slice(),
        &host_ip,
        &primary_dns,
        &dhcp_server,
        host_name,
    );
    append_login_trailer(&mut data, pwd, mac);
    Ok(data)
}


/// A challenge request: `01 02`, the low 16 bits of `seed` little-endian,
/// `09` and fifteen zero bytes.
pub open spec fn challenge_spec(seed: u64) -> Seq<u8> {
    seq![0x01u8, 0x02, (seed as u16) as u8, ((seed as u16) >> 8u16) as u8, 0x09] + zeros(15)
}

/// Builds the challenge request.
pub fn challenge_packet(seed: u64) -> (r: Vec<u8>)
    ensures
        r@ == challenge_spec(seed),
{
    let s: u16 = seed as u16;
    let mut data: Vec<u8> = Vec::new();
    data.push(0x01);
    data.push(0x02);
    data.push(s as u8);
    data.push((s >> 8u16) as u8);
    data.push(0x09);
    append_zeros(&mut data, 15);
    assert(data@ =~= challenge_spec(seed));
    data
}

/// The salt of a challenge reply: bytes 4 to 8.
pub open spec fn salt_spec(d: Seq<u8>) -> Seq<u8> {
    d.subrange(4, 8)
}

/// Reads the salt from a challenge reply.
pub fn challenge_salt(data: &[u8]) -> (salt: [u8; 4])
    requires
        data@.len() >= 8,
    ensures
        salt@ == salt_spec(data@),
{
    let salt = [data[4], data[5], data[6], data[7]];
    assert(salt@ =~= salt_spec(data@));
    salt
}

/// The session tail of a login reply: bytes 23 to 39, or zeros when the reply
/// is shorter.
pub open spec fn login_tail_spec(d: Seq<u8>) -> Seq<u8> {
    if d.len() >= 39 {
        d.subrange(23, 39)
    } else {
        zeros(16)
    }
}

/// Reads the session tail from a login reply.
pub fn login_tail(data: &[u8]) -> (tail: [u8; 16])
    ensures
        tail@ == login_tail_spec(data@),
{
    let mut tail = [0u8; 16];
    if data.len() >= 39 {
        let mut k: usize = 0;
        while k < 16
            invariant
                k <= 16,
                data@.len() >= 39,
                tail@.len() == 16,
                forall|j: int| 0 <= j < k ==> tail@[j] == data@[23 + j],
                forall|j: int| k <= j < 16 ==> tail@[j] == 0u8,
            decreases 16 - k,
        {
            tail.set(k, data[23 + k]);
            k = k + 1;
        }
        assert(tail@ =~= login_tail_spec(data@));
    } else {
        assert(tail@ =~= zeros(16));
    }
    tail
}

/// The keep-alive tail after a reply: bytes 16 to 20 of a reply of at least
/// 20 bytes, otherwise the previous tail.
pub open spec fn reply_tail_spec(d: Seq<u8>, tail: Seq<u8>) -> Seq<u8> {
    if d.len() >= 20 {
        d.subrange(16, 20)
    } else {
        tail
    }
}

/// Reads the keep-alive tail from a reply.
pub fn reply_tail(data: &[u8], tail: [u8; 4]) -> (r: [u8; 4])
    ensures
        r@ == reply_tail_spec(data@, tail@),
{
    if data.len() >= 20 {
        let r = [data[16], data[17], data[18], data[19]];
        assert(r@ =~= data@.subrange(16, 20));
        r
    } else {
        tail
    }
}

/// A reply that starts with the keep-alive command byte `07`.
pub open spec fn is_keep_alive_reply(d: Seq<u8>) -> bool {
    d.len() > 0 && d[0] == 0x07
}

/// The two-byte big-endian timestamp of a first-stage keep-alive:
/// `(now as u16) % 0xFFFF`.
pub open spec fn stamp_spec(now: u64) -> Seq<u8> {
    let t: u16 = ((now as u16) % 0xFFFFu16) as u16;
    seq![(t >> 8u16) as u8, t as u8]
}

/// A first-stage keep-alive: `ff`, the first login digest, three zeros, the
/// session tail, the timestamp and four zeros.
pub open spec fn keep_alive1_spec(salt: Seq<u8>, pwd: Seq<u8>, package_tail: Seq<u8>, now: u64) -> Seq<u8> {
    seq![0xffu8] + md51_spec(salt, pwd) + zeros(3) + package_tail + stamp_spec(now) + zeros(4)
}

/// Builds the first-stage keep-alive packet.
pub fn keep_alive1_packet(salt: &[u8; 4], pwd: &[u8], package_tail: &[u8; 16], now: u64) -> (r: Vec<u8>)
    ensures
        r@ == keep_alive1_spec(salt@, pwd@, package_tail@, now),
        r@.len() == 42,
{
    let t: u16 = (now as u16) % 0xFFFFu16;
    let mut md_input: Vec<u8> = Vec::new();
    md_input.push(0x03);
    md_input.push(0x01);
    append_bytes(&mut md_input, salt.as_slice());
    append_bytes(&mut md_input, pwd);
    assert(md_input@ =~= seq![0x03u8, 0x01] + salt@ + pwd@);
    let digest = md5sum(md_input.as_slice());
    let mut data: Vec<u8> = Vec::new();
    data.push(0xff);
    append_bytes(&mut data, digest.as_slice());
    append_zeros(&mut data, 3);
    append_bytes(&mut data, package_tail.as_slice());
    data.push((t >> 8u16) as u8);
    data.push(t as u8);
    append_zeros(&mut data, 4);
    assert(data@ =~= keep_alive1_spec(salt@, pwd@, package_tail@, now));
    data
}


/// The number that big-endian bytes stand for.
pub open spec fn be_value(s: Seq<u8>) -> nat
    decreases s.len(),
{
    if s.len() == 0 {
        0
    } else {
        be_value(s.drop_last()) * 256 + s.last() as nat
    }
}

/// `dump` is the shortest big-endian encoding: its bytes stand for `n`, and
/// its first byte is zero only for `n == 0`.
pub proof fn lemma_dump_minimal(n: nat)
    ensures
        be_value(dump_spec(n)) == n,
        dump_spec(n).len() >= 1,
        dump_spec(n)[0] == 0 <==> n == 0,
    decreases n,
{
    if n >= 256 {
        lemma_dump_minimal(n / 256);
        let d = dump_spec(n);
        assert(d.drop_last() =~= dump_spec(n / 256));
        assert(d[0] == dump_spec(n / 256)[0]);
    } else {
        assert(be_value(seq![n as u8].drop_last()) == 0);
    }
}

/// XOR of the little-endian words of `d` taken four bytes at a time from `p`.
pub open spec fn xor_fixed_words(d: Seq<u8>, p: int) -> u32
    decreases d.len() - p,
{
    if p < 0 || p + 4 > d.len() {
        0
    } else {
        le_word(d, p) ^ xor_fixed_words(d, p + 4)
    }
}

/// Without `0x0A` bytes, the checksum scan is the plain four-byte grouping.
pub proof fn lemma_checksum_plain_grouping(d: Seq<u8>, p: int)
    requires
        0 <= p,
        forall|i: int| 0 <= i < d.len() ==> d[i] != 0x0A,
    ensures
        xor_words(d, p) == xor_fixed_words(d, p),
    decreases d.len() - p,
{
    if p + 4 <= d.len() {
        assert(!window_has_newline(d, p));
        lemma_checksum_plain_grouping(d, p + 4);
    }
}

/// `d` with its four-byte blocks number `a` and `b` exchanged.
pub open spec fn swap_blocks(d: Seq<u8>, a: nat, b: nat) -> Seq<u8> {
    Seq::new(d.len(), |i: int|
        if 4 * a <= i < 4 * a + 4 {
            d[i - 4 * a + 4 * b]
        } else if 4 * b <= i < 4 * b + 4 {
            d[i - 4 * b + 4 * a]
        } else {
            d[i]
        }
    )
}

/// The plain grouping from block `j` on only sees the first `4 * (d.len() / 4)` bytes.
proof fn lemma_fixed_words_take(d: Seq<u8>, j: int)
    requires
        0 <= j,
    ensures
        xor_fixed_words(d, 4 * j) == xor_fixed_words(d.take(4 * (d.len() as int / 4)), 4 * j),
    decreases d.len() - 4 * j,
{
    let m: int = 4 * (d.len() as int / 4);
    let t = d.take(m);
    if 4 * j + 4 <= d.len() {
        assert(4 * j + 4 <= m) by (nonlinear_arith)
            requires
                4 * j + 4 <= d.len(),
                m == 4 * (d.len() as int / 4),
        ;
        assert(le_word(d, 4 * j) == le_word(t, 4 * j));
        assert(4 * (j + 1) == 4 * j + 4);
        lemma_fixed_words_take(d, j + 1);
    } else {
        assert(m <= d.len()) by (nonlinear_arith)
            requires
                m == 4 * (d.len() as int / 4),
        ;
    }
}

/// Exchanging blocks `a < b` changes the plain grouping from block `j` by the
/// XOR of the two blocks when `a < j <= b`, and not otherwise.
proof fn lemma_fixed_words_swap(d: Seq<u8>, a: nat, b: nat, j: int)
    requires
        0 <= j,
        a < b,
        4 * b + 4 <= d.len(),
    ensures
        xor_fixed_words(swap_blocks(d, a, b), 4 * j) == if a < j && j <= b {
            xor_fixed_words(d, 4 * j) ^ (le_word(d, 4 * a as int) ^ le_word(d, 4 * b as int))
        } else {
            xor_fixed_words(d, 4 * j)
        },
    decreases d.len() - 4 * j,
{
    let e = swap_blocks(d, a, b);
    let wa = le_word(d, 4 * a as int);
    let wb = le_word(d, 4 * b as int);
    if 4 * j + 4 <= d.len() {
        assert(4 * (j + 1) == 4 * j + 4);
        lemma_fixed_words_swap(d, a, b, j + 1);
        let s1 = xor_fixed_words(d, 4 * j + 4);
        let wj = le_word(d, 4 * j);
        if j == a {
            assert(le_word(e, 4 * j) == wb);
            assert(wb ^ (s1 ^ (wa ^ wb)) == wa ^ s1) by (bit_vector);
        } else if j == b {
            assert(le_word(e, 4 * j) == wa);
            assert(wa ^ s1 == (wb ^ s1) ^ (wa ^ wb)) by (bit_vector);
        } else {
            assert(le_word(e, 4 * j) == wj);
            if a < j && j < b {
                assert(wj ^ (s1 ^ (wa ^ wb)) == (wj ^ s1) ^ (wa ^ wb)) by (bit_vector);
            }
        }
    }
}

/// Without `0x0A` bytes the checksum only depends on whole four-byte blocks:
/// the last `d.len() % 4` bytes never matter.
pub proof fn lemma_checksum_ignores_tail(d: Seq<u8>)
    requires
        forall|i: int| 0 <= i < d.len() ==> d[i] != 0x0A,
    ensures
        checksum_spec(d) == checksum_spec(d.take(4 * (d.len() as int / 4))),
{
    let t = d.take(4 * (d.len() as int / 4));
    assert(4 * (d.len() as int / 4) <= d.len()) by (nonlinear_arith);
    lemma_checksum_plain_grouping(d, 0);
    lemma_checksum_plain_grouping(t, 0);
    lemma_fixed_words_take(d, 0);
}

/// Without `0x0A` bytes, exchanging two whole four-byte blocks leaves the
/// checksum as it is.
pub proof fn lemma_checksum_block_swap(d: Seq<u8>, a: nat, b: nat)
    requires
        forall|i: int| 0 <= i < d.len() ==> d[i] != 0x0A,
        a < b,
        4 * b + 4 <= d.len(),
    ensures
        checksum_spec(swap_blocks(d, a, b)) == checksum_spec(d),
{
    let e = swap_blocks(d, a, b);
    assert forall|i: int| 0 <= i < e.len() implies e[i] != 0x0A by {}
    lemma_checksum_plain_grouping(d, 0);
    lemma_checksum_plain_grouping(e, 0);
    lemma_fixed_words_swap(d, a, b, 0);
}

/// A keep-alive packet is 34 bytes plus the version and tail it carries
/// (40 bytes with a 4-byte tail and the 2-byte version).
pub proof fn lemma_keep_alive_length(
    number: u8,
    tail: Seq<u8>,
    pkg_type: u8,
    first: bool,
    host_ip: Seq<u8>,
    keep_alive_version: Seq<u8>,
)
    requires
        host_ip.len() == 4,
    ensures
        keep_alive_spec(number, tail, pkg_type, first, host_ip, keep_alive_version).len() == 34 + (if first {
            2
        } else {
            keep_alive_version.len()
        }) + tail.len(),
{
}

/// `x` rotated right by three bits.
pub open spec fn rotr3(x: u8) -> u8 {
    (x >> 3u8) | (x << 5u8)
}

/// The obfuscation can be undone with the digest: rotating each byte back and
/// XOR-ing it with the digest gives the password.
pub proof fn lemma_ror_reversible(md5: Seq<u8>, pwd: Seq<u8>)
    requires
        md5.len() >= pwd.len(),
    ensures
        Seq::new(pwd.len(), |i: int| rotr3(ror_spec(md5, pwd)[i]) ^ md5[i]) == pwd,
{
    assert forall|i: int| 0 <= i < pwd.len() implies #[trigger] (rotr3(ror_spec(md5, pwd)[i]) ^ md5[i]) == pwd[i] by {
        let m = md5[i];
        let p = pwd[i];
        assert(rotr3(rotl3(m ^ p)) ^ m == p) by (bit_vector);
    }
    assert(Seq::new(pwd.len(), |i: int| rotr3(ror_spec(md5, pwd)[i]) ^ md5[i]) =~= pwd);
}

/// A login packet starts with `03 01 00` and the length byte, and carries the
/// checksum of its body right after the body.
pub proof fn lemma_login_layout(
    salt: Seq<u8>,
    usr: Seq<u8>,
    pwd: Seq<u8>,
    mac: u64,
    ccs: Seq<u8>,
    adapter: Seq<u8>,
    ip_dog: Seq<u8>,
    auth_version: Seq<u8>,
    host_ip: Seq<u8>,
    primary_dns: Seq<u8>,
    dhcp_server: Seq<u8>,
    host_name: Seq<u8>,
)
    ensures
        ({
            let p = mkpkt_spec(salt, usr, pwd, mac, ccs, adapter, ip_dog, auth_version, host_ip, primary_dns, dhcp_server, host_name);
            let body = login_body(salt, usr, pwd, mac, ccs, adapter, ip_dog, auth_version, host_ip, primary_dns, dhcp_server, host_name);
            &&& p.subrange(0, 4) == seq![0x03u8, 0x01, 0x00, header_len_byte(usr)]
            &&& p.subrange(body.len() as int, body.len() + 4int) == checksum_spec(body + seq![0x01u8, 0x26, 0x07, 0x11, 0x00, 0x00] + dump_spec(mac as nat))
            &&& p.subrange(0, body.len() as int) == body
        }),
{
    let p = mkpkt_spec(salt, usr, pwd, mac, ccs, adapter, ip_dog, auth_version, host_ip, primary_dns, dhcp_server, host_name);
    let body = login_body(salt, usr, pwd, mac, ccs, adapter, ip_dog, auth_version, host_ip, primary_dns, dhcp_server, host_name);
    let prefix = login_prefix(salt, usr, pwd, mac, ccs, adapter, host_ip);
    assert(body.subrange(0, 4) =~= prefix.subrange(0, 4));
    assert(prefix.subrange(0, 4) =~= seq![0x03u8, 0x01, 0x00, header_len_byte(usr)]);
    assert(p.subrange(0, 4) =~= body.subrange(0, 4));
    assert(p.subrange(0, body.len() as int) =~= body);
    assert(p.subrange(body.len() as int, body.len() + 4int) =~= checksum_spec(body + seq![0x01u8, 0x26, 0x07, 0x11, 0x00, 0x00] + dump_spec(mac as nat)));
}


/// Executable form of [`mkpkt_panics`].
pub fn mkpkt_would_panic(pwd: &[u8], config: &Config) -> (b: bool)
    ensures
        b == mkpkt_panics(pwd@, *config),
{
    login_fields_readable(config) && pwd.len() > 16
}

/// Executable form of [`login_fields_ok`].
pub fn login_fields_readable(config: &Config) -> (b: bool)
    ensures
        b == login_fields_ok(*config),
{
    config.parse_hex(config.control_check_status.as_str()).is_ok()
        && config.parse_hex(config.adapter_num.as_str()).is_ok()
        && config.parse_hex(config.ip_dog.as_str()).is_ok()
        && config.parse_hex(config.auth_version.as_str()).is_ok()
        && config.parse_ip(config.host_ip.as_str()).is_ok()
        && config.parse_ip(config.primary_dns.as_str()).is_ok()
        && config.parse_ip(config.dhcp_server.as_str()).is_ok()
}

/// `256` to the power `k`.
spec fn p256(k: nat) -> nat
    decreases k,
{
    if k == 0 {
        1
    } else {
        256 * p256((k - 1) as nat)
    }
}

/// A number below `256^k` has at most `k` bytes in its minimal encoding.
proof fn lemma_dump_len(n: nat, k: nat)
    requires
        k >= 1,
        n < p256(k),
    ensures
        dump_spec(n).len() <= k,
    decreases k,
{
    if n >= 256 {
        let q = p256((k - 1) as nat);
        assert(p256(k) == 256 * q);
        if k == 1 {
            assert(q == 1);
        } else {
            assert(n / 256 < q) by (nonlinear_arith)
                requires
                    n < 256 * q,
            ;
            lemma_dump_len(n / 256, (k - 1) as nat);
        }
    }
}

/// Zeros read as the number zero.
proof fn lemma_be_value_zeros(k: nat)
    ensures
        be_value(zeros(k)) == 0,
    decreases k,
{
    if k > 0 {
        assert(zeros(k).drop_last() =~= zeros((k - 1) as nat));
        lemma_be_value_zeros((k - 1) as nat);
    }
}

/// Leading zeros do not change the number that bytes stand for.
proof fn lemma_be_value_leading_zeros(k: nat, s: Seq<u8>)
    ensures
        be_value(zeros(k) + s) == be_value(s),
    decreases s.len(),
{
    if s.len() == 0 {
        assert(zeros(k) + s =~= zeros(k));
        lemma_be_value_zeros(k);
    } else {
        assert((zeros(k) + s).drop_last() =~= zeros(k) + s.drop_last());
        assert((zeros(k) + s).last() == s.last());
        lemma_be_value_leading_zeros(k, s.drop_last());
    }
}

/// The last six bytes of a logout packet are the MAC address: read as a
/// big-endian number they give `mac` back, for every 48-bit `mac` (a MAC of
/// fewer significant bytes is padded with zeros on the left).
pub proof fn lemma_logout_ends_with_mac(usr: Seq<u8>, mac: u64, config: Config, p: Seq<u8>)
    requires
        mac < 0x1_0000_0000_0000,
        logout_result(usr, mac, config) == Ok::<Seq<u8>, ConfigError>(p),
    ensures
        p.len() >= 6,
        be_value(p.subrange(p.len() - 6, p.len() as int)) == mac,
{
    let d = dump_spec(mac as nat);
    lemma_dump_minimal(mac as nat);
    reveal_with_fuel(p256, 7);
    assert(p256(6) == 0x1_0000_0000_0000);
    lemma_dump_len(mac as nat, 6);
    let f = fit6(d);
    assert(f == zeros((6 - d.len()) as nat) + d);
    lemma_be_value_leading_zeros((6 - d.len()) as nat, d);
    let ccs = hex_field(config.control_check_status@)->Ok_0;
    let adapter = hex_field(config.adapter_num@)->Ok_0;
    assert(p == logout_spec(usr, mac, ccs, adapter));
    assert(p.subrange(p.len() - 6, p.len() as int) =~= f);
}

/// Where a keep-alive packet carries what it is given: `07`, the number and
/// the type in its header, the tail right after the `2f 12` marker and six
/// zero bytes, and then, for type 3, the host address after eight zero bytes;
/// every other byte after the tail is zero.
pub proof fn lemma_keep_alive_fields(
    number: u8,
    tail: Seq<u8>,
    pkg_type: u8,
    first: bool,
    host_ip: Seq<u8>,
    keep_alive_version: Seq<u8>,
)
    requires
        host_ip.len() == 4,
    ensures
        ({
            let r = keep_alive_spec(number, tail, pkg_type, first, host_ip, keep_alive_version);
            let v: int = if first { 2 } else { keep_alive_version.len() as int };
            let t: int = tail.len() as int;
            &&& r.len() == 34 + v + t
            &&& r[0] == 0x07 && r[1] == number && r[5] == pkg_type
            &&& r[6 + v] == 0x2f && r[7 + v] == 0x12
            &&& r.subrange(14 + v, 14 + v + t) == tail
            &&& pkg_type == 3 ==> r.subrange(22 + v + t, 26 + v + t) == host_ip
            &&& forall|i: int| 14 + v + t <= i < 34 + v + t && !(pkg_type == 3 && 22 + v + t <= i < 26 + v + t)
                ==> #[trigger] r[i] == 0
        }),
{
    let r = keep_alive_spec(number, tail, pkg_type, first, host_ip, keep_alive_version);
    let ver = if first { seq![0x0fu8, 0x27] } else { keep_alive_version };
    let v: int = ver.len() as int;
    let t: int = tail.len() as int;
    let head = seq![0x07u8, number, 0x28, 0x00, 0x0b, pkg_type] + ver + seq![0x2fu8, 0x12] + zeros(6);
    let end = if pkg_type == 3 { zeros(4) + host_ip + zeros(8) } else { zeros(16) };
    assert(r =~= head + tail + zeros(4) + end);
    assert(head.len() == 14 + v);
    assert(r.subrange(14 + v, 14 + v + t) =~= tail);
    assert(r[6 + v] == head[6 + v]);
    assert(r[7 + v] == head[7 + v]);
    if pkg_type == 3 {
        assert(r.subrange(22 + v + t, 26 + v + t) =~= host_ip);
    }
    assert forall|i: int| 14 + v + t <= i < 34 + v + t && !(pkg_type == 3 && 22 + v + t <= i < 26 + v + t)
        implies #[trigger] r[i] == 0 by {
        if i < 18 + v + t {
            assert(r[i] == zeros(4)[i - 14 - v - t]);
        } else {
            assert(r[i] == end[i - 18 - v - t]);
        }
    }
}

/// Four bytes in front of `d` shift every scan position by four.
proof fn lemma_xor_words_shift(pre: Seq<u8>, d: Seq<u8>, p: int)
    requires
        pre.len() == 4,
        0 <= p,
    ensures
        xor_words(pre + d, p + 4) == xor_words(d, p),
    decreases d.len() - p,
{
    let s = pre + d;
    if p + 4 <= d.len() {
        assert(s[p + 4] == d[p] && s[p + 5] == d[p + 1] && s[p + 6] == d[p + 2] && s[p + 7] == d[p + 3]);
        assert(window_has_newline(s, p + 4) == window_has_newline(d, p));
        assert(le_word(s, p + 4) == le_word(d, p));
        lemma_xor_words_shift(pre, d, p + 1);
        lemma_xor_words_shift(pre, d, p + 4);
        assert(p + 1 + 4 == p + 5);
    }
}

/// A four-byte window whose last byte is `0x0A` never counts in the checksum:
/// the scan moves past it one byte at a time, and every window it tries on
/// the way still holds that `0x0A`. So four such bytes in front of any `d`
/// leave the checksum of `d` as it is.
pub proof fn lemma_checksum_skips_newline_window(a: u8, b: u8, c: u8, d: Seq<u8>)
    ensures
        checksum_spec(seq![a, b, c, 0x0Au8] + d) == checksum_spec(d),
{
    let pre = seq![a, b, c, 0x0Au8];
    let s = pre + d;
    assert(s[3] == 0x0A);
    lemma_xor_words_shift(pre, d, 0);
    if s.len() >= 8 {
        assert(window_has_newline(s, 3));
        assert(window_has_newline(s, 2));
        assert(window_has_newline(s, 1));
        assert(window_has_newline(s, 0));
        assert(xor_words(s, 3) == xor_words(s, 4));
        assert(xor_words(s, 2) == xor_words(s, 3));
        assert(xor_words(s, 1) == xor_words(s, 2));
        assert(xor_words(s, 0) == xor_words(s, 1));
    } else {
        assert(xor_words(d, 0) == 0);
        assert(window_has_newline(s, 0));
        if s.len() >= 5 {
            assert(window_has_newline(s, 1));
        }
        if s.len() >= 6 {
            assert(window_has_newline(s, 2));
        }
        if s.len() >= 7 {
            assert(window_has_newline(s, 3));
        }
        assert(xor_words(s, 4) == 0);
        assert(xor_words(s, 3) == 0);
        assert(xor_words(s, 2) == 0);
        assert(xor_words(s, 1) == 0);
        assert(xor_words(s, 0) == 0);
    }
}

} // verus!
