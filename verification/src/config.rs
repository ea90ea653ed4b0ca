//! Client configuration and the parsing of its textual fields.

use vstd::prelude::*;
use crate::text::{
    chars_of, dec_text, decode_hex_digits, digit_val, digits_value, lemma_dec_text, lemma_split_append,
    lemma_split_plain, hex_digit_bytes, parse_unsigned,
    parse_unsigned_range, remove_chars, remove_two, remove_whitespace, split_chars, split_on, strip_ws,
    utf8_len, utf8_len_is_odd,
};

verus! {

/// Why a configuration field could not be read.
#[derive(Debug, Clone, Copy, PartialEq, Eq, Structural)]
pub enum ConfigError {
    /// A hex field whose UTF-8 encoding has an odd number of bytes.
    OddHexLength,
    /// A hex field with a character that is not a hex digit.
    InvalidHex,
    /// An IPv4 field that is not four `.`-separated parts, each a `u8`.
    InvalidIp,
    /// A MAC field that is not a 48-bit number in hex digits once `:` and `-`
    /// are removed.
    InvalidMac,
}

/// Dr.COM client configuration.
///
/// The authentication fields (`server`, `username`, `password`, `host_ip`,
/// `mac`) are required in a configuration file; the others have the defaults
/// given by the `default_*` functions.
#[derive(Debug, Clone)]
pub struct Config {
    pub server: String,
    pub username: String,
    pub password: String,
    pub host_ip: String,
    pub mac: String,
    pub host_name: String,
    pub primary_dns: String,
    pub dhcp_server: String,
    pub bind_ip: String,
    /// Protocol constants written as hex strings, for example `"20"`.
    pub control_check_status: String,
    pub adapter_num: String,
    pub ip_dog: String,
    pub auth_version: String,
    pub keep_alive_version: String,
    pub is_test: bool,
    pub unlimited_retry: bool,
}

/// Default computer name.
pub fn default_host_name() -> (s: String)
    ensures
        s@ == "YOURPCNAME"@,
{
    "YOURPCNAME".to_owned()
}

/// Default primary DNS server.
pub fn default_primary_dns() -> (s: String)
    ensures
        s@ == "10.10.10.10"@,
{
    "10.10.10.10".to_owned()
}

/// Default DHCP server.
pub fn default_dhcp_server() -> (s: String)
    ensures
        s@ == "0.0.0.0"@,
{
    "0.0.0.0".to_owned()
}

/// Default local address to bind.
pub fn default_bind_ip() -> (s: String)
    ensures
        s@ == "0.0.0.0"@,
{
    "0.0.0.0".to_owned()
}

/// Default control check status byte.
pub fn default_control_check_status() -> (s: String)
    ensures
        s@ == "20"@,
{
    "20".to_owned()
}

/// Default adapter number byte.
pub fn default_adapter_num() -> (s: String)
    ensures
        s@ == "03"@,
{
    "03".to_owned()
}

/// Default IP dog byte.
pub fn default_ip_dog() -> (s: String)
    ensures
        s@ == "01"@,
{
    "01".to_owned()
}

/// Default authentication version bytes.
pub fn default_auth_version() -> (s: String)
    ensures
        s@ == "68 00"@,
{
    "68 00".to_owned()
}

/// Default keep-alive version bytes.
pub fn default_keep_alive_version() -> (s: String)
    ensures
        s@ == "dc 02"@,
{
    "dc 02".to_owned()
}

/// Default test mode.
pub fn default_is_test() -> (b: bool)
    ensures
        b,
{
    true
}

/// Default retry policy.
pub fn default_unlimited_retry() -> (b: bool)
    ensures
        b,
{
    true
}

/// A configuration whose optional fields hold their defaults.
pub open spec fn has_default_options(c: Config) -> bool {
    &&& c.host_name@ == "YOURPCNAME"@
    &&& c.primary_dns@ == "10.10.10.10"@
    &&& c.dhcp_server@ == "0.0.0.0"@
    &&& c.bind_ip@ == "0.0.0.0"@
    &&& c.control_check_status@ == "20"@
    &&& c.adapter_num@ == "03"@
    &&& c.ip_dog@ == "01"@
    &&& c.auth_version@ == "68 00"@
    &&& c.keep_alive_version@ == "dc 02"@
    &&& c.is_test
    &&& c.unlimited_retry
}

impl Default for Config {
    /// Empty authentication fields and the default options.
    fn default() -> (c: Config)
        ensures
            c.server@.len() == 0,
            c.username@.len() == 0,
            c.password@.len() == 0,
            c.host_ip@.len() == 0,
            c.mac@.len() == 0,
            has_default_options(c),
    {
        Config {
            server: String::new(),
            username: String::new(),
            password: String::new(),
            host_ip: String::new(),
            mac: String::new(),
            host_name: default_host_name(),
            primary_dns: default_primary_dns(),
            dhcp_server: default_dhcp_server(),
            bind_ip: default_bind_ip(),
            control_check_status: default_control_check_status(),
            adapter_num: default_adapter_num(),
            ip_dog: default_ip_dog(),
            auth_version: default_auth_version(),
            keep_alive_version: default_keep_alive_version(),
            is_test: default_is_test(),
            unlimited_retry: default_unlimited_retry(),
        }
    }
}

/// The largest MAC value, 2^48 - 1.
pub open spec fn mac_max() -> nat {
    0xFFFF_FFFF_FFFF
}

/// The value of a MAC field: `:` and `-` are dropped and the rest, which must
/// be a non-empty string of hex digits, is read as a number below 2^48.
pub open spec fn mac_value(cs: Seq<char>) -> Option<nat> {
    let ds = remove_two(cs, ':', '-');
    if ds.len() == 0 {
        None
    } else {
        match digits_value(ds, 16) {
            Some(v) => if v <= mac_max() { Some(v) } else { None },
            None => None,
        }
    }
}

/// The four bytes of an IPv4 field: exactly four `.`-separated parts, each a
/// decimal `u8`.
pub open spec fn ip_field(cs: Seq<char>) -> Result<Seq<u8>, ConfigError> {
    let parts = split_on(cs, '.');
    if parts.len() == 4 && forall|i: int| 0 <= i < 4 ==> #[trigger] parse_unsigned(parts[i], 10, 255) is Some {
        Ok(Seq::new(4, |i: int| parse_unsigned(parts[i], 10, 255).unwrap() as u8))
    } else {
        Err(ConfigError::InvalidIp)
    }
}

/// The bytes of a hex field: whitespace is dropped, an odd UTF-8 length is
/// refused, and the rest must be pairs of hex digits.
pub open spec fn hex_field(cs: Seq<char>) -> Result<Seq<u8>, ConfigError> {
    let compact = strip_ws(cs);
    if utf8_len(compact) % 2 == 1 {
        Err(ConfigError::OddHexLength)
    } else {
        match hex_digit_bytes(compact) {
            Some(b) => Ok(b),
            None => Err(ConfigError::InvalidHex),
        }
    }
}

/// The view of a byte-string result.
pub open spec fn bytes_view<const N: usize>(r: Result<[u8; N], ConfigError>) -> Result<Seq<u8>, ConfigError> {
    match r {
        Ok(b) => Ok(b@),
        Err(e) => Err(e),
    }
}

/// The view of a byte-vector result.
pub open spec fn vec_view(r: Result<Vec<u8>, ConfigError>) -> Result<Seq<u8>, ConfigError> {
    match r {
        Ok(b) => Ok(b@),
        Err(e) => Err(e),
    }
}

impl Config {
    /// Reads the MAC field as a 48-bit number. `AA:BB:CC:DD:EE:FF`,
    /// `AA-BB-CC-DD-EE-FF` and `AABBCCDDEEFF` are all accepted.
    pub fn parse_mac(&self) -> (r: Result<u64, ConfigError>)
        ensures
            match mac_value(self.mac@) {
                Some(v) => r == Ok::<u64, ConfigError>(v as u64),
                None => r == Err::<u64, ConfigError>(ConfigError::InvalidMac),
            },
    {
        let cs = chars_of(self.mac.as_str());
        let compact = remove_chars(&cs, ':', '-');
        let n = compact.len();
        assert(compact@.subrange(0, n as int) =~= compact@);
        if n > 0 && compact[0] == '+' {
            proof {
                crate::text::lemma_digits_value_some(compact@, 16);
                assert(digit_val(compact@[0], 16) is None);
            }
            return Err(ConfigError::InvalidMac);
        }
        proof {
            if n == 1 && compact@[0] == '-' {
                crate::text::lemma_digits_value_some(compact@, 16);
                assert(digit_val(compact@[0], 16) is None);
            }
        }
        match parse_unsigned_range(&compact, 0, n, 16, 0xFFFF_FFFF_FFFF) {
            Some(v) => Ok(v),
            None => Err(ConfigError::InvalidMac),
        }
    }

    /// Reads a dotted IPv4 string as four bytes.
    pub fn parse_ip(&self, ip: &str) -> (r: Result<[u8; 4], ConfigError>)
        ensures
            bytes_view(r) == ip_field(ip@),
    {
        parse_ipv4(ip)
    }

    /// Reads a hex string, which may hold whitespace, as bytes.
    pub fn parse_hex(&self, s: &str) -> (r: Result<Vec<u8>, ConfigError>)
        ensures
            vec_view(r) == hex_field(s@),
    {
        parse_hex_str(s)
    }
}

/// Reads a dotted IPv4 string as four bytes (see [`ip_field`]).
pub fn parse_ipv4(ip: &str) -> (r: Result<[u8; 4], ConfigError>)
    ensures
        bytes_view(r) == ip_field(ip@),
{
    let cs = chars_of(ip);
    let parts = split_chars(&cs, '.');
    let ghost sp = split_on(ip@, '.');
    if parts.len() != 4 {
        return Err(ConfigError::InvalidIp);
    }
    let mut bytes: Vec<u8> = vec![0u8, 0u8, 0u8, 0u8];
    let mut i: usize = 0;
    while i < 4
        invariant
            sp == split_on(ip@, '.'),
            parts@.len() == sp.len() == 4,
            forall|j: int| 0 <= j < parts@.len() ==> #[trigger] parts@[j]@ == sp[j],
            bytes@.len() == 4,
            i <= 4,
            forall|j: int| 0 <= j < i ==> #[trigger] parse_unsigned(sp[j], 10, 255) is Some,
            forall|j: int| 0 <= j < i ==> bytes@[j] == parse_unsigned(sp[j], 10, 255).unwrap() as u8,
        decreases 4 - i,
    {
        let part = &parts[i];
        let n = part.len();
        assert(part@.subrange(0, n as int) =~= part@);
        assert(part@ == sp[i as int]);
        match parse_unsigned_range(part, 0, n, 10, 255) {
            Some(v) => {
                bytes.set(i, v as u8);
            },
            None => {
                assert(parse_unsigned(sp[i as int], 10, 255) is None);
                assert(ip_field(ip@) == Err::<Seq<u8>, ConfigError>(ConfigError::InvalidIp));
                return Err(ConfigError::InvalidIp);
            },
        }
        i = i + 1;
    }
    let out: [u8; 4] = [bytes[0], bytes[1], bytes[2], bytes[3]];
    proof {
        let expected = Seq::new(4, |k: int| parse_unsigned(sp[k], 10, 255).unwrap() as u8);
        assert(out@ =~= expected);
    }
    Ok(out)
}

/// Reads a hex string, which may hold whitespace, as bytes (see [`hex_field`]).
pub fn parse_hex_str(s: &str) -> (r: Result<Vec<u8>, ConfigError>)
    ensures
        vec_view(r) == hex_field(s@),
{
    let cs = chars_of(s);
    let compact = remove_whitespace(&cs);
    if utf8_len_is_odd(&compact) {
        return Err(ConfigError::OddHexLength);
    }
    match decode_hex_digits(&compact) {
        Some(v) => Ok(v),
        None => Err(ConfigError::InvalidHex),
    }
}


/// Separators do not matter in a MAC: `:` or `-` anywhere leaves its value as it is.
pub proof fn lemma_mac_separators(a: Seq<char>, b: Seq<char>, sep: char)
    requires
        sep == ':' || sep == '-',
    ensures
        mac_value(a + seq![sep] + b) == mac_value(a + b),
{
    let f = |c: char| c != ':' && c != '-';
    Seq::filter_distributes_over_add(a + seq![sep], b, f);
    Seq::filter_distributes_over_add(a, seq![sep], f);
    Seq::filter_distributes_over_add(a, b, f);
    reveal_with_fuel(Seq::<_>::filter, 2);
    assert(seq![sep].filter(f) =~= Seq::<char>::empty());
    assert(a.filter(f) + Seq::<char>::empty() =~= a.filter(f));
    assert(remove_two(a + seq![sep] + b, ':', '-') =~= remove_two(a + b, ':', '-'));
}

/// Whitespace does not matter in a hex field: a whitespace character anywhere
/// leaves the bytes as they are.
pub proof fn lemma_hex_whitespace(a: Seq<char>, b: Seq<char>, w: char)
    requires
        crate::text::is_ws(w),
    ensures
        hex_field(a + seq![w] + b) == hex_field(a + b),
{
    let f = |c: char| !crate::text::is_ws(c);
    Seq::filter_distributes_over_add(a + seq![w], b, f);
    Seq::filter_distributes_over_add(a, seq![w], f);
    Seq::filter_distributes_over_add(a, b, f);
    reveal_with_fuel(Seq::<_>::filter, 2);
    assert(seq![w].filter(f) =~= Seq::<char>::empty());
    assert(a.filter(f) + Seq::<char>::empty() =~= a.filter(f));
    assert(strip_ws(a + seq![w] + b) =~= strip_ws(a + b));
}


/// The dotted decimal text of four bytes, as `format!("{a}.{b}.{c}.{d}")` writes it.
pub open spec fn dotted_quad(a: u8, b: u8, c: u8, d: u8) -> Seq<char> {
    dec_text(a as nat) + seq!['.'] + dec_text(b as nat) + seq!['.'] + dec_text(c as nat) + seq!['.']
        + dec_text(d as nat)
}

proof fn lemma_octet_text(n: u8)
    ensures
        parse_unsigned(dec_text(n as nat), 10, 255) == Some(n as nat),
        !dec_text(n as nat).contains('.'),
{
    lemma_dec_text(n as nat);
    let t = dec_text(n as nat);
    assert('0' <= t[0] <= '9');
    if t.contains('.') {
        let k = choose|k: int| 0 <= k < t.len() && t[k] == '.';
        assert('0' <= t[k] <= '9');
    }
}

/// Reading the dotted decimal text of any four bytes gives those bytes back.
pub proof fn lemma_ip_round_trip(a: u8, b: u8, c: u8, d: u8)
    ensures
        ip_field(dotted_quad(a, b, c, d)) == Ok::<Seq<u8>, ConfigError>(seq![a, b, c, d]),
{
    lemma_octet_text(a);
    lemma_octet_text(b);
    lemma_octet_text(c);
    lemma_octet_text(d);
    let ta = dec_text(a as nat);
    let tb = dec_text(b as nat);
    let tc = dec_text(c as nat);
    let td = dec_text(d as nat);
    lemma_split_plain(ta, '.');
    lemma_split_append(ta, tb, '.');
    lemma_split_append(ta + seq!['.'] + tb, tc, '.');
    lemma_split_append(ta + seq!['.'] + tb + seq!['.'] + tc, td, '.');
    let parts = split_on(dotted_quad(a, b, c, d), '.');
    assert(parts =~= seq![ta, tb, tc, td]);
    assert(Seq::new(4, |i: int| parse_unsigned(parts[i], 10, 255).unwrap() as u8) =~= seq![a, b, c, d]);
}

} // verus!
