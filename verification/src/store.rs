//! The saved WebUI form (`~/.drcomconfig`): the fields, and the obfuscation
//! of the password. The password is XOR-ed with the MAC string (without `:`
//! and `-`) and written as lowercase hex; this hides it, it does not encrypt it.

use vstd::prelude::*;
use vstd::utf8::{decode_utf8, encode_utf8, valid_utf8};
use crate::config::Config;
use crate::text::{
    chars_of, decode_hex_pairs, digit_val, hex_pairs_would_panic, hex_pair, hex_pairs, hex_pairs_panic, is_ascii_char,
    hex_digit, hex_digit_char, hex_lower, lemma_ascii_utf8_len, push_char, remove_chars, remove_two, string_from_chars, utf8_len, utf8_len_is_odd,
};

verus! {

/// Why a saved form could not be read or written.
#[derive(Debug, Clone, Copy, PartialEq, Eq, Structural)]
pub enum StoreError {
    /// There is a password but no MAC to derive the key from.
    MissingMac,
    /// The MAC is empty once `:` and `-` are removed.
    EmptyMac,
    /// The stored password has an odd number of bytes.
    OddHexLength,
    /// The stored password holds a pair that is not a hex number.
    InvalidHex,
    /// The decoded password is not UTF-8.
    InvalidPasswordEncoding,
}

/// The fields kept in the saved form. All are optional, so that files from
/// older versions with missing fields still load.
#[derive(Debug, Clone, Default)]
pub struct PlainConfig {
    pub server: Option<String>,
    pub username: Option<String>,
    pub password: Option<String>,
    pub host_ip: Option<String>,
    pub mac: Option<String>,
    pub host_name: Option<String>,
    pub primary_dns: Option<String>,
    pub dhcp_server: Option<String>,
    pub bind_ip: Option<String>,
    pub control_check_status: Option<String>,
    pub adapter_num: Option<String>,
    pub ip_dog: Option<String>,
    pub auth_version: Option<String>,
    pub keep_alive_version: Option<String>,
    pub is_test: Option<bool>,
    pub unlimited_retry: Option<bool>,
}

/// The XOR key derived from a MAC: its UTF-8 bytes without `:` and `-`.
pub open spec fn mac_key(mac: Seq<char>) -> Seq<u8> {
    encode_utf8(remove_two(mac, ':', '-'))
}

/// What [`key_from_mac`] gives.
pub open spec fn key_result(mac: Option<Seq<char>>) -> Result<Seq<u8>, StoreError> {
    match mac {
        None => Err(StoreError::MissingMac),
        Some(m) => if remove_two(m, ':', '-').len() == 0 {
            Err(StoreError::EmptyMac)
        } else {
            Ok(mac_key(m))
        },
    }
}

/// The view of an optional string.
pub open spec fn opt_view(s: Option<&str>) -> Option<Seq<char>> {
    match s {
        Some(t) => Some(t@),
        None => None,
    }
}

/// The key view of a result.
pub open spec fn key_view(r: Result<Vec<u8>, StoreError>) -> Result<Seq<u8>, StoreError> {
    match r {
        Ok(v) => Ok(v@),
        Err(e) => Err(e),
    }
}

/// The XOR key for the password: the MAC without `:` and `-`, as bytes.
pub fn key_from_mac(mac: Option<&str>) -> (r: Result<Vec<u8>, StoreError>)
    ensures
        key_view(r) == key_result(opt_view(mac)),
{
    let mac = match mac {
        Some(m) => m,
        None => return Err(StoreError::MissingMac),
    };
    let cs = chars_of(mac);
    let kept = remove_chars(&cs, ':', '-');
    if kept.len() == 0 {
        return Err(StoreError::EmptyMac);
    }
    let s = string_from_chars(&kept);
    let bytes = s.as_str().as_bytes();
    let mut out: Vec<u8> = Vec::new();
    crate::bytes::append_bytes(&mut out, bytes);
    assert(out@ =~= mac_key(mac@));
    Ok(out)
}

/// `input` XOR-ed with the key repeated along it.
pub open spec fn xor_key(input: Seq<u8>, key: Seq<u8>) -> Seq<u8> {
    Seq::new(input.len(), |i: int| input[i] ^ key[i % (key.len() as int)])
}

/// What [`xor_hex_decode`] gives.
pub open spec fn xor_hex_decode_result(hex: Seq<char>, key: Seq<u8>) -> Result<Seq<u8>, StoreError> {
    if utf8_len(hex) % 2 == 1 {
        Err(StoreError::OddHexLength)
    } else {
        match hex_pairs(hex) {
            Some(b) => Ok(xor_key(b, key)),
            None => Err(StoreError::InvalidHex),
        }
    }
}

/// The stored strings on which decoding stops inside a character.
pub open spec fn xor_hex_decode_panics(hex: Seq<char>) -> bool {
    utf8_len(hex) % 2 == 0 && hex_pairs_panic(hex)
}

/// XORs `input` with the repeated `key` and writes the result as lowercase hex.
pub fn xor_hex_encode(input: &[u8], key: &[u8]) -> (s: String)
    requires
        key@.len() > 0,
    ensures
        s@ == hex_lower(xor_key(input@, key@)),
{
    let ghost mixed = xor_key(input@, key@);
    let mut hex = String::new();
    let mut i: usize = 0;
    while i < input.len()
        invariant
            i <= input@.len(),
            key@.len() > 0,
            mixed == xor_key(input@, key@),
            hex@ == hex_lower(mixed.take(i as int)),
        decreases input@.len() - i,
    {
        let b: u8 = input[i] ^ key[i % key.len()];
        assert(b == mixed[i as int]);
        push_char(&mut hex, hex_digit_char(b / 16));
        push_char(&mut hex, hex_digit_char(b % 16));
        assert(hex@ =~= hex_lower(mixed.take(i + 1)));
        i = i + 1;
    }
    assert(mixed.take(input@.len() as int) =~= mixed);
    hex
}

/// Reads a lowercase or uppercase hex string as bytes and XORs them with the
/// repeated `key`.
pub fn xor_hex_decode(hex: &str, key: &[u8]) -> (r: Result<Vec<u8>, StoreError>)
    requires
        key@.len() > 0,
        !xor_hex_decode_panics(hex@),
    ensures
        key_view(r) == xor_hex_decode_result(hex@, key@),
{
    let cs = chars_of(hex);
    if utf8_len_is_odd(&cs) {
        return Err(StoreError::OddHexLength);
    }
    let bytes = match decode_hex_pairs(&cs) {
        Some(b) => b,
        None => return Err(StoreError::InvalidHex),
    };
    let mut out: Vec<u8> = Vec::new();
    let mut i: usize = 0;
    while i < bytes.len()
        invariant
            i <= bytes@.len(),
            key@.len() > 0,
            out@ == xor_key(bytes@, key@).take(i as int),
        decreases bytes@.len() - i,
    {
        out.push(bytes[i] ^ key[i % key.len()]);
        assert(out@ =~= xor_key(bytes@, key@).take(i + 1));
        i = i + 1;
    }
    assert(xor_key(bytes@, key@).take(bytes@.len() as int) =~= xor_key(bytes@, key@));
    Ok(out)
}


proof fn lemma_hex_digit(n: u8)
    requires
        n < 16,
    ensures
        is_ascii_char(hex_digit(n)),
        hex_digit(n) != '+',
        digit_val(hex_digit(n), 16) == Some(n as nat),
{
}

proof fn lemma_hex_lower_pairs(m: Seq<u8>)
    ensures
        hex_pairs(hex_lower(m)) == Some(m),
        !hex_pairs_panic(hex_lower(m)),
    decreases m.len(),
{
    let h = hex_lower(m);
    if m.len() > 0 {
        let b = m[0];
        lemma_hex_digit(b / 16);
        lemma_hex_digit(b % 16);
        assert(h[0] == hex_digit(b / 16));
        assert(h[1] == hex_digit(b % 16));
        assert(((b / 16) as nat * 16 + (b % 16) as nat) as u8 == b);
        assert(hex_pair(h[0], h[1]) == Some(b));
        assert(h.subrange(2, h.len() as int) =~= hex_lower(m.drop_first()));
        lemma_hex_lower_pairs(m.drop_first());
        assert(seq![b] + m.drop_first() =~= m);
    } else {
        assert(h.len() == 0);
    }
}

/// The value of a hex digit character.
pub open spec fn hex_val(c: char) -> nat {
    digit_val(c, 16)->Some_0
}

/// The saved text spells, pair by pair, each byte XOR-ed with the key byte at
/// the same position, the key starting over when it runs out: pair `i` is two
/// hex digits whose value is `input[i] ^ key[i % key.len()]`.
pub proof fn lemma_xor_hex_encode_pairs(input: Seq<u8>, key: Seq<u8>)
    requires
        key.len() > 0,
    ensures
        ({
            let h = hex_lower(xor_key(input, key));
            &&& h.len() == 2 * input.len()
            &&& forall|i: int| 0 <= i < input.len() ==> {
                &&& digit_val(#[trigger] h[2 * i], 16) is Some
                &&& digit_val(h[2 * i + 1], 16) is Some
                &&& hex_val(h[2 * i]) * 16 + hex_val(h[2 * i + 1]) == (input[i] ^ key[i % (key.len() as int)]) as nat
            }
        }),
{
    let m = xor_key(input, key);
    let h = hex_lower(m);
    assert forall|i: int| 0 <= i < input.len() implies {
        &&& digit_val(#[trigger] h[2 * i], 16) is Some
        &&& digit_val(h[2 * i + 1], 16) is Some
        &&& hex_val(h[2 * i]) * 16 + hex_val(h[2 * i + 1]) == (input[i] ^ key[i % (key.len() as int)]) as nat
    } by {
        let b = m[i];
        assert((2 * i) / 2 == i && (2 * i) % 2 == 0);
        assert((2 * i + 1) / 2 == i && (2 * i + 1) % 2 == 1);
        lemma_hex_digit(b / 16);
        lemma_hex_digit(b % 16);
        assert(h[2 * i] == hex_digit(b / 16));
        assert(h[2 * i + 1] == hex_digit(b % 16));
        assert((b / 16) as nat * 16 + (b % 16) as nat == b as nat);
    }
}

/// Two hex digits at the front of every pair: the pairs read as the bytes
/// `16 * high + low`.
proof fn lemma_hex_pairs_digits(cs: Seq<char>)
    requires
        cs.len() % 2 == 0,
        forall|j: int| 0 <= j < cs.len() ==> digit_val(#[trigger] cs[j], 16) is Some,
    ensures
        hex_pairs(cs) is Some,
        hex_pairs(cs)->Some_0.len() == cs.len() / 2,
        forall|i: int| 0 <= i < cs.len() / 2 ==> #[trigger] hex_pairs(cs)->Some_0[i] == (hex_val(cs[2 * i]) * 16
            + hex_val(cs[2 * i + 1])) as u8,
    decreases cs.len(),
{
    if cs.len() > 0 {
        let rest = cs.subrange(2, cs.len() as int);
        assert forall|j: int| 0 <= j < rest.len() implies digit_val(#[trigger] rest[j], 16) is Some by {
            assert(rest[j] == cs[j + 2]);
        }
        lemma_hex_pairs_digits(rest);
        assert(digit_val(cs[0], 16) is Some);
        assert(digit_val(cs[1], 16) is Some);
        assert(is_ascii_char(cs[0]) && is_ascii_char(cs[1]));
        assert(cs[0] != '+');
        let b = (hex_val(cs[0]) * 16 + hex_val(cs[1])) as u8;
        assert(hex_pair(cs[0], cs[1]) == Some(b));
        let r = hex_pairs(rest)->Some_0;
        assert(hex_pairs(cs) == Some(seq![b] + r));
        assert forall|i: int| 0 <= i < cs.len() / 2 implies #[trigger] hex_pairs(cs)->Some_0[i] == (hex_val(cs[2 * i])
            * 16 + hex_val(cs[2 * i + 1])) as u8 by {
            if i > 0 {
                assert(rest[2 * (i - 1)] == cs[2 * i]);
                assert(rest[2 * (i - 1) + 1] == cs[2 * i + 1]);
                assert((seq![b] + r)[i] == r[i - 1]);
            }
        }
    }
}

/// Decoding a text of hex digits reads each pair as a byte and XORs byte `i`
/// with the key byte at the same position, the key starting over when it runs
/// out.
pub proof fn lemma_xor_hex_decode_pairs(hex: Seq<char>, key: Seq<u8>)
    requires
        key.len() > 0,
        hex.len() % 2 == 0,
        forall|j: int| 0 <= j < hex.len() ==> digit_val(#[trigger] hex[j], 16) is Some,
    ensures
        !xor_hex_decode_panics(hex),
        xor_hex_decode_result(hex, key) is Ok,
        xor_hex_decode_result(hex, key)->Ok_0.len() == hex.len() / 2,
        forall|i: int| 0 <= i < hex.len() / 2 ==> #[trigger] xor_hex_decode_result(hex, key)->Ok_0[i] == ((hex_val(
            hex[2 * i]) * 16 + hex_val(hex[2 * i + 1])) as u8 ^ key[i % (key.len() as int)]),
{
    assert forall|j: int| 0 <= j < hex.len() implies is_ascii_char(#[trigger] hex[j]) by {
        assert(digit_val(hex[j], 16) is Some);
    }
    lemma_ascii_utf8_len(hex);
    lemma_hex_pairs_digits(hex);
    lemma_hex_pairs_no_panic(hex);
}

/// Pairs of ASCII characters never make decoding stop inside a character.
proof fn lemma_hex_pairs_no_panic(cs: Seq<char>)
    requires
        cs.len() % 2 == 0,
        forall|j: int| 0 <= j < cs.len() ==> digit_val(#[trigger] cs[j], 16) is Some,
    ensures
        !hex_pairs_panic(cs),
    decreases cs.len(),
{
    if cs.len() > 0 {
        let rest = cs.subrange(2, cs.len() as int);
        assert forall|j: int| 0 <= j < rest.len() implies digit_val(#[trigger] rest[j], 16) is Some by {
            assert(rest[j] == cs[j + 2]);
        }
        assert(digit_val(cs[0], 16) is Some);
        assert(digit_val(cs[1], 16) is Some);
        lemma_hex_pairs_no_panic(rest);
    }
}

/// XOR-ing twice with the same key gives the input back.
pub proof fn lemma_xor_key_involution(input: Seq<u8>, key: Seq<u8>)
    requires
        key.len() > 0,
    ensures
        xor_key(xor_key(input, key), key) == input,
{
    assert forall|i: int| 0 <= i < input.len() implies #[trigger] xor_key(xor_key(input, key), key)[i] == input[i] by {
        let a = input[i];
        let k = key[i % (key.len() as int)];
        assert((a ^ k) ^ k == a) by (bit_vector);
    }
    assert(xor_key(xor_key(input, key), key) =~= input);
}

/// Decoding what [`xor_hex_encode`] wrote, with the same non-empty key, gives
/// the input back; the encoded text never makes decoding stop inside a character.
pub proof fn lemma_xor_hex_round_trip(input: Seq<u8>, key: Seq<u8>)
    requires
        key.len() > 0,
    ensures
        !xor_hex_decode_panics(hex_lower(xor_key(input, key))),
        xor_hex_decode_result(hex_lower(xor_key(input, key)), key) == Ok::<Seq<u8>, StoreError>(input),
{
    let m = xor_key(input, key);
    let h = hex_lower(m);
    assert forall|i: int| 0 <= i < h.len() implies is_ascii_char(#[trigger] h[i]) by {
        lemma_hex_digit(m[i / 2] / 16);
        lemma_hex_digit(m[i / 2] % 16);
    }
    lemma_ascii_utf8_len(h);
    assert(utf8_len(h) % 2 == 0);
    lemma_hex_lower_pairs(m);
    lemma_xor_key_involution(input, key);
}


/// The view of an optional string.
pub open spec fn opt_str(o: Option<String>) -> Option<Seq<char>> {
    match o {
        Some(s) => Some(s@),
        None => None,
    }
}

/// `a` and `b` agree on every field but the password.
pub open spec fn same_but_password(a: PlainConfig, b: PlainConfig) -> bool {
    &&& a.server == b.server
    &&& a.username == b.username
    &&& a.host_ip == b.host_ip
    &&& a.mac == b.mac
    &&& a.host_name == b.host_name
    &&& a.primary_dns == b.primary_dns
    &&& a.dhcp_server == b.dhcp_server
    &&& a.bind_ip == b.bind_ip
    &&& a.control_check_status == b.control_check_status
    &&& a.adapter_num == b.adapter_num
    &&& a.ip_dog == b.ip_dog
    &&& a.auth_version == b.auth_version
    &&& a.keep_alive_version == b.keep_alive_version
    &&& a.is_test == b.is_test
    &&& a.unlimited_retry == b.unlimited_retry
}

/// What writing a form does to it: a non-empty password is replaced by its
/// obfuscation with the MAC key; an empty or missing one is kept as it is.
pub open spec fn conceal_rel(f: PlainConfig, r: Result<PlainConfig, StoreError>) -> bool {
    match f.password {
        Some(p) => if p@.len() > 0 {
            match key_result(opt_str(f.mac)) {
                Err(e) => r == Err::<PlainConfig, StoreError>(e),
                Ok(key) => r matches Ok(g) && same_but_password(g, f) && opt_str(g.password) == Some(
                    hex_lower(xor_key(encode_utf8(p@), key)),
                ),
            }
        } else {
            r matches Ok(g) && same_but_password(g, f) && opt_str(g.password) == opt_str(f.password)
        },
        None => r matches Ok(g) && same_but_password(g, f) && g.password is None,
    }
}

/// What reading a form does to it: a password is decoded from hex, XOR-ed
/// with the MAC key and read as UTF-8.
pub open spec fn reveal_rel(f: PlainConfig, r: Result<PlainConfig, StoreError>) -> bool {
    match f.password {
        None => r matches Ok(g) && same_but_password(g, f) && g.password is None,
        Some(p) => match key_result(opt_str(f.mac)) {
            Err(e) => r == Err::<PlainConfig, StoreError>(e),
            Ok(key) => match xor_hex_decode_result(p@, key) {
                Err(e) => r == Err::<PlainConfig, StoreError>(e),
                Ok(b) => if valid_utf8(b) {
                    r matches Ok(g) && same_but_password(g, f) && opt_str(g.password) == Some(decode_utf8(b))
                } else {
                    r == Err::<PlainConfig, StoreError>(StoreError::InvalidPasswordEncoding)
                },
            },
        },
    }
}

/// The stored forms whose password decoding would stop inside a character.
pub open spec fn reveal_panics(f: PlainConfig) -> bool {
    match f.password {
        Some(p) => key_result(opt_str(f.mac)) is Ok && xor_hex_decode_panics(p@),
        None => false,
    }
}

fn clone_opt(o: &Option<String>) -> (r: Option<String>)
    ensures
        r == *o,
{
    match o {
        Some(s) => Some(s.clone()),
        None => None,
    }
}

fn opt_as_str(o: &Option<String>) -> (r: Option<&str>)
    ensures
        opt_view(r) == opt_str(*o),
{
    match o {
        Some(s) => Some(s.as_str()),
        None => None,
    }
}

/// `f` with `password` in place of its password.
fn with_password(f: &PlainConfig, password: Option<String>) -> (g: PlainConfig)
    ensures
        same_but_password(g, *f),
        g.password == password,
{
    PlainConfig {
        server: clone_opt(&f.server),
        username: clone_opt(&f.username),
        password,
        host_ip: clone_opt(&f.host_ip),
        mac: clone_opt(&f.mac),
        host_name: clone_opt(&f.host_name),
        primary_dns: clone_opt(&f.primary_dns),
        dhcp_server: clone_opt(&f.dhcp_server),
        bind_ip: clone_opt(&f.bind_ip),
        control_check_status: clone_opt(&f.control_check_status),
        adapter_num: clone_opt(&f.adapter_num),
        ip_dog: clone_opt(&f.ip_dog),
        auth_version: clone_opt(&f.auth_version),
        keep_alive_version: clone_opt(&f.keep_alive_version),
        is_test: f.is_test,
        unlimited_retry: f.unlimited_retry,
    }
}

/// `String::from_utf8`: the bytes become a string when they are valid UTF-8.
/// The contract states that the result exists exactly for valid UTF-8 and
/// that its characters are the ones the bytes encode.
#[verifier::external_body]
fn string_from_utf8(bytes: Vec<u8>) -> (r: Option<String>)
    ensures
        r is Some <==> valid_utf8(bytes@),
        r matches Some(s) ==> s@ == decode_utf8(bytes@),
{
    String::from_utf8(bytes).ok()
}

proof fn lemma_key_nonempty(mac: Option<Seq<char>>)
    requires
        key_result(mac) is Ok,
    ensures
        key_result(mac).unwrap().len() > 0,
{
    let m = mac.unwrap();
    let cs = remove_two(m, ':', '-');
    crate::text::lemma_utf8_len_pos(cs);
}

/// The form as it is written: the password obfuscated (see [`conceal_rel`]).
pub fn conceal_password(fields: &PlainConfig) -> (r: Result<PlainConfig, StoreError>)
    ensures
        conceal_rel(*fields, r),
{
    match &fields.password {
        Some(password) => {
            if password.as_str().is_empty() {
                return Ok(with_password(fields, Some(password.clone())));
            }
            let key = match key_from_mac(opt_as_str(&fields.mac)) {
                Ok(k) => k,
                Err(e) => return Err(e),
            };
            proof {
                lemma_key_nonempty(opt_str(fields.mac));
            }
            let hex = xor_hex_encode(password.as_str().as_bytes(), key.as_slice());
            Ok(with_password(fields, Some(hex)))
        },
        None => Ok(with_password(fields, None)),
    }
}

/// The form as it is read: the password recovered (see [`reveal_rel`]).
pub fn reveal_password(fields: &PlainConfig) -> (r: Result<PlainConfig, StoreError>)
    requires
        !reveal_panics(*fields),
    ensures
        reveal_rel(*fields, r),
{
    match &fields.password {
        Some(encrypted) => {
            let key = match key_from_mac(opt_as_str(&fields.mac)) {
                Ok(k) => k,
                Err(e) => return Err(e),
            };
            proof {
                lemma_key_nonempty(opt_str(fields.mac));
            }
            let plain = match xor_hex_decode(encrypted.as_str(), key.as_slice()) {
                Ok(p) => p,
                Err(e) => return Err(e),
            };
            match string_from_utf8(plain) {
                Some(s) => Ok(with_password(fields, Some(s))),
                None => Err(StoreError::InvalidPasswordEncoding),
            }
        },
        None => Ok(with_password(fields, None)),
    }
}

/// Reading back a written form gives the same fields, whenever the form has
/// a MAC key for its password.
pub proof fn lemma_conceal_reveal(f: PlainConfig, g: PlainConfig, r: Result<PlainConfig, StoreError>)
    requires
        f.password is Some ==> key_result(opt_str(f.mac)) is Ok,
        conceal_rel(f, Ok(g)),
        reveal_rel(g, r),
    ensures
        !reveal_panics(g),
        r matches Ok(h) && same_but_password(h, f) && opt_str(h.password) == opt_str(f.password),
{
    broadcast use vstd::utf8::encode_utf8_valid_utf8, vstd::utf8::encode_utf8_decode_utf8;

    match f.password {
        Some(p) => {
            let key = key_result(opt_str(f.mac)).unwrap();
            lemma_key_nonempty(opt_str(f.mac));
            if p@.len() > 0 {
                lemma_xor_hex_round_trip(encode_utf8(p@), key);
            } else {
                assert(p@ =~= Seq::<char>::empty());
                assert(encode_utf8(p@) =~= Seq::<u8>::empty());
                lemma_xor_hex_round_trip(encode_utf8(p@), key);
                assert(hex_lower(xor_key(encode_utf8(p@), key)) =~= p@);
            }
        },
        None => {},
    }
}

impl<'a> From<&'a Config> for PlainConfig {
    fn from(config: &'a Config) -> (r: PlainConfig) {
        PlainConfig {
            server: Some(config.server.clone()),
            username: Some(config.username.clone()),
            password: Some(config.password.clone()),
            host_ip: Some(config.host_ip.clone()),
            mac: Some(config.mac.clone()),
            host_name: Some(config.host_name.clone()),
            primary_dns: Some(config.primary_dns.clone()),
            dhcp_server: Some(config.dhcp_server.clone()),
            bind_ip: Some(config.bind_ip.clone()),
            control_check_status: Some(config.control_check_status.clone()),
            adapter_num: Some(config.adapter_num.clone()),
            ip_dog: Some(config.ip_dog.clone()),
            auth_version: Some(config.auth_version.clone()),
            keep_alive_version: Some(config.keep_alive_version.clone()),
            is_test: Some(config.is_test),
            unlimited_retry: Some(config.unlimited_retry),
        }
    }
}

impl<'a> vstd::std_specs::convert::FromSpecImpl<&'a Config> for PlainConfig {
    open spec fn obeys_from_spec() -> bool {
        true
    }

    open spec fn from_spec(config: &'a Config) -> PlainConfig {
        PlainConfig {
            server: Some(config.server),
            username: Some(config.username),
            password: Some(config.password),
            host_ip: Some(config.host_ip),
            mac: Some(config.mac),
            host_name: Some(config.host_name),
            primary_dns: Some(config.primary_dns),
            dhcp_server: Some(config.dhcp_server),
            bind_ip: Some(config.bind_ip),
            control_check_status: Some(config.control_check_status),
            adapter_num: Some(config.adapter_num),
            ip_dog: Some(config.ip_dog),
            auth_version: Some(config.auth_version),
            keep_alive_version: Some(config.keep_alive_version),
            is_test: Some(config.is_test),
            unlimited_retry: Some(config.unlimited_retry),
        }
    }
}


/// Executable form of [`xor_hex_decode_panics`].
pub fn xor_hex_decode_would_panic(hex: &str) -> (b: bool)
    ensures
        b == xor_hex_decode_panics(hex@),
{
    let cs = chars_of(hex);
    !utf8_len_is_odd(&cs) && hex_pairs_would_panic(&cs)
}

/// Executable form of [`reveal_panics`].
pub fn reveal_would_panic(fields: &PlainConfig) -> (b: bool)
    ensures
        b == reveal_panics(*fields),
{
    match &fields.password {
        Some(p) => key_from_mac(opt_as_str(&fields.mac)).is_ok() && xor_hex_decode_would_panic(p.as_str()),
        None => false,
    }
}

} // verus!
