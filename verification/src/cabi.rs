//! The logic behind the C interface: reading a configuration field by name,
//! laying out fixed-size C string buffers, and making error messages safe to
//! hand out as C strings.

use vstd::prelude::*;
use vstd::utf8::encode_utf8;
use crate::bytes::{append_zeros, zeros};
use crate::config::Config;
use crate::text::{chars_of, char_width, char_width_of, lemma_encode_utf8_add, lemma_utf8_len_push, push_char, str_eq, utf8_len};

verus! {

/// The configuration field that a C caller names, if it is one of the
/// readable ones.
pub open spec fn field_spec(c: Config, name: Seq<char>) -> Option<String> {
    if name == "server"@ {
        Some(c.server)
    } else if name == "username"@ {
        Some(c.username)
    } else if name == "password"@ {
        Some(c.password)
    } else if name == "host_ip"@ {
        Some(c.host_ip)
    } else if name == "mac"@ {
        Some(c.mac)
    } else if name == "host_name"@ {
        Some(c.host_name)
    } else if name == "primary_dns"@ {
        Some(c.primary_dns)
    } else if name == "dhcp_server"@ {
        Some(c.dhcp_server)
    } else if name == "bind_ip"@ {
        Some(c.bind_ip)
    } else {
        None
    }
}

/// Reads a configuration field by name: `server`, `username`, `password`,
/// `host_ip`, `mac`, `host_name`, `primary_dns`, `dhcp_server` or `bind_ip`;
/// `None` for any other name.
pub fn config_field(config: &Config, name: &str) -> (r: Option<String>)
    ensures
        r == field_spec(*config, name@),
{
    if str_eq(name, "server") {
        Some(config.server.clone())
    } else if str_eq(name, "username") {
        Some(config.username.clone())
    } else if str_eq(name, "password") {
        Some(config.password.clone())
    } else if str_eq(name, "host_ip") {
        Some(config.host_ip.clone())
    } else if str_eq(name, "mac") {
        Some(config.mac.clone())
    } else if str_eq(name, "host_name") {
        Some(config.host_name.clone())
    } else if str_eq(name, "primary_dns") {
        Some(config.primary_dns.clone())
    } else if str_eq(name, "dhcp_server") {
        Some(config.dhcp_server.clone())
    } else if str_eq(name, "bind_ip") {
        Some(config.bind_ip.clone())
    } else {
        None
    }
}

/// The number of leading characters of `cs` whose UTF-8 encoding fits in
/// `budget` bytes.
pub open spec fn fit_chars(cs: Seq<char>, budget: nat) -> nat
    decreases cs.len(),
{
    if cs.len() == 0 || char_width(cs[0]) > budget {
        0
    } else {
        1 + fit_chars(cs.drop_first(), (budget - char_width(cs[0])) as nat)
    }
}

/// The contents of a zeroed C buffer of `cap` bytes after `src` is written
/// into it: the UTF-8 encoding of as many whole characters of `src` as leave
/// room for the NUL, then zeros. A character that does not fit is left out
/// whole, so the bytes before the NUL are valid UTF-8.
pub open spec fn c_slot(src: Seq<char>, cap: nat) -> Seq<u8> {
    let kept = encode_utf8(src.take(fit_chars(src, (cap - 1) as nat) as int));
    kept + zeros((cap - kept.len()) as nat)
}

/// Lays `src` out in a zeroed C buffer of `cap` bytes (see [`c_slot`]).
pub fn c_string_slot(src: &str, cap: usize) -> (r: Vec<u8>)
    requires
        cap > 0,
    ensures
        r@ == c_slot(src@, cap as nat),
        r@.len() == cap,
        r@[cap - 1] == 0,
{
    let cs = chars_of(src);
    let budget: usize = cap - 1;
    let mut used: usize = 0;
    let mut k: usize = 0;
    let mut full: bool = false;
    assert(src@.skip(0) =~= src@);
    assert(src@.take(0) =~= Seq::<char>::empty());
    while k < cs.len() && !full
        invariant
            cs@ == src@,
            k <= cs@.len(),
            used <= budget,
            used == utf8_len(src@.take(k as int)),
            fit_chars(src@, budget as nat) == k + fit_chars(src@.skip(k as int), (budget - used) as nat),
            full ==> fit_chars(src@.skip(k as int), (budget - used) as nat) == 0,
        decreases cs@.len() - k + (if full { 0int } else { 1int }),
    {
        let c = cs[k];
        let w = char_width_of(c);
        let ghost rest = src@.skip(k as int);
        assert(rest[0] == c);
        if w > budget - used {
            full = true;
        } else {
            proof {
                assert(rest.drop_first() =~= src@.skip(k + 1));
                assert(src@.take(k + 1) =~= src@.take(k as int).push(c));
                lemma_utf8_len_push(src@.take(k as int), c);
            }
            used = used + w;
            k = k + 1;
        }
    }
    proof {
        if !full {
            assert(src@.skip(k as int).len() == 0);
        }
        assert(fit_chars(src@, budget as nat) == k);
        assert(src@ =~= src@.take(k as int) + src@.skip(k as int));
        lemma_encode_utf8_add(src@.take(k as int), src@.skip(k as int));
    }
    let bytes = src.as_bytes();
    let ghost kept = encode_utf8(src@.take(k as int));
    assert(bytes@.take(used as int) =~= kept);
    let mut out: Vec<u8> = Vec::new();
    let mut i: usize = 0;
    while i < used
        invariant
            i <= used,
            used <= bytes@.len(),
            out@ == bytes@.take(i as int),
        decreases used - i,
    {
        out.push(bytes[i]);
        assert(out@ =~= bytes@.take(i + 1));
        i = i + 1;
    }
    append_zeros(&mut out, cap - used);
    assert(out@ =~= c_slot(src@, cap as nat));
    out
}

/// `cs` with every NUL replaced by a space.
pub open spec fn nul_to_space(cs: Seq<char>) -> Seq<char> {
    Seq::new(cs.len(), |i: int| if cs[i] == '\0' { ' ' } else { cs[i] })
}

/// An error message with its NUL characters replaced by spaces, so that it
/// can become a C string.
pub fn without_nul(msg: &str) -> (r: String)
    ensures
        r@ == nul_to_space(msg@),
        !r@.contains('\0'),
{
    let cs = chars_of(msg);
    let mut r = String::new();
    let mut i: usize = 0;
    while i < cs.len()
        invariant
            i <= cs@.len(),
            cs@ == msg@,
            r@ == nul_to_space(msg@).take(i as int),
        decreases cs@.len() - i,
    {
        let c = cs[i];
        push_char(&mut r, if c == '\0' { ' ' } else { c });
        assert(r@ =~= nul_to_space(msg@).take(i + 1));
        i = i + 1;
    }
    assert(nul_to_space(msg@).take(cs@.len() as int) =~= nul_to_space(msg@));
    r
}

} // verus!
