//! Local network adapters, for choosing the MAC to authenticate with.

use vstd::prelude::*;
use network_interface::{Addr, NetworkInterface, NetworkInterfaceConfig};
use crate::text::{chars_of, digit_val, digit_value, split_chars_either, split_on_either};

verus! {

/// One adapter as the operating system reports it.
pub struct InterfaceRecord {
    pub name: String,
    pub mac: Option<String>,
    pub addrs: Vec<AddressRecord>,
    pub internal: bool,
}

/// One address of an adapter; IPv4 addresses in dotted form.
pub enum AddressRecord {
    V4(String),
    V6,
}

/// A local network adapter.
#[derive(Debug, Clone, PartialEq, Eq)]
pub struct AdapterInfo {
    /// The adapter's name (the friendly name on Windows, the interface name elsewhere).
    pub name: String,
    /// The MAC address; some virtual adapters have none.
    pub mac: Option<String>,
    /// The IPv4 addresses configured on the adapter, possibly none.
    pub ipv4: Vec<String>,
    /// Whether this is a loopback or similar interface that is not remotely reachable.
    pub internal: bool,
}

/// `NetworkInterface::show` of the `network-interface` crate, each interface
/// copied field by field (IPv4 addresses written in dotted form). What it
/// lists depends on the machine; nothing is stated of it.
#[verifier::external_body]
fn show_interfaces() -> (r: Result<Vec<InterfaceRecord>, String>) {
    let list = NetworkInterface::show().map_err(|e| e.to_string())?;
    Ok(list.into_iter().map(|i| InterfaceRecord {
        name: i.name,
        mac: i.mac_addr,
        internal: i.internal,
        addrs: i.addr.iter().map(|a| match a {
            Addr::V4(v) => AddressRecord::V4(v.ip.to_string()),
            Addr::V6(_) => AddressRecord::V6,
        }).collect(),
    }).collect())
}

/// The IPv4 addresses among `addrs`, in order.
pub open spec fn v4_addresses(addrs: Seq<AddressRecord>) -> Seq<String>
    decreases addrs.len(),
{
    if addrs.len() == 0 {
        seq![]
    } else {
        let init = v4_addresses(addrs.drop_last());
        match addrs.last() {
            AddressRecord::V4(s) => init.push(s),
            AddressRecord::V6 => init,
        }
    }
}

/// `a` is the adapter that `r` describes: the same name, MAC and kind, and
/// the IPv4 addresses of `r`.
pub open spec fn describes(a: AdapterInfo, r: InterfaceRecord) -> bool {
    &&& a.name == r.name
    &&& a.mac == r.mac
    &&& a.internal == r.internal
    &&& a.ipv4@ == v4_addresses(r.addrs@)
}

/// Each adapter of `v` is the one that the record at its position describes.
pub open spec fn all_described(v: Seq<AdapterInfo>, recs: Seq<InterfaceRecord>) -> bool {
    recs.len() == v.len() && forall|i: int| 0 <= i < v.len() ==> describes(#[trigger] v[i], recs[i])
}

fn ipv4_of(addrs: Vec<AddressRecord>) -> (r: Vec<String>)
    ensures
        r@ == v4_addresses(addrs@),
{
    let ghost orig = addrs@;
    let mut addrs = addrs;
    let mut out: Vec<String> = Vec::new();
    let n = addrs.len();
    let mut k: usize = 0;
    assert(orig.subrange(0, n as int) =~= orig);
    while k < n
        invariant
            k <= n == orig.len(),
            addrs@ == orig.subrange(k as int, n as int),
            out@ == v4_addresses(orig.take(k as int)),
        decreases n - k,
    {
        let a = addrs.remove(0);
        assert(orig.take(k + 1).drop_last() =~= orig.take(k as int));
        assert(a == orig[k as int]);
        match a {
            AddressRecord::V4(s) => {
                out.push(s);
            },
            AddressRecord::V6 => {},
        }
        assert(addrs@ =~= orig.subrange(k + 1, n as int));
        k = k + 1;
    }
    assert(orig.take(n as int) =~= orig);
    out
}

/// The adapters that the records describe, in order.
pub fn adapters_from(records: Vec<InterfaceRecord>) -> (r: Vec<AdapterInfo>)
    ensures
        r@.len() == records@.len(),
        forall|i: int| 0 <= i < r@.len() ==> describes(#[trigger] r@[i], records@[i]),
{
    let ghost orig = records@;
    let mut records = records;
    let mut out: Vec<AdapterInfo> = Vec::new();
    let n = records.len();
    let mut k: usize = 0;
    assert(orig.subrange(0, n as int) =~= orig);
    while k < n
        invariant
            k <= n == orig.len(),
            records@ == orig.subrange(k as int, n as int),
            out@.len() == k,
            forall|i: int| 0 <= i < k ==> describes(#[trigger] out@[i], orig[i]),
        decreases n - k,
    {
        let rec = records.remove(0);
        assert(rec == orig[k as int]);
        let ipv4 = ipv4_of(rec.addrs);
        out.push(AdapterInfo { name: rec.name, mac: rec.mac, ipv4, internal: rec.internal });
        assert(records@ =~= orig.subrange(k + 1, n as int));
        k = k + 1;
    }
    out
}

/// A part of a MAC string that is one byte written as two hex digits.
pub open spec fn hex_octet(p: Seq<char>) -> bool {
    p.len() == 2 && digit_val(p[0], 16) is Some && digit_val(p[1], 16) is Some
}

/// A MAC string that names a usable unicast address: six parts separated by
/// `:` or `-`, each two hex digits, not all `00`, and with the group bit (the
/// low bit of the first byte) clear.
pub open spec fn usable_mac(cs: Seq<char>) -> bool {
    let parts = split_on_either(cs, ':', '-');
    &&& parts.len() == 6
    &&& forall|i: int| 0 <= i < 6 ==> hex_octet(#[trigger] parts[i])
    &&& !(forall|i: int| 0 <= i < 6 ==> #[trigger] parts[i] == seq!['0', '0'])
    &&& digit_val(parts[0][1], 16).unwrap() % 2 == 0
}

/// Whether `mac` is a usable six-byte unicast address (see [`usable_mac`]).
/// Tunnel adapters report identifiers of other lengths, and some adapters an
/// all-zero address.
pub fn is_usable_mac(mac: &str) -> (b: bool)
    ensures
        b == usable_mac(mac@),
{
    let cs = chars_of(mac);
    let parts = split_chars_either(&cs, ':', '-');
    let ghost sp = split_on_either(mac@, ':', '-');
    if parts.len() != 6 {
        return false;
    }
    let mut all_zero = true;
    let mut unicast = true;
    let mut i: usize = 0;
    while i < 6
        invariant
            i <= 6,
            sp == split_on_either(mac@, ':', '-'),
            parts@.len() == 6 == sp.len(),
            forall|j: int| 0 <= j < 6 ==> #[trigger] parts@[j]@ == sp[j],
            forall|j: int| 0 <= j < i ==> hex_octet(#[trigger] sp[j]),
            all_zero == forall|j: int| 0 <= j < i ==> #[trigger] sp[j] == seq!['0', '0'],
            i > 0 ==> unicast == (digit_val(sp[0][1], 16).unwrap() % 2 == 0),
        decreases 6 - i,
    {
        let part = &parts[i];
        assert(part@ == sp[i as int]);
        if part.len() != 2 {
            return false;
        }
        let hi = digit_value(part[0], 16);
        let lo = digit_value(part[1], 16);
        match (hi, lo) {
            (Some(_), Some(l)) => {
                if i == 0 {
                    unicast = l % 2 == 0;
                }
            },
            _ => {
                return false;
            },
        }
        if !(part[0] == '0' && part[1] == '0') {
            all_zero = false;
            assert(sp[i as int] != seq!['0', '0']);
        } else {
            assert(sp[i as int] =~= seq!['0', '0']);
        }
        i = i + 1;
    }
    !all_zero && unicast
}

/// Whether an adapter can be used to authenticate: not internal, with a usable MAC.
pub open spec fn usable_adapter(a: AdapterInfo) -> bool {
    !a.internal && (a.mac matches Some(m) && usable_mac(m@))
}

/// The usable adapters among `all`, in order.
pub open spec fn usable_only(all: Seq<AdapterInfo>) -> Seq<AdapterInfo> {
    all.filter(|a: AdapterInfo| usable_adapter(a))
}

/// The usable adapters among `all`, in order.
pub fn select_usable(all: Vec<AdapterInfo>) -> (r: Vec<AdapterInfo>)
    ensures
        r@ == all@.filter(|a: AdapterInfo| usable_adapter(a)),
{
    let ghost orig = all@;
    let mut all = all;
    let mut out: Vec<AdapterInfo> = Vec::new();
    let n = all.len();
    let mut k: usize = 0;
    assert(orig.subrange(0, n as int) =~= orig);
    while k < n
        invariant
            k <= n == orig.len(),
            all@ == orig.subrange(k as int, n as int),
            out@ == orig.take(k as int).filter(|a: AdapterInfo| usable_adapter(a)),
        decreases n - k,
    {
        proof {
            reveal_with_fuel(Seq::<_>::filter, 1);
            assert(orig.take(k + 1).drop_last() =~= orig.take(k as int));
        }
        let a = all.remove(0);
        assert(a == orig[k as int]);
        let keep = !a.internal && match &a.mac {
            Some(m) => is_usable_mac(m.as_str()),
            None => false,
        };
        if keep {
            out.push(a);
        }
        assert(all@ =~= orig.subrange(k + 1, n as int));
        k = k + 1;
    }
    assert(orig.take(n as int) =~= orig);
    out
}

/// All local network adapters: one for each interface that the system lists.
pub fn list_adapters() -> (r: Result<Vec<AdapterInfo>, String>)
    ensures
        r matches Ok(v) ==> exists|recs: Seq<InterfaceRecord>| #[trigger] all_described(v@, recs),
{
    match show_interfaces() {
        Ok(records) => {
            let ghost recs = records@;
            let v = adapters_from(records);
            assert(all_described(v@, recs));
            let r: Result<Vec<AdapterInfo>, String> = Ok(v);
            assert(r matches Ok(w) && all_described(w@, recs));
            r
        },
        Err(e) => Err(e),
    }
}

/// The local adapters that can be used to authenticate: not loopback or
/// otherwise internal, and with a usable six-byte MAC. They are exactly the
/// usable ones among the adapters of one listing, in its order; a failed
/// listing is passed on as the error.
pub fn usable_adapters() -> (r: Result<Vec<AdapterInfo>, String>)
    ensures
        r matches Ok(v) ==> forall|i: int| 0 <= i < v@.len() ==> usable_adapter(#[trigger] v@[i]),
        r matches Ok(v) ==> exists|all: Seq<AdapterInfo>, recs: Seq<InterfaceRecord>|
            #[trigger] all_described(all, recs) && v@ == usable_only(all),
{
    match list_adapters() {
        Ok(all) => {
            let ghost orig = all@;
            let ghost recs = choose|recs: Seq<InterfaceRecord>| #[trigger] all_described(orig, recs);
            let v = select_usable(all);
            assert(all_described(orig, recs) && v@ == usable_only(orig));
            proof {
                let ghost f = |a: AdapterInfo| usable_adapter(a);
                assert forall|i: int| 0 <= i < v@.len() implies usable_adapter(#[trigger] v@[i]) by {
                    orig.lemma_filter_pred(f, i);
                }
            }
            Ok(v)
        },
        Err(e) => Err(e),
    }
}

} // verus!
