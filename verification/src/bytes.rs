//! Byte-sequence building blocks shared by the packet builders.

use vstd::prelude::*;

verus! {

/// `n` zero bytes.
pub open spec fn zeros(n: nat) -> Seq<u8> {
    Seq::new(n, |i: int| 0u8)
}

/// `s` padded on the right with zeros up to `n` bytes; longer inputs are kept
/// whole.
pub open spec fn pad_right(s: Seq<u8>, n: nat) -> Seq<u8> {
    if s.len() < n {
        s + zeros((n - s.len()) as nat)
    } else {
        s
    }
}

/// Exactly six bytes: the last six of `s`, or `s` padded on the left with zeros.
pub open spec fn fit6(s: Seq<u8>) -> Seq<u8> {
    if s.len() >= 6 {
        s.subrange(s.len() - 6, s.len() as int)
    } else {
        zeros((6 - s.len()) as nat) + s
    }
}

/// Appends the bytes of `s` to `v`.
pub fn append_bytes(v: &mut Vec<u8>, s: &[u8])
    ensures
        final(v)@ == old(v)@ + s@,
{
    let mut i: usize = 0;
    while i < s.len()
        invariant
            i <= s@.len(),
            v@ == old(v)@ + s@.take(i as int),
        decreases s@.len() - i,
    {
        v.push(s[i]);
        assert(old(v)@ + s@.take(i + 1) =~= v@);
        i = i + 1;
    }
    assert(s@.take(s@.len() as int) =~= s@);
}

/// Appends `n` zero bytes to `v`.
pub fn append_zeros(v: &mut Vec<u8>, n: usize)
    ensures
        final(v)@ == old(v)@ + zeros(n as nat),
{
    let mut i: usize = 0;
    while i < n
        invariant
            i <= n,
            v@ == old(v)@ + zeros(i as nat),
        decreases n - i,
    {
        v.push(0u8);
        assert(old(v)@ + zeros((i + 1) as nat) =~= v@);
        i = i + 1;
    }
}

/// Appends `s` padded on the right with zeros to `n` bytes (see [`pad_right`]).
pub fn append_padded(v: &mut Vec<u8>, s: &[u8], n: usize)
    ensures
        final(v)@ == old(v)@ + pad_right(s@, n as nat),
{
    append_bytes(v, s);
    if s.len() < n {
        append_zeros(v, n - s.len());
        assert(old(v)@ + s@ + zeros((n - s@.len()) as nat) =~= old(v)@ + pad_right(s@, n as nat));
    }
}

/// Appends the six bytes [`fit6`] of `s`.
pub fn append_fit6(v: &mut Vec<u8>, s: &Vec<u8>)
    ensures
        final(v)@ == old(v)@ + fit6(s@),
{
    let n = s.len();
    if n >= 6 {
        let mut i: usize = n - 6;
        while i < n
            invariant
                6 <= n == s@.len(),
                n - 6 <= i <= n,
                v@ == old(v)@ + s@.subrange(n - 6, i as int),
            decreases n - i,
        {
            v.push(s[i]);
            assert(old(v)@ + s@.subrange(n - 6, i + 1) =~= v@);
            i = i + 1;
        }
    } else {
        append_zeros(v, 6 - n);
        append_bytes(v, s.as_slice());
        assert(old(v)@ + zeros((6 - n) as nat) + s@ =~= old(v)@ + fit6(s@));
    }
}

} // verus!
