//! Character-level text handling: the parts of `str` parsing that the
//! configuration and storage formats rely on, stated over `Seq<char>`.

use vstd::prelude::*;
use vstd::utf8::{encode_scalar, encode_utf8};

verus! {

/// The characters of `s`, in order.
pub fn chars_of(s: &str) -> (v: Vec<char>)
    ensures
        v@ == s@,
{
    let mut v: Vec<char> = Vec::new();
    for c in it: s.chars()
        invariant
            v@ == it.seq().take(it.index() as int),
            it.seq() == s@,
    {
        v.push(c);
    }
    v
}

/// Unicode `White_Space`, the property that `char::is_whitespace` tests.
pub open spec fn is_ws(c: char) -> bool {
    ||| '\u{9}' <= c <= '\u{d}'
    ||| c == ' '
    ||| c == '\u{85}'
    ||| c == '\u{a0}'
    ||| c == '\u{1680}'
    ||| '\u{2000}' <= c <= '\u{200a}'
    ||| c == '\u{2028}'
    ||| c == '\u{2029}'
    ||| c == '\u{202f}'
    ||| c == '\u{205f}'
    ||| c == '\u{3000}'
}

/// Executable form of [`is_ws`].
pub fn is_whitespace(c: char) -> (b: bool)
    ensures
        b == is_ws(c),
{
    ('\u{9}' <= c && c <= '\u{d}') || c == ' ' || c == '\u{85}' || c == '\u{a0}'
        || c == '\u{1680}' || ('\u{2000}' <= c && c <= '\u{200a}') || c == '\u{2028}'
        || c == '\u{2029}' || c == '\u{202f}' || c == '\u{205f}' || c == '\u{3000}'
}

/// The characters of `cs` that are not whitespace.
pub open spec fn strip_ws(cs: Seq<char>) -> Seq<char> {
    cs.filter(|c: char| !is_ws(c))
}

/// Drops every whitespace character, as `s.chars().filter(|c| !c.is_whitespace())` does.
pub fn remove_whitespace(cs: &Vec<char>) -> (r: Vec<char>)
    ensures
        r@ == strip_ws(cs@),
{
    let mut r: Vec<char> = Vec::new();
    let mut i: usize = 0;
    while i < cs.len()
        invariant
            i <= cs.len(),
            r@ == strip_ws(cs@.take(i as int)),
        decreases cs.len() - i,
    {
        proof {
            reveal_with_fuel(Seq::<_>::filter, 1);
            assert(cs@.take(i + 1).drop_last() =~= cs@.take(i as int));
        }
        let c = cs[i];
        if !is_whitespace(c) {
            r.push(c);
        }
        i = i + 1;
    }
    assert(cs@.take(cs.len() as int) =~= cs@);
    r
}

/// `cs` with every occurrence of `a` and of `b` removed.
pub open spec fn remove_two(cs: Seq<char>, a: char, b: char) -> Seq<char> {
    cs.filter(|c: char| c != a && c != b)
}

/// Executable form of [`remove_two`], as `s.replace([a, b], "")` computes it.
pub fn remove_chars(cs: &Vec<char>, a: char, b: char) -> (r: Vec<char>)
    ensures
        r@ == remove_two(cs@, a, b),
{
    let mut r: Vec<char> = Vec::new();
    let mut i: usize = 0;
    while i < cs.len()
        invariant
            i <= cs.len(),
            r@ == remove_two(cs@.take(i as int), a, b),
        decreases cs.len() - i,
    {
        proof {
            reveal_with_fuel(Seq::<_>::filter, 1);
            assert(cs@.take(i + 1).drop_last() =~= cs@.take(i as int));
        }
        let c = cs[i];
        if c != a && c != b {
            r.push(c);
        }
        i = i + 1;
    }
    assert(cs@.take(cs.len() as int) =~= cs@);
    r
}

/// The value of `c` as a digit in `radix`, as `char::to_digit` gives it.
pub open spec fn digit_val(c: char, radix: nat) -> Option<nat> {
    let v: nat = if '0' <= c <= '9' {
        (c as nat - '0' as nat) as nat
    } else if 'a' <= c <= 'z' {
        (c as nat - 'a' as nat + 10) as nat
    } else if 'A' <= c <= 'Z' {
        (c as nat - 'A' as nat + 10) as nat
    } else {
        radix
    };
    if v < radix {
        Some(v)
    } else {
        None
    }
}

/// Executable form of [`digit_val`] for `radix <= 36`.
pub fn digit_value(c: char, radix: u32) -> (r: Option<u32>)
    requires
        2 <= radix <= 36,
    ensures
        r matches Some(v) ==> digit_val(c, radix as nat) == Some(v as nat),
        r is None ==> digit_val(c, radix as nat) is None,
{
    let v: u32 = if '0' <= c && c <= '9' {
        (c as u32) - ('0' as u32)
    } else if 'a' <= c && c <= 'z' {
        (c as u32) - ('a' as u32) + 10
    } else if 'A' <= c && c <= 'Z' {
        (c as u32) - ('A' as u32) + 10
    } else {
        radix
    };
    if v < radix {
        Some(v)
    } else {
        None
    }
}

/// The value of a string of digits in `radix`, most significant first;
/// `None` when some character is not a digit.
pub open spec fn digits_value(ds: Seq<char>, radix: nat) -> Option<nat>
    decreases ds.len(),
{
    if ds.len() == 0 {
        Some(0)
    } else {
        match (digits_value(ds.drop_last(), radix), digit_val(ds.last(), radix)) {
            (Some(v), Some(d)) => Some(v * radix + d),
            _ => None,
        }
    }
}

/// What `from_str_radix` gives for an unsigned integer type whose largest
/// value is `max`: `None` for an empty string, a lone sign, a character that
/// is not a digit, or a value above `max`. One leading `+` is accepted.
pub open spec fn parse_unsigned(s: Seq<char>, radix: nat, max: nat) -> Option<nat> {
    if s.len() == 0 {
        None
    } else if s.len() == 1 && (s[0] == '+' || s[0] == '-') {
        None
    } else {
        let ds = if s[0] == '+' { s.drop_first() } else { s };
        match digits_value(ds, radix) {
            Some(v) => if v <= max { Some(v) } else { None },
            None => None,
        }
    }
}

/// A string with a value has a digit at every position.
pub(crate) proof fn lemma_digits_value_some(ds: Seq<char>, radix: nat)
    ensures
        digits_value(ds, radix) is Some ==> forall|i: int| 0 <= i < ds.len() ==> #[trigger] digit_val(ds[i], radix) is Some,
    decreases ds.len(),
{
    if ds.len() > 0 {
        lemma_digits_value_some(ds.drop_last(), radix);
        assert forall|i: int| 0 <= i < ds.len() - 1 implies ds.drop_last()[i] == ds[i] by {}
    }
}

proof fn lemma_saturate_step(v: nat, r: nat, d: nat, cap: nat)
    requires
        v >= cap,
        r >= 1,
    ensures
        v * r + d >= cap,
{
    assert(v * r >= v) by (nonlinear_arith)
        requires
            r >= 1,
    ;
}

/// Parses `cs[start..end]` as an unsigned integer in `radix`, with the
/// semantics of `from_str_radix` for a type whose largest value is `max`.
pub fn parse_unsigned_range(cs: &Vec<char>, start: usize, end: usize, radix: u32, max: u64) -> (r: Option<u64>)
    requires
        start <= end <= cs.len(),
        2 <= radix <= 36,
    ensures
        r matches Some(v) ==> parse_unsigned(cs@.subrange(start as int, end as int), radix as nat, max as nat) == Some(v as nat),
        r is None ==> parse_unsigned(cs@.subrange(start as int, end as int), radix as nat, max as nat) is None,
{
    let ghost s = cs@.subrange(start as int, end as int);
    if start == end {
        return None;
    }
    if end - start == 1 && (cs[start] == '+' || cs[start] == '-') {
        return None;
    }
    let first: usize = if cs[start] == '+' { start + 1 } else { start };
    let ghost ds = cs@.subrange(first as int, end as int);
    assert(ds =~= (if s[0] == '+' { s.drop_first() } else { s }));
    let cap: u128 = (max as u128) + 1;
    let mut acc: u128 = 0;
    let mut valid: bool = true;
    let mut i: usize = first;
    while i < end
        invariant
            first <= i <= end <= cs.len(),
            2 <= radix <= 36,
            cap == max as u128 + 1,
            valid <==> digits_value(cs@.subrange(first as int, i as int), radix as nat) is Some,
            valid ==> acc as nat == if digits_value(cs@.subrange(first as int, i as int), radix as nat).unwrap() < cap as nat {
                digits_value(cs@.subrange(first as int, i as int), radix as nat).unwrap()
            } else {
                cap as nat
            },
            acc <= cap,
        decreases end - i,
    {
        let ghost pre = cs@.subrange(first as int, i as int);
        let ghost next = cs@.subrange(first as int, i + 1);
        assert(next.drop_last() =~= pre);
        assert(next.last() == cs@[i as int]);
        match digit_value(cs[i], radix) {
            Some(d) => {
                if valid {
                    let ghost v = digits_value(pre, radix as nat).unwrap();
                    assert(digits_value(next, radix as nat) == Some(v * (radix as nat) + (d as nat)));
                    if acc == cap {
                        proof {
                            lemma_saturate_step(v, radix as nat, d as nat, cap as nat);
                        }
                    } else {
                        assert(acc as nat == v);
                        assert(acc * (radix as u128) <= cap * 36) by (nonlinear_arith)
                            requires
                                acc <= cap,
                                radix <= 36,
                        ;
                        let next_acc: u128 = acc * (radix as u128) + (d as u128);
                        acc = if next_acc < cap { next_acc } else { cap };
                    }
                }
            },
            None => {
                valid = false;
            },
        }
        i = i + 1;
    }
    if valid && acc < cap {
        Some(acc as u64)
    } else {
        None
    }
}

/// A character whose UTF-8 encoding is a single byte.
pub open spec fn is_ascii_char(c: char) -> bool {
    (c as u32) < 0x80
}

/// The number of bytes of the UTF-8 encoding of `c`.
pub open spec fn char_width(c: char) -> nat {
    if (c as u32) < 0x80 {
        1
    } else if (c as u32) < 0x800 {
        2
    } else if (c as u32) < 0x10000 {
        3
    } else {
        4
    }
}

/// The byte length of the UTF-8 encoding of `cs`, which `str::len` returns.
pub open spec fn utf8_len(cs: Seq<char>) -> nat {
    encode_utf8(cs).len()
}

/// A `char` is a Unicode scalar value.
proof fn lemma_char_is_scalar(c: char)
    ensures
        !(0xD800 <= c as u32 <= 0xDFFF),
        c as u32 <= 0x10FFFF,
{
}

spec fn widths(cs: Seq<char>) -> nat
    decreases cs.len(),
{
    if cs.len() == 0 {
        0
    } else {
        char_width(cs[0]) + widths(cs.drop_first())
    }
}

proof fn lemma_widths_encode(cs: Seq<char>)
    ensures
        widths(cs) == encode_utf8(cs).len(),
    decreases cs.len(),
{
    if cs.len() > 0 {
        lemma_widths_encode(cs.drop_first());
        lemma_char_is_scalar(cs[0]);
        assert(encode_scalar(cs[0] as u32).len() == char_width(cs[0]));
    }
}

proof fn lemma_widths_push(cs: Seq<char>, c: char)
    ensures
        widths(cs.push(c)) == widths(cs) + char_width(c),
    decreases cs.len(),
{
    if cs.len() == 0 {
        assert(cs.push(c).drop_first() =~= Seq::<char>::empty());
        reveal_with_fuel(widths, 2);
    } else {
        assert(cs.push(c).drop_first() =~= cs.drop_first().push(c));
        lemma_widths_push(cs.drop_first(), c);
    }
}

/// Appending a character adds its width to the UTF-8 length.
pub(crate) proof fn lemma_utf8_len_push(cs: Seq<char>, c: char)
    ensures
        utf8_len(cs.push(c)) == utf8_len(cs) + char_width(c),
{
    lemma_widths_push(cs, c);
    lemma_widths_encode(cs);
    lemma_widths_encode(cs.push(c));
}

/// The UTF-8 encoding of a concatenation is the concatenation of the encodings.
pub(crate) proof fn lemma_encode_utf8_add(a: Seq<char>, b: Seq<char>)
    ensures
        encode_utf8(a + b) == encode_utf8(a) + encode_utf8(b),
    decreases a.len(),
{
    if a.len() == 0 {
        assert(a + b =~= b);
        assert(encode_utf8(a) + encode_utf8(b) =~= encode_utf8(b));
    } else {
        assert((a + b).drop_first() =~= a.drop_first() + b);
        assert((a + b)[0] == a[0]);
        lemma_encode_utf8_add(a.drop_first(), b);
        assert(encode_utf8(a + b) =~= encode_utf8(a) + encode_utf8(b));
    }
}

/// The number of bytes of the UTF-8 encoding of `c` ([`char_width`]).
pub(crate) fn char_width_of(c: char) -> (w: usize)
    ensures
        w == char_width(c),
{
    let u = c as u32;
    if u < 0x80 {
        1
    } else if u < 0x800 {
        2
    } else if u < 0x10000 {
        3
    } else {
        4
    }
}

/// Whether the UTF-8 encoding of `cs` has an odd number of bytes.
pub fn utf8_len_is_odd(cs: &Vec<char>) -> (b: bool)
    ensures
        b == (utf8_len(cs@) % 2 == 1),
{
    let mut odd: bool = false;
    let mut i: usize = 0;
    while i < cs.len()
        invariant
            i <= cs.len(),
            odd == (widths(cs@.take(i as int)) % 2 == 1),
        decreases cs.len() - i,
    {
        proof {
            assert(cs@.take(i + 1) =~= cs@.take(i as int).push(cs@[i as int]));
            lemma_widths_push(cs@.take(i as int), cs@[i as int]);
        }
        let c = cs[i];
        let w_odd: bool = (c as u32) < 0x80 || ((c as u32) >= 0x800 && (c as u32) < 0x10000);
        odd = odd != w_odd;
        i = i + 1;
    }
    proof {
        assert(cs@.take(cs.len() as int) =~= cs@);
        lemma_widths_encode(cs@);
    }
    odd
}

/// What `u8::from_str_radix` gives for a two-character ASCII string in base 16.
pub open spec fn hex_pair(c1: char, c2: char) -> Option<u8> {
    if c1 == '+' {
        match digit_val(c2, 16) {
            Some(d) => Some(d as u8),
            None => None,
        }
    } else {
        match (digit_val(c1, 16), digit_val(c2, 16)) {
            (Some(h), Some(l)) => Some((h * 16 + l) as u8),
            _ => None,
        }
    }
}

/// Decoding of a string as consecutive two-byte hex pairs, each read by
/// `u8::from_str_radix(&s[i..i + 2], 16)`; `None` when a pair is not a number.
/// A pair made of one two-byte character is not a number; the inputs on which
/// the slicing itself would fail are those of [`hex_pairs_panic`].
pub open spec fn hex_pairs(cs: Seq<char>) -> Option<Seq<u8>>
    decreases cs.len(),
{
    if cs.len() == 0 {
        Some(seq![])
    } else if !is_ascii_char(cs[0]) || cs.len() == 1 || !is_ascii_char(cs[1]) {
        None
    } else {
        match (hex_pair(cs[0], cs[1]), hex_pairs(cs.subrange(2, cs.len() as int))) {
            (Some(b), Some(rest)) => Some(seq![b] + rest),
            _ => None,
        }
    }
}

/// The inputs on which slicing `s[i..i + 2]` reaches a byte offset inside a
/// character before any pair fails to parse: a pair starting with a character
/// of three or four bytes, or an ASCII character followed by a non-ASCII one.
pub open spec fn hex_pairs_panic(cs: Seq<char>) -> bool
    decreases cs.len(),
{
    if cs.len() == 0 {
        false
    } else if !is_ascii_char(cs[0]) {
        char_width(cs[0]) > 2
    } else if cs.len() == 1 || !is_ascii_char(cs[1]) {
        true
    } else if hex_pair(cs[0], cs[1]) is None {
        false
    } else {
        hex_pairs_panic(cs.subrange(2, cs.len() as int))
    }
}

/// Executable form of [`hex_pair`].
pub fn hex_pair_value(c1: char, c2: char) -> (r: Option<u8>)
    ensures
        r == hex_pair(c1, c2),
{
    if c1 == '+' {
        match digit_value(c2, 16) {
            Some(d) => Some(d as u8),
            None => None,
        }
    } else {
        match (digit_value(c1, 16), digit_value(c2, 16)) {
            (Some(h), Some(l)) => Some((h * 16 + l) as u8),
            _ => None,
        }
    }
}

/// Decodes `cs` as hex pairs, per [`hex_pairs`].
pub fn decode_hex_pairs(cs: &Vec<char>) -> (r: Option<Vec<u8>>)
    ensures
        r matches Some(v) ==> hex_pairs(cs@) == Some(v@),
        r is None ==> hex_pairs(cs@) is None,
{
    let mut out: Vec<u8> = Vec::new();
    let mut i: usize = 0;
    let n = cs.len();
    assert(cs@.subrange(0, n as int) =~= cs@);
    while i < n
        invariant
            n == cs.len(),
            i <= n,
            hex_pairs(cs@) == match hex_pairs(cs@.subrange(i as int, n as int)) {
                Some(rest) => Some(out@ + rest),
                None => None::<Seq<u8>>,
            },
        decreases n - i,
    {
        let ghost rest = cs@.subrange(i as int, n as int);
        if (cs[i] as u32) >= 0x80 || i + 1 == n || (cs[i + 1] as u32) >= 0x80 {
            return None;
        }
        assert(rest.subrange(2, rest.len() as int) =~= cs@.subrange(i + 2, n as int));
        match hex_pair_value(cs[i], cs[i + 1]) {
            Some(b) => {
                let ghost old_out = out@;
                out.push(b);
                proof {
                    match hex_pairs(cs@.subrange(i + 2, n as int)) {
                        Some(r2) => {
                            assert(old_out + (seq![b] + r2) =~= out@ + r2);
                        },
                        None => {},
                    }
                }
            },
            None => {
                return None;
            },
        }
        i = i + 2;
    }
    assert(cs@.subrange(n as int, n as int) =~= Seq::<char>::empty());
    assert(out@ + Seq::<u8>::empty() =~= out@);
    Some(out)
}

/// The bytes that `cs` spells as consecutive pairs of hex digits, high digit
/// first; `None` when `cs` has an odd length or holds a character that is not
/// a hex digit.
pub open spec fn hex_digit_bytes(cs: Seq<char>) -> Option<Seq<u8>>
    decreases cs.len(),
{
    if cs.len() == 0 {
        Some(seq![])
    } else if cs.len() == 1 {
        None
    } else {
        match (digit_val(cs[0], 16), digit_val(cs[1], 16), hex_digit_bytes(cs.subrange(2, cs.len() as int))) {
            (Some(h), Some(l), Some(rest)) => Some(seq![(h * 16 + l) as u8] + rest),
            _ => None,
        }
    }
}

/// Decodes `cs` as pairs of hex digits, per [`hex_digit_bytes`].
pub fn decode_hex_digits(cs: &Vec<char>) -> (r: Option<Vec<u8>>)
    ensures
        r matches Some(v) ==> hex_digit_bytes(cs@) == Some(v@),
        r is None ==> hex_digit_bytes(cs@) is None,
{
    let mut out: Vec<u8> = Vec::new();
    let mut i: usize = 0;
    let n = cs.len();
    assert(cs@.subrange(0, n as int) =~= cs@);
    while i < n
        invariant
            n == cs.len(),
            i <= n,
            hex_digit_bytes(cs@) == match hex_digit_bytes(cs@.subrange(i as int, n as int)) {
                Some(rest) => Some(out@ + rest),
                None => None::<Seq<u8>>,
            },
        decreases n - i,
    {
        let ghost rest = cs@.subrange(i as int, n as int);
        if i + 1 == n {
            return None;
        }
        assert(rest.subrange(2, rest.len() as int) =~= cs@.subrange(i + 2, n as int));
        let h = digit_value(cs[i], 16);
        let l = digit_value(cs[i + 1], 16);
        match (h, l) {
            (Some(hv), Some(lv)) => {
                let b: u8 = (hv * 16 + lv) as u8;
                let ghost old_out = out@;
                out.push(b);
                proof {
                    match hex_digit_bytes(cs@.subrange(i + 2, n as int)) {
                        Some(r2) => {
                            assert(old_out + (seq![b] + r2) =~= out@ + r2);
                        },
                        None => {},
                    }
                }
            },
            _ => {
                return None;
            },
        }
        i = i + 2;
    }
    assert(cs@.subrange(n as int, n as int) =~= Seq::<char>::empty());
    assert(out@ + Seq::<u8>::empty() =~= out@);
    Some(out)
}

/// `cs` split at every `sep`, as `str::split(sep)` yields the pieces: there is
/// always one piece more than there are separators, and pieces may be empty.
pub open spec fn split_on(cs: Seq<char>, sep: char) -> Seq<Seq<char>>
    decreases cs.len(),
{
    if cs.len() == 0 {
        seq![seq![]]
    } else {
        let init = split_on(cs.drop_last(), sep);
        if cs.last() == sep {
            init.push(seq![])
        } else {
            init.update(init.len() - 1, init.last().push(cs.last()))
        }
    }
}

proof fn lemma_split_nonempty(cs: Seq<char>, sep: char)
    ensures
        split_on(cs, sep).len() >= 1,
    decreases cs.len(),
{
    if cs.len() > 0 {
        lemma_split_nonempty(cs.drop_last(), sep);
    }
}

/// Executable form of [`split_on`].
pub fn split_chars(cs: &Vec<char>, sep: char) -> (parts: Vec<Vec<char>>)
    ensures
        parts@.len() >= 1,
        parts@.len() == split_on(cs@, sep).len(),
        forall|j: int| 0 <= j < parts@.len() ==> #[trigger] parts@[j]@ == split_on(cs@, sep)[j],
{
    let mut parts: Vec<Vec<char>> = Vec::new();
    let mut cur: Vec<char> = Vec::new();
    let mut i: usize = 0;
    while i < cs.len()
        invariant
            i <= cs.len(),
            parts@.len() + 1 == split_on(cs@.take(i as int), sep).len(),
            forall|j: int| 0 <= j < parts@.len() ==> #[trigger] parts@[j]@ == split_on(cs@.take(i as int), sep)[j],
            cur@ == split_on(cs@.take(i as int), sep).last(),
        decreases cs.len() - i,
    {
        let ghost pre = cs@.take(i as int);
        let ghost nxt = cs@.take(i + 1);
        assert(nxt.drop_last() =~= pre);
        proof {
            lemma_split_nonempty(pre, sep);
        }
        let c = cs[i];
        if c == sep {
            parts.push(cur);
            cur = Vec::new();
        } else {
            cur.push(c);
        }
        i = i + 1;
    }
    assert(cs@.take(cs.len() as int) =~= cs@);
    proof {
        lemma_split_nonempty(cs@, sep);
    }
    parts.push(cur);
    parts
}

/// A piece without `sep` splits into itself.
pub(crate) proof fn lemma_split_plain(t: Seq<char>, sep: char)
    requires
        !t.contains(sep),
    ensures
        split_on(t, sep) == seq![t],
    decreases t.len(),
{
    if t.len() > 0 {
        assert(!t.drop_last().contains(sep)) by {
            if t.drop_last().contains(sep) {
                let k = choose|k: int| 0 <= k < t.drop_last().len() && t.drop_last()[k] == sep;
                assert(t[k] == sep);
            }
        }
        lemma_split_plain(t.drop_last(), sep);
        assert(t.last() != sep);
        assert(t.drop_last().push(t.last()) =~= t);
        assert(seq![t.drop_last()].update(0, t.drop_last().push(t.last())) =~= seq![t]);
    } else {
        assert(t =~= Seq::<char>::empty());
    }
}

/// A separator followed by a piece without separators adds that piece.
pub(crate) proof fn lemma_split_append(s: Seq<char>, t: Seq<char>, sep: char)
    requires
        !t.contains(sep),
    ensures
        split_on(s + seq![sep] + t, sep) == split_on(s, sep).push(t),
    decreases t.len(),
{
    if t.len() == 0 {
        assert((s + seq![sep] + t).drop_last() =~= s);
        assert(t =~= Seq::<char>::empty());
    } else {
        assert(!t.drop_last().contains(sep)) by {
            if t.drop_last().contains(sep) {
                let k = choose|k: int| 0 <= k < t.drop_last().len() && t.drop_last()[k] == sep;
                assert(t[k] == sep);
            }
        }
        lemma_split_append(s, t.drop_last(), sep);
        assert((s + seq![sep] + t).drop_last() =~= s + seq![sep] + t.drop_last());
        assert((s + seq![sep] + t).last() == t.last());
        lemma_split_nonempty(s, sep);
        let init = split_on(s, sep).push(t.drop_last());
        assert(t.drop_last().push(t.last()) =~= t);
        assert(init.update(init.len() - 1, init.last().push(t.last())) =~= split_on(s, sep).push(t));
    }
}

/// The decimal digit character of `n < 10`.
pub open spec fn dec_digit(n: nat) -> char {
    if n == 0 {
        '0'
    } else if n == 1 {
        '1'
    } else if n == 2 {
        '2'
    } else if n == 3 {
        '3'
    } else if n == 4 {
        '4'
    } else if n == 5 {
        '5'
    } else if n == 6 {
        '6'
    } else if n == 7 {
        '7'
    } else if n == 8 {
        '8'
    } else {
        '9'
    }
}

/// The decimal text of `n`, without leading zeros, as `format!("{n}")` writes it.
pub open spec fn dec_text(n: nat) -> Seq<char>
    decreases n,
{
    if n < 10 {
        seq![dec_digit(n)]
    } else {
        dec_text(n / 10).push(dec_digit(n % 10))
    }
}

proof fn lemma_dec_digit(n: nat)
    requires
        n < 10,
    ensures
        digit_val(dec_digit(n), 10) == Some(n),
        '0' <= dec_digit(n) <= '9',
{
    if n == 0 {
    } else if n == 1 {
    } else if n == 2 {
    } else if n == 3 {
    } else if n == 4 {
    } else if n == 5 {
    } else if n == 6 {
    } else if n == 7 {
    } else if n == 8 {
    } else {
    }
}

/// Decimal text is made of digits and reads back as its number.
pub(crate) proof fn lemma_dec_text(n: nat)
    ensures
        digits_value(dec_text(n), 10) == Some(n),
        dec_text(n).len() >= 1,
        forall|i: int| 0 <= i < dec_text(n).len() ==> '0' <= #[trigger] dec_text(n)[i] <= '9',
    decreases n,
{
    if n < 10 {
        lemma_dec_digit(n);
        assert(dec_text(n).drop_last() =~= Seq::<char>::empty());
        assert(dec_text(n).last() == dec_digit(n));
        assert(digits_value(dec_text(n).drop_last(), 10) == Some(0nat));
        assert(digits_value(dec_text(n), 10) == Some(0 * 10 + n));
    } else {
        lemma_dec_text(n / 10);
        lemma_dec_digit(n % 10);
        let t = dec_text(n);
        assert(t.drop_last() =~= dec_text(n / 10));
        assert(t.last() == dec_digit(n % 10));
        assert(n == (n / 10) * 10 + n % 10) by (nonlinear_arith);
        assert(digits_value(t, 10) == Some(((n / 10) * 10 + n % 10) as nat));
        assert forall|i: int| 0 <= i < t.len() implies '0' <= #[trigger] t[i] <= '9' by {
            if i < t.len() - 1 {
                assert(t[i] == dec_text(n / 10)[i]);
            }
        }
    }
}

/// `cs` without leading whitespace.
pub open spec fn trim_start(cs: Seq<char>) -> Seq<char>
    decreases cs.len(),
{
    if cs.len() > 0 && is_ws(cs[0]) {
        trim_start(cs.drop_first())
    } else {
        cs
    }
}

/// `cs` without trailing whitespace.
pub open spec fn trim_end(cs: Seq<char>) -> Seq<char>
    decreases cs.len(),
{
    if cs.len() > 0 && is_ws(cs.last()) {
        trim_end(cs.drop_last())
    } else {
        cs
    }
}

/// `cs` without leading and trailing whitespace, as `str::trim` returns it.
pub open spec fn trim(cs: Seq<char>) -> Seq<char> {
    trim_end(trim_start(cs))
}

/// Executable form of [`trim`].
pub fn trim_chars(cs: &Vec<char>) -> (r: Vec<char>)
    ensures
        r@ == trim(cs@),
{
    let n = cs.len();
    let mut a: usize = 0;
    assert(cs@.subrange(0, n as int) =~= cs@);
    while a < n && is_whitespace(cs[a])
        invariant
            a <= n == cs.len(),
            trim_start(cs@) == trim_start(cs@.subrange(a as int, n as int)),
        decreases n - a,
    {
        assert(cs@.subrange(a as int, n as int).drop_first() =~= cs@.subrange(a + 1, n as int));
        a = a + 1;
    }
    assert(trim_start(cs@) == cs@.subrange(a as int, n as int));
    let mut b: usize = n;
    while b > a && is_whitespace(cs[b - 1])
        invariant
            a <= b <= n == cs.len(),
            trim(cs@) == trim_end(cs@.subrange(a as int, b as int)),
        decreases b,
    {
        assert(cs@.subrange(a as int, b as int).drop_last() =~= cs@.subrange(a as int, b - 1));
        b = b - 1;
    }
    let mut r: Vec<char> = Vec::new();
    let mut k: usize = a;
    while k < b
        invariant
            a <= k <= b <= n == cs.len(),
            r@ == cs@.subrange(a as int, k as int),
        decreases b - k,
    {
        r.push(cs[k]);
        assert(r@ =~= cs@.subrange(a as int, k + 1));
        k = k + 1;
    }
    r
}

/// Appends `c` to `s` (`String::push`).
#[verifier::external_body]
pub fn push_char(s: &mut String, c: char)
    ensures
        final(s)@ == old(s)@.push(c),
{
    s.push(c);
}

/// The string whose characters are `cs`.
pub fn string_from_chars(cs: &Vec<char>) -> (s: String)
    ensures
        s@ == cs@,
{
    let mut s = String::new();
    let mut i: usize = 0;
    while i < cs.len()
        invariant
            i <= cs.len(),
            s@ == cs@.take(i as int),
        decreases cs.len() - i,
    {
        push_char(&mut s, cs[i]);
        assert(s@ =~= cs@.take(i + 1));
        i = i + 1;
    }
    assert(cs@.take(cs.len() as int) =~= cs@);
    s
}


/// The UTF-8 length of an all-ASCII string is its character count.
pub proof fn lemma_ascii_utf8_len(cs: Seq<char>)
    requires
        forall|i: int| 0 <= i < cs.len() ==> is_ascii_char(#[trigger] cs[i]),
    ensures
        utf8_len(cs) == cs.len(),
    decreases cs.len(),
{
    lemma_widths_encode(cs);
    lemma_ascii_widths(cs);
}

proof fn lemma_ascii_widths(cs: Seq<char>)
    requires
        forall|i: int| 0 <= i < cs.len() ==> is_ascii_char(#[trigger] cs[i]),
    ensures
        widths(cs) == cs.len(),
    decreases cs.len(),
{
    if cs.len() > 0 {
        assert(is_ascii_char(cs[0]));
        assert forall|i: int| 0 <= i < cs.drop_first().len() implies is_ascii_char(#[trigger] cs.drop_first()[i]) by {
            assert(cs.drop_first()[i] == cs[i + 1]);
        }
        lemma_ascii_widths(cs.drop_first());
    }
}


/// A non-empty string has a non-empty UTF-8 encoding.
pub proof fn lemma_utf8_len_pos(cs: Seq<char>)
    requires
        cs.len() > 0,
    ensures
        utf8_len(cs) > 0,
{
    lemma_widths_encode(cs);
}


/// `cs` split at every `a` and every `b`, as `str::split([a, b])` yields the pieces.
pub open spec fn split_on_either(cs: Seq<char>, a: char, b: char) -> Seq<Seq<char>>
    decreases cs.len(),
{
    if cs.len() == 0 {
        seq![seq![]]
    } else {
        let init = split_on_either(cs.drop_last(), a, b);
        if cs.last() == a || cs.last() == b {
            init.push(seq![])
        } else {
            init.update(init.len() - 1, init.last().push(cs.last()))
        }
    }
}

proof fn lemma_split_either_nonempty(cs: Seq<char>, a: char, b: char)
    ensures
        split_on_either(cs, a, b).len() >= 1,
    decreases cs.len(),
{
    if cs.len() > 0 {
        lemma_split_either_nonempty(cs.drop_last(), a, b);
    }
}

/// Executable form of [`split_on_either`].
pub fn split_chars_either(cs: &Vec<char>, a: char, b: char) -> (parts: Vec<Vec<char>>)
    ensures
        parts@.len() == split_on_either(cs@, a, b).len(),
        forall|j: int| 0 <= j < parts@.len() ==> #[trigger] parts@[j]@ == split_on_either(cs@, a, b)[j],
{
    let mut parts: Vec<Vec<char>> = Vec::new();
    let mut cur: Vec<char> = Vec::new();
    let mut i: usize = 0;
    while i < cs.len()
        invariant
            i <= cs.len(),
            parts@.len() + 1 == split_on_either(cs@.take(i as int), a, b).len(),
            forall|j: int| 0 <= j < parts@.len() ==> #[trigger] parts@[j]@ == split_on_either(cs@.take(i as int), a, b)[j],
            cur@ == split_on_either(cs@.take(i as int), a, b).last(),
        decreases cs.len() - i,
    {
        let ghost pre = cs@.take(i as int);
        let ghost nxt = cs@.take(i + 1);
        assert(nxt.drop_last() =~= pre);
        proof {
            lemma_split_either_nonempty(pre, a, b);
        }
        let c = cs[i];
        if c == a || c == b {
            parts.push(cur);
            cur = Vec::new();
        } else {
            cur.push(c);
        }
        i = i + 1;
    }
    assert(cs@.take(cs.len() as int) =~= cs@);
    proof {
        lemma_split_either_nonempty(cs@, a, b);
    }
    parts.push(cur);
    parts
}

/// Lowercase hex digit of a nibble.
pub open spec fn hex_digit(n: u8) -> char {
    if n < 10 {
        (n + 0x30) as char
    } else {
        (n - 10 + 0x61) as char
    }
}

/// Lowercase hex of a byte string, two digits per byte.
pub open spec fn hex_lower(b: Seq<u8>) -> Seq<char> {
    Seq::new(2 * b.len(), |j: int| if j % 2 == 0 { hex_digit(b[j / 2] / 16) } else { hex_digit(b[j / 2] % 16) })
}

/// Executable form of [`hex_digit`].
pub fn hex_digit_char(n: u8) -> (c: char)
    requires
        n < 16,
    ensures
        c == hex_digit(n),
{
    if n < 10 {
        (n + 0x30) as char
    } else {
        (n - 10 + 0x61) as char
    }
}

/// The lowercase hex of `bytes`, two digits per byte.
pub fn to_hex(bytes: &[u8]) -> (s: String)
    ensures
        s@ == hex_lower(bytes@),
{
    let mut s = String::new();
    let mut i: usize = 0;
    while i < bytes.len()
        invariant
            i <= bytes@.len(),
            s@ == hex_lower(bytes@.take(i as int)),
        decreases bytes@.len() - i,
    {
        let b = bytes[i];
        push_char(&mut s, hex_digit_char(b / 16));
        push_char(&mut s, hex_digit_char(b % 16));
        assert(s@ =~= hex_lower(bytes@.take(i + 1)));
        i = i + 1;
    }
    assert(bytes@.take(bytes@.len() as int) =~= bytes@);
    s
}

/// Whether two strings hold the same characters.
pub fn str_eq(a: &str, b: &str) -> (r: bool)
    ensures
        r == (a@ == b@),
{
    let x = chars_of(a);
    let y = chars_of(b);
    if x.len() != y.len() {
        return false;
    }
    let mut i: usize = 0;
    while i < x.len()
        invariant
            i <= x@.len() == y@.len(),
            x@ == a@,
            y@ == b@,
            forall|j: int| 0 <= j < i ==> x@[j] == y@[j],
        decreases x@.len() - i,
    {
        if x[i] != y[i] {
            assert(x@[i as int] != y@[i as int]);
            assert(a@ != b@);
            return false;
        }
        i = i + 1;
    }
    assert(x@ =~= y@);
    true
}


/// Executable form of [`hex_pairs_panic`].
pub fn hex_pairs_would_panic(cs: &Vec<char>) -> (b: bool)
    ensures
        b == hex_pairs_panic(cs@),
{
    let n = cs.len();
    let mut i: usize = 0;
    assert(cs@.subrange(0, n as int) =~= cs@);
    while i < n
        invariant
            n == cs.len(),
            i <= n,
            hex_pairs_panic(cs@) == hex_pairs_panic(cs@.subrange(i as int, n as int)),
        decreases n - i,
    {
        let ghost rest = cs@.subrange(i as int, n as int);
        let c = cs[i] as u32;
        if c >= 0x80 {
            return c >= 0x800;
        }
        if i + 1 == n || (cs[i + 1] as u32) >= 0x80 {
            return true;
        }
        if hex_pair_value(cs[i], cs[i + 1]).is_none() {
            return false;
        }
        assert(rest.subrange(2, rest.len() as int) =~= cs@.subrange(i + 2, n as int));
        i = i + 2;
    }
    false
}

} // verus!
