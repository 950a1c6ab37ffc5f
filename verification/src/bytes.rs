//! The mathematical model of the wire format: what value a byte sequence
//! denotes in each byte order, and which byte sequence encodes a value.

use vstd::prelude::*;

verus! {

/// `256^n`: the number of distinct values that `n` bytes can hold.
pub open spec fn pow256(n: nat) -> nat
    decreases n,
{
    if n == 0 {
        1
    } else {
        256 * pow256((n - 1) as nat)
    }
}

/// The value denoted by a little-endian byte sequence: the first byte is the
/// least significant.
pub open spec fn le_val(s: Seq<u8>) -> nat
    decreases s.len(),
{
    if s.len() == 0 {
        0
    } else {
        (s[0] + 256 * le_val(s.drop_first())) as nat
    }
}

/// The value denoted by a big-endian byte sequence: the last byte is the
/// least significant.
pub open spec fn be_val(s: Seq<u8>) -> nat
    decreases s.len(),
{
    if s.len() == 0 {
        0
    } else {
        (256 * be_val(s.drop_last()) + s.last()) as nat
    }
}

/// The `n`-byte little-endian encoding of `v` (of `v mod 256^n`, if `v` does
/// not fit in `n` bytes).
pub open spec fn le_bytes(v: nat, n: nat) -> Seq<u8>
    decreases n,
{
    if n == 0 {
        Seq::empty()
    } else {
        seq![(v % 256) as u8] + le_bytes(v / 256, (n - 1) as nat)
    }
}

/// The `n`-byte big-endian encoding of `v`: the little-endian bytes in
/// reverse order.
pub open spec fn be_bytes(v: nat, n: nat) -> Seq<u8>
    decreases n,
{
    if n == 0 {
        Seq::empty()
    } else {
        be_bytes(v / 256, (n - 1) as nat) + seq![(v % 256) as u8]
    }
}

/// The values of `pow256` at the widths the library uses.
pub proof fn lemma_pow256_values()
    ensures
        pow256(0) == 1,
        pow256(1) == 0x100,
        pow256(2) == 0x10000,
        pow256(4) == 0x1_0000_0000,
        pow256(8) == 0x1_0000_0000_0000_0000,
        pow256(16) == 0x1_0000_0000_0000_0000_0000_0000_0000_0000,
{
    reveal_with_fuel(pow256, 17);
}

/// `pow256` is monotone in the width.
pub proof fn lemma_pow256_mono(a: nat, b: nat)
    requires
        a <= b,
    ensures
        pow256(a) <= pow256(b),
    decreases b,
{
    if a < b {
        lemma_pow256_mono(a, (b - 1) as nat);
    }
}

pub proof fn lemma_le_bytes_len(v: nat, n: nat)
    ensures
        le_bytes(v, n).len() == n,
    decreases n,
{
    if n > 0 {
        lemma_le_bytes_len(v / 256, (n - 1) as nat);
    }
}

pub proof fn lemma_be_bytes_len(v: nat, n: nat)
    ensures
        be_bytes(v, n).len() == n,
    decreases n,
{
    if n > 0 {
        lemma_be_bytes_len(v / 256, (n - 1) as nat);
    }
}

/// A byte sequence always denotes a value that fits in its own length.
pub proof fn lemma_le_val_bound(s: Seq<u8>)
    ensures
        le_val(s) < pow256(s.len()),
    decreases s.len(),
{
    if s.len() > 0 {
        lemma_le_val_bound(s.drop_first());
    }
}

/// A byte sequence always denotes a value that fits in its own length.
pub proof fn lemma_be_val_bound(s: Seq<u8>)
    ensures
        be_val(s) < pow256(s.len()),
    decreases s.len(),
{
    if s.len() > 0 {
        lemma_be_val_bound(s.drop_last());
    }
}

/// Round trip, little-endian: decoding the `n` bytes that encode `v`
/// yields `v` again, for every `v` that fits in `n` bytes.
pub proof fn lemma_le_round_trip(v: nat, n: nat)
    requires
        v < pow256(n),
    ensures
        le_val(le_bytes(v, n)) == v,
    decreases n,
{
    if n > 0 {
        let rest = le_bytes(v / 256, (n - 1) as nat);
        lemma_div_bound(v, (n - 1) as nat);
        lemma_le_round_trip(v / 256, (n - 1) as nat);
        assert((seq![(v % 256) as u8] + rest).drop_first() =~= rest);
        assert(le_val(le_bytes(v, n)) == v % 256 + 256 * (v / 256));
    }
}

/// Round trip, big-endian: decoding the `n` bytes that encode `v`
/// yields `v` again, for every `v` that fits in `n` bytes.
pub proof fn lemma_be_round_trip(v: nat, n: nat)
    requires
        v < pow256(n),
    ensures
        be_val(be_bytes(v, n)) == v,
    decreases n,
{
    if n > 0 {
        let rest = be_bytes(v / 256, (n - 1) as nat);
        lemma_div_bound(v, (n - 1) as nat);
        lemma_be_round_trip(v / 256, (n - 1) as nat);
        lemma_be_bytes_len(v / 256, (n - 1) as nat);
        assert((rest + seq![(v % 256) as u8]).drop_last() =~= rest);
        assert((rest + seq![(v % 256) as u8]).last() == (v % 256) as u8);
        assert(be_val(be_bytes(v, n)) == 256 * (v / 256) + v % 256);
    }
}

/// Encodings are canonical, little-endian: a byte sequence is the encoding
/// of its own value.
pub proof fn lemma_le_canonical(s: Seq<u8>)
    ensures
        le_bytes(le_val(s), s.len()) == s,
    decreases s.len(),
{
    if s.len() > 0 {
        let v = le_val(s);
        lemma_le_canonical(s.drop_first());
        assert(v == s[0] + 256 * le_val(s.drop_first()));
        assert(v % 256 == s[0] && v / 256 == le_val(s.drop_first())) by {
            lemma_mod_div_split(v as int, s[0] as int, le_val(s.drop_first()) as int);
        }
        assert(le_bytes(v, s.len()) =~= s);
    }
}

/// Encodings are canonical, big-endian: a byte sequence is the encoding
/// of its own value.
pub proof fn lemma_be_canonical(s: Seq<u8>)
    ensures
        be_bytes(be_val(s), s.len()) == s,
    decreases s.len(),
{
    if s.len() > 0 {
        let v = be_val(s);
        lemma_be_canonical(s.drop_last());
        assert(v == 256 * be_val(s.drop_last()) + s.last());
        assert(v % 256 == s.last() && v / 256 == be_val(s.drop_last())) by {
            lemma_mod_div_split(v as int, s.last() as int, be_val(s.drop_last()) as int);
        }
        lemma_be_bytes_len(v / 256, (s.len() - 1) as nat);
        assert(be_bytes(v, s.len()) =~= s);
    }
}

/// The unsigned residue that stands for a signed value in `n` bytes:
/// two's complement.
pub open spec fn to_unsigned(v: int, n: nat) -> nat
    recommends
        -(pow256(n) as int) <= 2 * v < pow256(n),
{
    if v >= 0 {
        v as nat
    } else {
        (v + pow256(n)) as nat
    }
}

/// The signed value that an `n`-byte unsigned residue stands for.
pub open spec fn to_signed(u: nat, n: nat) -> int
    recommends
        u < pow256(n),
{
    if 2 * u < pow256(n) {
        u as int
    } else {
        u - pow256(n)
    }
}

/// Round trip between a signed value and its two's-complement residue.
pub proof fn lemma_signed_round_trip(v: int, n: nat)
    requires
        -(pow256(n) as int) <= 2 * v < pow256(n),
    ensures
        to_unsigned(v, n) < pow256(n),
        to_signed(to_unsigned(v, n), n) == v,
{
}

/// If `v` fits in `n` bytes, the high part `v / 256` fits in `n - 1` bytes.
proof fn lemma_div_bound(v: nat, m: nat)
    requires
        v < 256 * pow256(m),
    ensures
        v / 256 < pow256(m),
{
    let p = pow256(m) as int;
    assert(v / 256 < p) by (nonlinear_arith)
        requires
            v < 256 * p,
            0 <= v,
            0 < p,
    ;
}

/// Splitting `x = a + 256 * b` with `a < 256` recovers `a` and `b` as the
/// remainder and quotient by 256.
proof fn lemma_mod_div_split(x: int, a: int, b: int)
    requires
        x == a + 256 * b,
        0 <= a < 256,
        0 <= b,
    ensures
        x % 256 == a,
        x / 256 == b,
{
    assert(x % 256 == a && x / 256 == b) by (nonlinear_arith)
        requires
            x == a + 256 * b,
            0 <= a < 256,
            0 <= b,
    ;
}

} // verus!
