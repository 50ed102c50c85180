//! FreeArc's variable-length integer encoding.
//!
//! Numbers in control blocks use a 1-to-9 byte format where the low
//! bits of the first byte indicate the width:
//!
//!   xxxxxxx0           — 1 byte,  value = byte >> 1
//!   xxxxxx01 xxxxxxxx  — 2 bytes, value = (u16 LE) >> 2
//!   xxxxx011 ...       — 3 bytes, value = (u24 LE) >> 3
//!   ...
//!   01111111 ...       — 8 bytes, value =  u64 LE  >> 8
//!   11111111 ...       — 9 bytes, value =  u64 LE  (raw, no shift)

use vstd::prelude::*;
use vstd::arithmetic::power2::{pow2, lemma2_to64, lemma2_to64_rest, lemma_pow2_adds, lemma_pow2_pos};
use vstd::arithmetic::div_mod::{
    lemma_fundamental_div_mod_converse, lemma_mod_breakdown, lemma_mod_mod, lemma_small_mod,
};

use crate::error::ArcError;

verus! {

/// Little-endian value of a byte sequence.
pub open spec fn le_value(bytes: Seq<u8>) -> nat
    decreases bytes.len(),
{
    if bytes.len() == 0 {
        0
    } else {
        bytes[0] as nat + 256 * le_value(bytes.drop_first())
    }
}

/// The `w` low-order bytes of `n`, least significant first.
pub open spec fn le_bytes(n: nat, w: nat) -> Seq<u8>
    decreases w,
{
    if w == 0 {
        Seq::empty()
    } else {
        seq![(n % 256) as u8] + le_bytes(n / 256, (w - 1) as nat)
    }
}

/// Number of bytes the encoder uses for `v`: the smallest width whose
/// payload (7 bits per byte, 64 bits in the 9-byte form) holds `v`.
pub open spec fn varint_width(v: u64) -> nat {
    if v < 0x80 {
        1
    } else if v < 0x4000 {
        2
    } else if v < 0x20_0000 {
        3
    } else if v < 0x1000_0000 {
        4
    } else if v < 0x8_0000_0000 {
        5
    } else if v < 0x400_0000_0000 {
        6
    } else if v < 0x2_0000_0000_0000 {
        7
    } else if v < 0x100_0000_0000_0000 {
        8
    } else {
        9
    }
}

/// The encoding of `v`: for widths 1 to 8, `v` shifted left by the width
/// with `width - 1` one-bits below it, stored little-endian in `width`
/// bytes; for the 9-byte form, a 0xFF marker followed by `v` as a u64 LE.
pub open spec fn varint_encode(v: u64) -> Seq<u8> {
    let w = varint_width(v);
    if w == 9 {
        seq![0xFFu8] + le_bytes(v as nat, 8)
    } else {
        le_bytes((v * pow2(w) + pow2((w - 1) as nat) - 1) as nat, w)
    }
}

/// Number of consecutive one-bits at the low end of `b`.
pub open spec fn trailing_ones(b: u8) -> nat
    decreases b,
{
    if b % 2 == 1 {
        1 + trailing_ones(b / 2)
    } else {
        0
    }
}

/// Decode one varint from the front of `s`: the value and the number of
/// bytes it occupies, or `None` when `s` ends before the varint does.
pub open spec fn varint_decode(s: Seq<u8>) -> Option<(u64, nat)> {
    if s.len() == 0 {
        None
    } else if s[0] % 2 == 0 {
        Some(((s[0] / 2) as u64, 1nat))
    } else if s[0] == 0xFF {
        if s.len() < 9 {
            None
        } else {
            Some((le_value(s.subrange(1, 9)) as u64, 9nat))
        }
    } else {
        let w = trailing_ones(s[0]) + 1;
        if s.len() < w {
            None
        } else {
            Some(((le_value(s.subrange(0, w as int)) / pow2(w)) as u64, w))
        }
    }
}

/// Decode the varint that starts at `pos` in `buf`.
pub open spec fn varint_at(buf: Seq<u8>, pos: int) -> Option<(u64, nat)> {
    if 0 <= pos <= buf.len() {
        varint_decode(buf.skip(pos))
    } else {
        None
    }
}

proof fn lemma_le_value_bound(s: Seq<u8>)
    ensures
        le_value(s) < pow2(8 * s.len()),
    decreases s.len(),
{
    if s.len() == 0 {
        lemma2_to64();
    } else {
        let r = s.drop_first();
        lemma_le_value_bound(r);
        lemma_pow2_adds(8 * r.len(), 8);
        lemma2_to64();
        let a = le_value(r);
        let p = pow2(8 * r.len());
        assert(8 * s.len() == 8 * r.len() + 8);
        assert(s[0] as nat + 256 * a < 256 * p) by (nonlinear_arith)
            requires
                a < p,
                s[0] < 256,
        ;
    }
}

proof fn lemma_le_bytes_len(n: nat, w: nat)
    ensures
        le_bytes(n, w).len() == w,
    decreases w,
{
    if w > 0 {
        lemma_le_bytes_len(n / 256, (w - 1) as nat);
    }
}

pub(crate) proof fn lemma_le_roundtrip(n: nat, w: nat)
    requires
        n < pow2(8 * w),
    ensures
        le_value(le_bytes(n, w)) == n,
        le_bytes(n, w).len() == w,
    decreases w,
{
    lemma_le_bytes_len(n, w);
    if w == 0 {
        lemma2_to64();
    } else {
        let rest = le_bytes(n / 256, (w - 1) as nat);
        lemma_pow2_adds(8 * ((w - 1) as nat), 8);
        lemma2_to64();
        let p = pow2(8 * ((w - 1) as nat));
        assert(8 * w == 8 * ((w - 1) as nat) + 8);
        assert(n / 256 < p) by (nonlinear_arith)
            requires
                n < 256 * p,
        ;
        lemma_le_roundtrip(n / 256, (w - 1) as nat);
        assert(le_bytes(n, w).drop_first() =~= rest);
        assert(n == (n % 256) + 256 * (n / 256)) by (nonlinear_arith);
    }
}

proof fn lemma_trailing_ones_bound(b: u8, k: nat)
    requires
        (b as nat) < pow2(k),
    ensures
        trailing_ones(b) <= k,
        trailing_ones(b) == k ==> b as nat == pow2(k) - 1,
    decreases k,
{
    lemma2_to64();
    if k == 0 {
    } else if b % 2 == 1 {
        lemma_pow2_adds((k - 1) as nat, 1);
        assert(pow2(k) == pow2((k - 1) as nat) * 2);
        lemma_trailing_ones_bound(b / 2, (k - 1) as nat);
        assert(b == 2 * (b / 2) + 1);
    } else {
        lemma_pow2_pos(k);
    }
}

proof fn lemma_trailing_ones_pattern(b: u8, k: nat)
    requires
        k < 8,
        (b as nat) % pow2(k + 1) == pow2(k) - 1,
    ensures
        trailing_ones(b) == k,
    decreases k,
{
    lemma2_to64();
    if k == 0 {
        assert(b % 2 == 0);
    } else {
        lemma_pow2_adds(1, k);
        lemma_mod_breakdown(b as int, 2, pow2(k) as int);
        lemma_pow2_adds(1, (k - 1) as nat);
        lemma_pow2_pos((k - 1) as nat);
        let q = (b / 2) as nat % pow2(k);
        assert(2 * q + b % 2 == pow2(k) - 1);
        assert(pow2(k) == 2 * pow2((k - 1) as nat));
        assert(b % 2 == 1);
        assert(q == pow2((k - 1) as nat) - 1);
        lemma_trailing_ones_pattern(b / 2, (k - 1) as nat);
    }
}

/// The widths used by the encoder are the smallest that fit: a varint
/// of width `w` (between 1 and 8) carries a value below 2^(7w), and no
/// shorter encoding could hold it.
proof fn lemma_width_fits(v: u64)
    ensures
        1 <= varint_width(v) <= 9,
        varint_width(v) <= 8 ==> (v as nat) < pow2(7 * varint_width(v)),
        forall|w: nat| 1 <= w < varint_width(v) ==> (v as nat) >= #[trigger] pow2(7 * w),
        varint_width(v) == 9 ==> (v as nat) >= pow2(56),
{
    lemma2_to64();
    lemma2_to64_rest();
    assert forall|w: nat| 1 <= w < varint_width(v) implies (v as nat) >= #[trigger] pow2(7 * w) by {
        if w == 1 {
        } else if w == 2 {
        } else if w == 3 {
        } else if w == 4 {
        } else if w == 5 {
        } else if w == 6 {
        } else if w == 7 {
        } else {
            assert(w == 8);
        }
    }
}

/// Decoding the encoding of `v`, whatever bytes follow it, gives back
/// `v` and consumes exactly the encoded bytes.
pub proof fn lemma_varint_decode_encode(v: u64, rest: Seq<u8>)
    ensures
        varint_encode(v).len() == varint_width(v),
        varint_decode(varint_encode(v) + rest) == Some((v, varint_width(v))),
{
    lemma2_to64();
    lemma2_to64_rest();
    lemma_width_fits(v);
    let w = varint_width(v);
    let enc = varint_encode(v);
    let s = enc + rest;
    if w == 9 {
        lemma_le_roundtrip(v as nat, 8);
        assert(s[0] == 0xFFu8);
        assert(s.subrange(1, 9) =~= le_bytes(v as nat, 8));
    } else {
        let n = (v * pow2(w) + pow2((w - 1) as nat) - 1) as nat;
        let d = pow2(w);
        let r = pow2((w - 1) as nat) - 1;
        lemma_pow2_adds((w - 1) as nat, 1);
        lemma_pow2_pos((w - 1) as nat);
        assert(d == 2 * pow2((w - 1) as nat));
        assert(0 <= r < d);
        // n fits in w bytes
        lemma_pow2_adds(7 * w, w);
        assert(8 * w == 7 * w + w);
        let big = pow2(7 * w);
        assert((v as nat) * d + d <= big * d) by (nonlinear_arith)
            requires
                (v as nat) < big,
        ;
        assert(n < pow2(8 * w));
        lemma_le_roundtrip(n, w);
        assert(s.subrange(0, w as int) =~= enc);
        // division recovers v, remainder is the marker
        lemma_fundamental_div_mod_converse(n as int, d as int, v as int, r as int);
        assert(n / d == v);
        // the first byte carries the marker bits
        let b = s[0];
        assert(b == (n % 256) as u8);
        let e = pow2((8 - w) as nat);
        lemma_pow2_adds(w, (8 - w) as nat);
        lemma_pow2_pos((8 - w) as nat);
        assert(d * e == 256);
        lemma_mod_mod(n as int, d as int, e as int);
        assert((b as nat) % d == r);
        lemma_trailing_ones_pattern(b, (w - 1) as nat);
        if w == 1 {
            assert(b as nat == n);
            assert(b % 2 == 0);
        } else {
            assert(b % 2 == 1) by {
                lemma_mod_mod(b as int, 2, pow2((w - 1) as nat) as int);
                lemma_pow2_adds(1, (w - 2) as nat);
                assert(pow2((w - 1) as nat) == 2 * pow2((w - 2) as nat));
                lemma_pow2_pos((w - 2) as nat);
                lemma_mod_breakdown(r as int, 2, pow2((w - 2) as nat) as int);
                lemma_small_mod(r as nat, d);
            }
            lemma_trailing_ones_bound(b, 8);
            if b == 0xFF {
                reveal_with_fuel(trailing_ones, 9);
                assert(trailing_ones(0xFFu8) == 8);
            }
        }
    }
}

/// Reading a varint out of a larger buffer: the bytes before and after
/// the encoding do not affect what is read.
pub proof fn lemma_varint_roundtrip(prefix: Seq<u8>, v: u64, suffix: Seq<u8>)
    ensures
        varint_at(prefix + varint_encode(v) + suffix, prefix.len() as int) == Some(
            (v, varint_encode(v).len()),
        ),
{
    lemma_varint_decode_encode(v, suffix);
    let buf = prefix + varint_encode(v) + suffix;
    assert(buf.skip(prefix.len() as int) =~= varint_encode(v) + suffix);
}

/// The encoder never uses more bytes than needed: every width shorter
/// than the one chosen is too small for the value.
pub proof fn lemma_varint_minimal(v: u64)
    ensures
        1 <= varint_encode(v).len() <= 9,
        forall|w: nat|
            1 <= w < varint_encode(v).len() && w <= 8 ==> (v as nat) >= #[trigger] pow2(7 * w),
        varint_encode(v).len() <= 8 ==> (v as nat) < pow2(7 * varint_encode(v).len()),
{
    lemma_width_fits(v);
    lemma_varint_decode_encode(v, Seq::empty());
}

/// Append the `w` low-order bytes of `n` to `out`, least significant first.
pub(crate) fn push_le(out: &mut Vec<u8>, n: u64, w: usize)
    ensures
        final(out)@ == old(out)@ + le_bytes(n as nat, w as nat),
{
    let mut m = n;
    let mut i: usize = 0;
    while i < w
        invariant
            i <= w,
            out@ + le_bytes(m as nat, (w - i) as nat) == old(out)@ + le_bytes(n as nat, w as nat),
        decreases w - i,
    {
        let ghost before = out@;
        let ghost tail = le_bytes((m / 256) as nat, (w - i - 1) as nat);
        assert(le_bytes(m as nat, (w - i) as nat) == seq![(m % 256) as u8] + tail);
        out.push((m % 256) as u8);
        assert(out@ + tail =~= before + le_bytes(m as nat, (w - i) as nat));
        m = m / 256;
        i = i + 1;
    }
    assert(out@ + le_bytes(m as nat, 0) =~= out@);
}

/// Little-endian value of `buf[start..start + w]`.
fn read_le(buf: &[u8], start: usize, w: usize) -> (r: u64)
    requires
        w <= 8,
        start + w <= buf@.len(),
    ensures
        r as nat == le_value(buf@.subrange(start as int, start + w)),
{
    let mut r: u64 = 0;
    let mut i = w;
    while i > 0
        invariant
            i <= w <= 8,
            start + w <= buf.len(),
            r as nat == le_value(buf@.subrange(start + i, start + w)),
        decreases i,
    {
        let ghost old_s = buf@.subrange(start + i, start + w);
        i = i - 1;
        let ghost s = buf@.subrange(start + i, start + w);
        assert(s.drop_first() =~= old_s);
        proof {
            lemma_le_value_bound(old_s);
            lemma2_to64();
            lemma2_to64_rest();
            lemma_pow2_adds(8 * old_s.len(), 8 * (7 - old_s.len()) as nat);
            lemma_pow2_pos(8 * (7 - old_s.len()) as nat);
            assert(pow2(8 * old_s.len()) <= pow2(56)) by (nonlinear_arith)
                requires
                    pow2(56) == pow2(8 * old_s.len()) * pow2(8 * (7 - old_s.len()) as nat),
                    pow2(8 * (7 - old_s.len()) as nat) > 0,
            ;
        }
        r = r * 256 + buf[start + i] as u64;
    }
    r
}

/// Write a u64 as a FreeArc varint to `out`, choosing the smallest
/// width that fits.
pub fn write_varint(out: &mut Vec<u8>, value: u64)
    ensures
        final(out)@ == old(out)@ + varint_encode(value),
{
    proof {
        lemma2_to64();
    }
    if value < 0x80 {
        push_le(out, value * 2, 1);
    } else if value < 0x4000 {
        push_le(out, value * 4 + 1, 2);
    } else if value < 0x20_0000 {
        push_le(out, value * 8 + 3, 3);
    } else if value < 0x1000_0000 {
        push_le(out, value * 16 + 7, 4);
    } else if value < 0x8_0000_0000 {
        push_le(out, value * 32 + 15, 5);
    } else if value < 0x400_0000_0000 {
        push_le(out, value * 64 + 31, 6);
    } else if value < 0x2_0000_0000_0000 {
        push_le(out, value * 128 + 63, 7);
    } else if value < 0x100_0000_0000_0000 {
        push_le(out, value * 256 + 127, 8);
    } else {
        let ghost before = out@;
        out.push(0xFF);
        push_le(out, value, 8);
        assert(out@ =~= before + varint_encode(value));
    }
}

/// Read one FreeArc varint from `buf[*pos..]` and advance `*pos` past it.
/// When the buffer ends before the varint does, the result is
/// `Truncated` and `*pos` is left where it was.
pub fn read_varint(buf: &[u8], pos: &mut usize) -> (res: Result<u64, ArcError>)
    ensures
        match varint_at(buf@, *old(pos) as int) {
            Some((v, n)) => res matches Ok(x) && x == v && *final(pos) == *old(pos) + n,
            None => res matches Err(ArcError::Truncated) && *final(pos) == *old(pos),
        },
{
    let p = *pos;
    if p >= buf.len() {
        return Err(ArcError::Truncated);
    }
    let ghost s = buf@.skip(p as int);
    let first = buf[p];
    assert(s[0] == first);
    if first % 2 == 0 {
        *pos = p + 1;
        return Ok((first / 2) as u64);
    }
    // Width = number of trailing one-bits + 1.

    let mut t: usize = 0;
    let mut b: u8 = first;
    proof {
        lemma2_to64();
        lemma_trailing_ones_bound(first, 8);
    }
    while b % 2 == 1
        invariant
            t + trailing_ones(b) == trailing_ones(first),
            trailing_ones(first) <= 8,
        decreases b,
    {
        b = b / 2;
        t = t + 1;
    }
    let width = t + 1;
    if width > buf.len() - p {
        return Err(ArcError::Truncated);
    }
    if first == 0xFF {
        proof {
            reveal_with_fuel(trailing_ones, 9);
        }
        assert(width == 9);
        let v = read_le(buf, p + 1, 8);
        assert(s.subrange(1, 9) =~= buf@.subrange(p + 1, p + 9));
        *pos = p + 9;
        return Ok(v);
    }
    proof {
        if t == 8 {
            lemma_trailing_ones_bound(first, 8);
        }
    }
    let raw = read_le(buf, p, width);
    assert(s.subrange(0, width as int) =~= buf@.subrange(p as int, p + width));
    proof {
        vstd::bits::lemma_u64_shr_is_div(raw, width as u64);
    }
    *pos = p + width;
    Ok(raw >> (width as u64))
}

} // verus!
