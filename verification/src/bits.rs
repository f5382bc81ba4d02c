//! Bit extraction for signal decoding: a window of bits is read from the
//! frame data either little-endian (bits accumulate LSB-first across
//! ascending byte indices) or big-endian (earlier bytes land in higher
//! positions of the result), honouring sub-byte starts and ends. The
//! extracted value is specified bit by bit and proved smaller than two to
//! the window width.

use vstd::prelude::*;
use vstd::arithmetic::power2::{
    lemma2_to64, lemma_pow2_adds, lemma_pow2_pos, lemma_pow2_strictly_increases, pow2,
};
use vstd::arithmetic::div_mod::{lemma_div_denominator, lemma_mod_breakdown};
use vstd::bits::{lemma_u64_pow2_no_overflow, lemma_u64_shl_is_mul};

verus! {

/// Bit `i` of the byte string `s`, counting LSB-first within each byte.
pub open spec fn bit_at(s: Seq<u8>, i: int) -> nat {
    (s[i / 8] as nat / pow2((i % 8) as nat)) % 2
}

/// The unsigned value of bits `[start, start+len)` of `s`, little-endian:
/// bit `start` is the least significant bit of the result.
pub open spec fn le_bits(s: Seq<u8>, start: int, len: nat) -> nat
    decreases len,
{
    if len == 0 {
        0
    } else {
        bit_at(s, start) + 2 * le_bits(s, start + 1, (len - 1) as nat)
    }
}

/// The first-chunk width at bit `start`: the bits left in the current byte,
/// capped by the bits still wanted.
pub open spec fn chunk_width(start: int, len: nat) -> nat {
    if 8 - (start % 8) <= len {
        (8 - (start % 8)) as nat
    } else {
        len
    }
}

/// The unsigned value of bits `[start, start+len)` of `s`, big-endian:
/// within each byte bits are taken LSB-first, and the chunk from an earlier
/// byte occupies higher positions of the result.
pub open spec fn be_bits(s: Seq<u8>, start: int, len: nat) -> nat
    decreases len,
{
    if len == 0 {
        0
    } else {
        let w = chunk_width(start, len);
        le_bits(s, start, w) * pow2((len - w) as nat) + be_bits(s, start + w, (len - w) as nat)
    }
}

/// A little-endian window is smaller than two to its width.
pub proof fn lemma_le_bits_bound(s: Seq<u8>, start: int, len: nat)
    ensures
        le_bits(s, start, len) < pow2(len),
    decreases len,
{
    if len == 0 {
        assert(pow2(0) == 1) by {
            lemma2_to64();
        }
    } else {
        lemma_le_bits_bound(s, start + 1, (len - 1) as nat);
        assert(pow2(len) == 2 * pow2((len - 1) as nat)) by {
            lemma_pow2_adds(1, (len - 1) as nat);
            lemma2_to64();
        }
    }
}

/// Splitting a little-endian window: the low part plus the high part
/// shifted by the low width gives the whole. Two adjacent extractions
/// concatenate to the extraction of their union.
pub proof fn lemma_le_bits_split(s: Seq<u8>, start: int, l1: nat, l2: nat)
    ensures
        le_bits(s, start, (l1 + l2) as nat) == le_bits(s, start, l1) + le_bits(s, start + l1, l2)
            * pow2(l1),
    decreases l1,
{
    if l1 == 0 {
        assert(pow2(0) == 1) by {
            lemma2_to64();
        }
    } else {
        lemma_le_bits_split(s, start + 1, (l1 - 1) as nat, l2);
        let high = le_bits(s, start + l1, l2);
        assert(pow2(l1) == 2 * pow2((l1 - 1) as nat)) by {
            lemma_pow2_adds(1, (l1 - 1) as nat);
            lemma2_to64();
        }
        assert(2 * (le_bits(s, start + 1, (l1 - 1) as nat) + high * pow2((l1 - 1) as nat)) == 2
            * le_bits(s, start + 1, (l1 - 1) as nat) + high * (2 * pow2((l1 - 1) as nat)))
            by (nonlinear_arith);
    }
}

/// Within one byte, the little-endian window equals dividing the byte by
/// two to the sub-byte start and keeping the window width's low bits.
pub proof fn lemma_le_bits_byte(s: Seq<u8>, start: int, w: nat)
    requires
        0 <= start,
        start % 8 + w <= 8,
    ensures
        le_bits(s, start, w) == (s[start / 8] as nat / pow2((start % 8) as nat)) % pow2(w),
    decreases w,
{
    let b = s[start / 8] as nat;
    let sb = (start % 8) as nat;
    if w == 0 {
        assert(pow2(0) == 1) by {
            lemma2_to64();
        }
    } else if w == 1 {
        assert(pow2(1) == 2) by {
            lemma2_to64();
        }
        assert(le_bits(s, start + 1, 0) == 0);
        assert(le_bits(s, start, 1) == bit_at(s, start));
    } else {
        lemma_le_bits_byte(s, start + 1, (w - 1) as nat);
        assert((start + 1) / 8 == start / 8 && (start + 1) % 8 == sb + 1) by {
            assert(start == 8 * (start / 8) + sb);
        }
        let x = b / pow2(sb);
        assert(b / pow2(sb + 1) == x / 2) by {
            lemma_pow2_adds(sb, 1);
            lemma2_to64();
            lemma_pow2_pos(sb);
            lemma_div_denominator(b as int, pow2(sb) as int, 2);
        }
        assert(x % pow2(w) == 2 * ((x / 2) % pow2((w - 1) as nat)) + x % 2) by {
            lemma_pow2_pos((w - 1) as nat);
            lemma_pow2_adds(1, (w - 1) as nat);
            lemma2_to64();
            lemma_mod_breakdown(x as int, 2, pow2((w - 1) as nat) as int);
        }
    }
}

/// A big-endian window is smaller than two to its width.
pub proof fn lemma_be_bits_bound(s: Seq<u8>, start: int, len: nat)
    ensures
        be_bits(s, start, len) < pow2(len),
    decreases len,
{
    if len == 0 {
        assert(pow2(0) == 1) by {
            lemma2_to64();
        }
    } else {
        let w = chunk_width(start, len);
        let rest = (len - w) as nat;
        lemma_le_bits_bound(s, start, w);
        lemma_be_bits_bound(s, start + w, rest);
        lemma_pow2_adds(w, rest);
        lemma_pow2_pos(rest);
        assert(le_bits(s, start, w) * pow2(rest) <= (pow2(w) - 1) * pow2(rest))
            by (nonlinear_arith)
            requires
                le_bits(s, start, w) <= pow2(w) - 1,
                pow2(rest) > 0,
        ;
        assert((pow2(w) - 1) * pow2(rest) + pow2(rest) == pow2(w) * pow2(rest))
            by (nonlinear_arith);
    }
}

/// Splitting a big-endian window at a byte boundary: the high part shifted
/// by the low width plus the low part gives the whole. Two adjacent
/// extractions whose split point is byte-aligned concatenate to the
/// extraction of their union.
pub proof fn lemma_be_bits_split(s: Seq<u8>, start: int, l1: nat, l2: nat)
    requires
        0 <= start,
        (start + l1) % 8 == 0,
    ensures
        be_bits(s, start, (l1 + l2) as nat) == be_bits(s, start, l1) * pow2(l2) + be_bits(
            s,
            start + l1,
            l2,
        ),
    decreases l1,
{
    if l1 == 0 {
        assert(pow2(0) == 1) by {
            lemma2_to64();
        }
        assert(be_bits(s, start, 0) * pow2(l2) == 0) by (nonlinear_arith);
    } else {
        let sb = start % 8;
        assert(8 - sb <= l1) by {
            if 8 - sb > l1 {
                assert((start + l1) % 8 == sb + l1) by (nonlinear_arith)
                    requires
                        0 <= start,
                        sb == start % 8,
                        0 < l1,
                        sb + l1 < 8,
                ;
            }
        }
        let w = chunk_width(start, l1);
        assert(w == 8 - sb);
        assert(chunk_width(start, (l1 + l2) as nat) == w);
        let rest1 = (l1 - w) as nat;
        let chunk = le_bits(s, start, w);
        assert((start + w) % 8 == 0) by (nonlinear_arith)
            requires
                0 <= start,
                sb == start % 8,
                w == 8 - sb,
        ;
        assert((start + w + rest1) % 8 == 0);
        lemma_be_bits_split(s, start + w, rest1, l2);
        // be(start, l1+l2) = chunk * pow2(rest1 + l2) + be(start+w, rest1+l2)
        // be(start+w, rest1+l2) = be(start+w, rest1) * pow2(l2) + be(start+l1, l2)
        lemma_pow2_adds(rest1, l2);
        assert(chunk * (pow2(rest1) * pow2(l2)) == (chunk * pow2(rest1)) * pow2(l2))
            by (nonlinear_arith);
        assert((chunk * pow2(rest1)) * pow2(l2) + be_bits(s, start + w, rest1) * pow2(l2) == (chunk
            * pow2(rest1) + be_bits(s, start + w, rest1)) * pow2(l2)) by (nonlinear_arith);
    }
}

/// Two to the power `e`, as a machine word.
pub fn pow2_u64(e: u64) -> (r: u64)
    requires
        e < 64,
    ensures
        r == pow2(e as nat),
{
    proof {
        lemma_u64_pow2_no_overflow(e as nat);
        lemma_u64_shl_is_mul(1u64, e);
    }
    1u64 << e
}

/// Extracts `length` bits at `start_bit` from `data`, little-endian: bits
/// accumulate LSB-first across ascending byte indices. The result is the
/// bit window's value and lies below two to the window width.
pub fn extract_bits_le(data: &[u8], start_bit: usize, length: usize) -> (r: u64)
    requires
        length <= 64,
        start_bit + length <= usize::MAX,
        start_bit + length <= data@.len() * 8,
    ensures
        r == le_bits(data@, start_bit as int, length as nat),
        r < pow2(length as nat),
{
    let ghost s = data@;
    let mut result: u64 = 0;
    let mut pos: usize = 0;
    proof {
        assert(pow2(0) == 1) by {
            lemma2_to64();
        }
    }
    while pos < length
        invariant
            pos <= length <= 64,
            start_bit + length <= usize::MAX,
            start_bit + length <= data@.len() * 8,
            data@ == s,
            result == le_bits(s, start_bit as int, pos as nat),
            result < pow2(pos as nat),
        decreases length - pos,
    {
        let cur = start_bit + pos;
        let sb = cur % 8;
        let avail = 8 - sb;
        let want = length - pos;
        let w: usize = if avail <= want {
            avail
        } else {
            want
        };
        proof {
            assert(cur < s.len() * 8);
            assert(cur / 8 < s.len()) by (nonlinear_arith)
                requires
                    cur < s.len() * 8,
                    0 <= cur,
            ;
        }
        let byte = data[cur / 8] as u64;
        let p_sb = pow2_u64(sb as u64);
        let p_w = pow2_u64(w as u64);
        proof {
            lemma_pow2_pos(sb as nat);
            lemma_pow2_pos(w as nat);
        }
        let value = (byte / p_sb) % p_w;
        let p_pos = pow2_u64(pos as u64);
        proof {
            lemma_le_bits_byte(s, cur as int, w as nat);
            assert(value == le_bits(s, cur as int, w as nat));
            lemma_le_bits_split(s, start_bit as int, pos as nat, w as nat);
            lemma_le_bits_bound(s, cur as int, w as nat);
            lemma_pow2_pos(pos as nat);
            lemma_pow2_adds(pos as nat, w as nat);
            assert(value * p_pos <= (pow2(w as nat) - 1) * pow2(pos as nat)) by (nonlinear_arith)
                requires
                    value <= pow2(w as nat) - 1,
                    p_pos == pow2(pos as nat),
                    pow2(pos as nat) > 0,
            ;
            assert((pow2(w as nat) - 1) * pow2(pos as nat) + pow2(pos as nat) == pow2(
                pos as nat,
            ) * pow2(w as nat)) by (nonlinear_arith);
            assert(result + value * p_pos < pow2((pos + w) as nat));
            if (pos + w) < 64 {
                lemma_pow2_strictly_increases((pos + w) as nat, 64);
            }
            assert(pow2(64) == 0x10000000000000000) by {
                lemma2_to64();
                lemma_pow2_adds(32, 32);
                assert(pow2(32) == 0x100000000);
            }
            assert(result + value * p_pos <= u64::MAX);
        }
        result = result + value * p_pos;
        pos = pos + w;
    }
    result
}

/// Extracts `length` bits at `start_bit` from `data`, big-endian: within
/// each byte bits are taken LSB-first, and earlier bytes occupy higher
/// positions, so the most significant extracted bit lands at position
/// `length - 1`. The result lies below two to the window width.
pub fn extract_bits_be(data: &[u8], start_bit: usize, length: usize) -> (r: u64)
    requires
        length <= 64,
        start_bit + length <= usize::MAX,
        start_bit + length <= data@.len() * 8,
    ensures
        r == be_bits(data@, start_bit as int, length as nat),
        r < pow2(length as nat),
{
    let ghost s = data@;
    let ghost total = be_bits(s, start_bit as int, length as nat);
    proof {
        lemma_be_bits_bound(s, start_bit as int, length as nat);
        if length < 64 {
            lemma_pow2_strictly_increases(length as nat, 64);
        }
        assert(pow2(64) == 0x10000000000000000) by {
            lemma2_to64();
            lemma_pow2_adds(32, 32);
            assert(pow2(32) == 0x100000000);
        }
    }
    let mut result: u64 = 0;
    let mut pos: usize = 0;
    while pos < length
        invariant
            pos <= length <= 64,
            start_bit + length <= usize::MAX,
            start_bit + length <= data@.len() * 8,
            data@ == s,
            result + be_bits(s, start_bit + pos, (length - pos) as nat) == total,
            total < pow2(length as nat),
            pow2(length as nat) <= 0x10000000000000000,
        decreases length - pos,
    {
        let cur = start_bit + pos;
        let sb = cur % 8;
        let avail = 8 - sb;
        let want = length - pos;
        let w: usize = if avail <= want {
            avail
        } else {
            want
        };
        proof {
            assert(cur < s.len() * 8);
            assert(cur / 8 < s.len()) by (nonlinear_arith)
                requires
                    cur < s.len() * 8,
                    0 <= cur,
            ;
        }
        let byte = data[cur / 8] as u64;
        let p_sb = pow2_u64(sb as u64);
        let p_w = pow2_u64(w as u64);
        proof {
            lemma_pow2_pos(sb as nat);
            lemma_pow2_pos(w as nat);
        }
        let value = (byte / p_sb) % p_w;
        proof {
            lemma_le_bits_byte(s, cur as int, w as nat);
            assert(value == le_bits(s, cur as int, w as nat));
            assert(chunk_width(cur as int, want as nat) == w as nat);
            assert(be_bits(s, cur as int, want as nat) == value * pow2((want - w) as nat)
                + be_bits(s, cur + w, (want - w) as nat));
            assert(value * pow2((want - w) as nat) <= be_bits(s, cur as int, want as nat));
        }
        result = result + value * pow2_u64((want - w) as u64);
        pos = pos + w;
    }
    result
}

} // verus!
