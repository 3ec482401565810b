//! Approximate comparison of packed positions.
//!
//! Precision is counted in significant units of five bits, taken from the
//! top of the 192-bit packed integer: truncating to `n` units keeps its
//! highest `5 n` bits and clears the rest, so the precision budget is shared
//! by radius, latitude and longitude, coarsest first.
use vstd::prelude::*;
use vstd::arithmetic::power2::{lemma_pow2_adds, lemma_pow2_pos, lemma_pow2_strictly_increases, pow2};
use vstd::arithmetic::div_mod::{
    lemma_div_denominator,
    lemma_div_multiples_vanish_fancy,
    lemma_fundamental_div_mod,
    lemma_fundamental_div_mod_converse_div,
};
use crate::codec::{packed_value, WORD};
use crate::hex::{hex16, hex_chars};

verus! {

/// Width of the packed integer, in bits.
pub const TOTAL_BITS: usize = 192;

/// Width of one significant unit, in bits.
pub const BITS_PER_CHAR: usize = 5;

/// The largest number of significant units: `TOTAL_BITS / BITS_PER_CHAR`.
pub const MAX_SIG_CHARS: usize = 38;

/// The tag that starts a snapped token.
pub const SNAP_PREFIX: &'static str = "uvoxid:";

/// Why a precision was refused.
#[derive(Debug, Clone, Copy, PartialEq, Eq, Structural)]
pub enum ToleranceError {
    /// More significant units were asked for than the packed integer holds.
    PrecisionOutOfRange { requested: usize, max: usize },
}

/// The number of low bits that truncation to `sig_chars` units clears.
pub open spec fn dropped_bits(sig_chars: nat) -> nat {
    (TOTAL_BITS - BITS_PER_CHAR * sig_chars) as nat
}

/// `v` with its lowest `dropped_bits(sig_chars)` bits cleared.
pub open spec fn truncated(v: nat, sig_chars: nat) -> nat {
    v / pow2(dropped_bits(sig_chars)) * pow2(dropped_bits(sig_chars))
}

/// Two packed positions agree in their highest `5 sig_chars` bits.
pub open spec fn same_within(a: (u128, u64), b: (u128, u64), sig_chars: nat) -> bool {
    truncated(packed_value(a), sig_chars) == truncated(packed_value(b), sig_chars)
}

/// The packed pair whose value is `v`, for `v` below 2^192.
pub open spec fn split_packed(v: nat) -> (u128, u64) {
    ((v / (WORD as nat)) as u128, (v % (WORD as nat)) as u64)
}

/// The 48 lowercase hexadecimal digits of a packed pair: the upper and lower
/// halves of the high word, then the low word.
pub open spec fn packed_text(p: (u128, u64)) -> Seq<char> {
    hex_chars((p.0 / WORD) as nat, 16) + hex_chars((p.0 % WORD) as nat, 16) + hex_chars(
        p.1 as nat,
        16,
    )
}

/// 2^k as a `u128`.
fn pow2_u128(k: u32) -> (r: u128)
    requires
        k < 128,
    ensures
        r == pow2(k as nat),
{
    let mut r: u128 = 1;
    let mut i: u32 = 0;
    proof {
        vstd::arithmetic::power2::lemma2_to64();
        lemma_pow2_adds(64, 64);
    }
    while i < k
        invariant
            i <= k < 128,
            r == pow2(i as nat),
            pow2(128) == pow2(64) * pow2(64),
            pow2(64) == 0x1_0000_0000_0000_0000,
        decreases k - i,
    {
        proof {
            vstd::arithmetic::power2::lemma_pow2_unfold((i + 1) as nat);
            lemma_pow2_strictly_increases((i + 1) as nat, 128);
        }
        r = r * 2;
        i = i + 1;
    }
    r
}

/// Two equal truncations of a number at the same width.
proof fn lemma_truncated_eq(a: nat, b: nat, p: nat)
    requires
        p > 0,
        a / p * p == b / p * p,
    ensures
        a / p == b / p,
{
    assert(a / p == b / p) by (nonlinear_arith)
        requires
            p > 0,
            a / p * p == b / p * p,
    ;
}

/// Agreeing at a finer precision implies agreeing at every coarser one.
pub proof fn lemma_tolerance_monotone(a: (u128, u64), b: (u128, u64), n1: nat, n2: nat)
    requires
        n1 < n2 <= MAX_SIG_CHARS,
        same_within(a, b, n2),
    ensures
        same_within(a, b, n1),
{
    let d1 = dropped_bits(n1);
    let d2 = dropped_bits(n2);
    let x = packed_value(a);
    let y = packed_value(b);
    lemma_pow2_pos(d2);
    lemma_pow2_pos((d1 - d2) as nat);
    lemma_pow2_adds(d2, (d1 - d2) as nat);
    lemma_truncated_eq(x, y, pow2(d2));
    lemma_div_denominator(x as int, pow2(d2) as int, pow2((d1 - d2) as nat) as int);
    lemma_div_denominator(y as int, pow2(d2) as int, pow2((d1 - d2) as nat) as int);
}

/// Clears all but the highest `5 sig_chars` bits of a packed position.
/// Fails when `sig_chars` exceeds `MAX_SIG_CHARS`.
pub fn truncate_to_tolerance(uvoxid: &(u128, u64), sig_chars: usize) -> (r: Result<
    (u128, u64),
    ToleranceError,
>)
    ensures
        sig_chars <= MAX_SIG_CHARS ==> r is Ok && packed_value(r->Ok_0) == truncated(
            packed_value(*uvoxid),
            sig_chars as nat,
        ),
        sig_chars > MAX_SIG_CHARS ==> r == Err::<(u128, u64), ToleranceError>(
            ToleranceError::PrecisionOutOfRange { requested: sig_chars, max: MAX_SIG_CHARS },
        ),
{
    if sig_chars > MAX_SIG_CHARS {
        return Err(
            ToleranceError::PrecisionOutOfRange { requested: sig_chars, max: MAX_SIG_CHARS },
        );
    }
    let drop: u32 = (TOTAL_BITS - BITS_PER_CHAR * sig_chars) as u32;
    let high = uvoxid.0;
    let low = uvoxid.1;
    let ghost v = packed_value(*uvoxid);
    proof {
        vstd::arithmetic::power2::lemma2_to64();
    }
    if drop <= 64 {
        let p = pow2_u128(drop);
        let ghost q = pow2((64 - drop) as nat);
        proof {
            lemma_pow2_pos(drop as nat);
            lemma_pow2_adds(drop as nat, (64 - drop) as nat);
            lemma_pow2_pos((64 - drop) as nat);
            lemma_fundamental_div_mod(low as int, p as int);
        }
        let qd = (low as u128) / p;
        assert(qd * p <= low) by (nonlinear_arith)
            requires
                p > 0,
                qd == low as u128 / p,
        ;
        let kept = qd * p;
        proof {
            let k = low as int / p as int;
            assert(v == p * (high * q + k) + low as int % p as int) by (nonlinear_arith)
                requires
                    v == high * (WORD as int) + low,
                    WORD == p * q,
                    low == p * k + low as int % p as int,
            ;
            lemma_fundamental_div_mod_converse_div(
                v as int,
                p as int,
                high * q + k,
                low as int % p as int,
            );
            assert((high * q + k) * p == high * (WORD as int) + k * p) by (nonlinear_arith)
                requires
                    WORD == p * q,
            ;
            assert(dropped_bits(sig_chars as nat) == drop);
            assert(packed_value((high, kept as u64)) == truncated(v, sig_chars as nat));
        }
        Ok((high, kept as u64))
    } else {
        let e: u32 = drop - 64;
        proof {
            lemma_pow2_adds(64, e as nat);
            lemma_pow2_pos(e as nat);
            lemma_div_denominator(v as int, WORD as int, pow2(e as nat) as int);
            lemma_div_multiples_vanish_fancy(high as int, low as int, WORD as int);
        }
        assert(v as int / (WORD as int) == high);
        if e == 128 {
            proof {
                lemma_pow2_adds(64, 64);
                vstd::arithmetic::div_mod::lemma_small_div_converse(high as int, pow2(128) as int);
                assert(high as int / pow2(128) as int == 0) by (nonlinear_arith)
                    requires
                        0 <= high < pow2(128),
                        pow2(128) == 0x1_0000_0000_0000_0000u128 * 0x1_0000_0000_0000_0000u128,
                ;
            }
            assert(dropped_bits(sig_chars as nat) == drop);
            assert(pow2(drop as nat) == WORD * pow2(e as nat));
            assert(v as int / pow2(drop as nat) as int == 0);
            assert(packed_value((0, 0)) == truncated(v, sig_chars as nat));
            Ok((0, 0))
        } else {
            let p = pow2_u128(e);
            let qd = high / p;
            assert(qd * p <= high) by (nonlinear_arith)
                requires
                    p > 0,
                    qd == high / p,
            ;
            let kept = qd * p;
            assert(dropped_bits(sig_chars as nat) == drop);
            assert(pow2(drop as nat) == WORD * pow2(e as nat));
            assert(v as int / pow2(drop as nat) as int == qd);
            assert(kept * WORD == (high / p) * (WORD * p)) by (nonlinear_arith)
                requires
                    kept == high / p * p,
            ;
            assert(packed_value((kept, 0)) == truncated(v, sig_chars as nat));
            Ok((kept, 0))
        }
    }
}

/// Whether two packed positions agree in their highest `5 sig_chars` bits.
/// Fails when `sig_chars` exceeds `MAX_SIG_CHARS`.
pub fn equal_within_tolerance(a: &(u128, u64), b: &(u128, u64), sig_chars: usize) -> (r: Result<
    bool,
    ToleranceError,
>)
    ensures
        sig_chars <= MAX_SIG_CHARS ==> r == Ok::<bool, ToleranceError>(
            same_within(*a, *b, sig_chars as nat),
        ),
        sig_chars > MAX_SIG_CHARS ==> r == Err::<bool, ToleranceError>(
            ToleranceError::PrecisionOutOfRange { requested: sig_chars, max: MAX_SIG_CHARS },
        ),
{
    let ta = match truncate_to_tolerance(a, sig_chars) {
        Ok(t) => t,
        Err(e) => return Err(e),
    };
    let tb = match truncate_to_tolerance(b, sig_chars) {
        Ok(t) => t,
        Err(e) => return Err(e),
    };
    proof {
        lemma_packed_value_injective(ta, tb);
    }
    Ok(ta.0 == tb.0 && ta.1 == tb.1)
}

/// Distinct packed pairs have distinct values.
pub proof fn lemma_packed_value_injective(a: (u128, u64), b: (u128, u64))
    ensures
        packed_value(a) == packed_value(b) <==> a == b,
{
    if packed_value(a) == packed_value(b) {
        lemma_div_multiples_vanish_fancy(a.0 as int, a.1 as int, WORD as int);
        lemma_div_multiples_vanish_fancy(b.0 as int, b.1 as int, WORD as int);
    }
}

/// The truncated packed position as a token: `SNAP_PREFIX` followed by 48
/// lowercase hexadecimal digits. Fails when `sig_chars` exceeds
/// `MAX_SIG_CHARS`.
pub fn snap_to_tolerance(uvoxid: &(u128, u64), sig_chars: usize) -> (r: Result<
    String,
    ToleranceError,
>)
    ensures
        sig_chars <= MAX_SIG_CHARS ==> r is Ok && (r->Ok_0)@ == SNAP_PREFIX@ + packed_text(
            split_packed(truncated(packed_value(*uvoxid), sig_chars as nat)),
        ),
        sig_chars > MAX_SIG_CHARS ==> r == Err::<String, ToleranceError>(
            ToleranceError::PrecisionOutOfRange { requested: sig_chars, max: MAX_SIG_CHARS },
        ),
{
    let t = match truncate_to_tolerance(uvoxid, sig_chars) {
        Ok(t) => t,
        Err(e) => return Err(e),
    };
    let mut s = SNAP_PREFIX.to_owned();
    let g0 = hex16((t.0 / WORD) as u64);
    s.append(g0.as_str());
    let g1 = hex16((t.0 % WORD) as u64);
    s.append(g1.as_str());
    let g2 = hex16(t.1);
    s.append(g2.as_str());
    proof {
        lemma_div_multiples_vanish_fancy(t.0 as int, t.1 as int, WORD as int);
        assert(split_packed(packed_value(t)) == t);
        assert(s@ =~= SNAP_PREFIX@ + packed_text(t));
    }
    Ok(s)
}

} // verus!
