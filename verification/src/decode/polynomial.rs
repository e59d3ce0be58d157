//! Polynomials over a Galois field, as arrays of `MAX_POLY` coefficients with
//! the constant term first.

use crate::decode::galois::{lemma_xor_closed, lemma_xor_zero, GaloisField};
use crate::decode::MAX_POLY;
use vstd::prelude::*;

verus! {

/// The polynomial `dst + c * x^shift * src`, cut off at `MAX_POLY` coefficients.
/// Entries of `dst` after the first `MAX_POLY` are kept.
pub open spec fn spec_poly_add(gf: GaloisField, dst: Seq<u8>, src: Seq<u8>, c: u8, shift: int) -> Seq<u8> {
    Seq::new(
        dst.len(),
        |k: int|
            if k < MAX_POLY && 0 <= k - shift < MAX_POLY {
                dst[k] ^ gf.times(src[k - shift], c)
            } else {
                dst[k]
            },
    )
}

/// The sum of the first `n` terms of the polynomial `s` at the nonzero point `x`.
pub open spec fn eval_sum(gf: GaloisField, s: Seq<u8>, x: u8, n: int) -> u8
    decreases n,
{
    if n <= 0 {
        0
    } else {
        eval_sum(gf, s, x, n - 1) ^ gf.scale(s[n - 1], gf.log@[x as int] * (n - 1))
    }
}

/// The value of the polynomial `s` at `x`, for `x` other than zero. At
/// zero the result is zero, whatever the polynomial.
pub open spec fn spec_poly_eval(gf: GaloisField, s: Seq<u8>, x: u8) -> u8 {
    if x == 0 {
        0
    } else {
        eval_sum(gf, s, x, MAX_POLY as int)
    }
}

/// Adds `c * x^shift * src` to `dst`.
pub fn poly_add(dst: &mut [u8], src: &[u8], c: u8, shift: isize, gf: &GaloisField)
    requires
        gf.wf(),
        old(dst)@.len() >= MAX_POLY,
        src@.len() >= MAX_POLY,
        gf.has_all(old(dst)@, MAX_POLY as int),
        gf.has_all(src@, MAX_POLY as int),
        gf.has(c),
        shift <= isize::MAX - MAX_POLY,
    ensures
        final(dst)@ == spec_poly_add(*gf, old(dst)@, src@, c, shift as int),
        gf.has_all(final(dst)@, MAX_POLY as int),
{
    if c == 0 {
        proof {
            assert forall|k: int| 0 <= k < dst@.len() implies dst@[k] == #[trigger] spec_poly_add(
                *gf,
                dst@,
                src@,
                c,
                shift as int,
            )[k] by {
                lemma_xor_zero(dst@[k]);
            }
        }
        return ;
    }
    let mut i: usize = 0;
    while i < MAX_POLY
        invariant
            i <= MAX_POLY,
            gf.wf(),
            gf.has(c),
            c != 0,
            dst@.len() == old(dst)@.len(),
            dst@.len() >= MAX_POLY,
            src@.len() >= MAX_POLY,
            gf.has_all(old(dst)@, MAX_POLY as int),
            gf.has_all(src@, MAX_POLY as int),
            gf.has_all(dst@, MAX_POLY as int),
            shift <= isize::MAX - MAX_POLY,
            forall|k: int|
                0 <= k < dst@.len() ==> #[trigger] dst@[k] == if k < MAX_POLY && 0 <= k - shift < i {
                    old(dst)@[k] ^ gf.times(src@[k - shift], c)
                } else {
                    old(dst)@[k]
                },
        decreases MAX_POLY - i,
    {
        let p = i as isize + shift;
        let v = src[i];
        if 0 <= p && p < MAX_POLY as isize {
            if v != 0 {
                let t = gf.mul(v, c);
                let q = p as usize;
                proof {
                    lemma_xor_closed(*gf, dst@[q as int], t);
                }
                dst[q] ^= t;
            } else {
                proof {
                    lemma_xor_zero(dst@[p as int]);
                }
            }
        }
        i += 1;
    }
}

/// Evaluates the polynomial `s` at `x`. At zero the result is zero.
pub fn poly_eval(s: &[u8], x: u8, gf: &GaloisField) -> (sum: u8)
    requires
        gf.wf(),
        s@.len() >= MAX_POLY,
        gf.has_all(s@, MAX_POLY as int),
        gf.has(x),
    ensures
        sum == spec_poly_eval(*gf, s@, x),
        gf.has(sum),
{
    if x == 0 {
        return 0;
    }
    let mut sum: u8 = 0;
    let log_x = gf.log[x as usize] as usize;
    let mut i: usize = 0;
    while i < MAX_POLY
        invariant
            i <= MAX_POLY,
            gf.wf(),
            s@.len() >= MAX_POLY,
            gf.has_all(s@, MAX_POLY as int),
            gf.has(x),
            gf.has(sum),
            log_x == gf.log@[x as int],
            log_x <= 255,
            sum == eval_sum(*gf, s@, x, i as int),
        decreases MAX_POLY - i,
    {
        let c = s[i];
        assert(log_x * i <= 255 * 64) by (nonlinear_arith)
            requires
                log_x <= 255,
                i < 64,
        ;
        let t = gf.mul_exp(c, log_x * i);
        proof {
            lemma_xor_closed(*gf, sum, t);
        }
        sum ^= t;
        i += 1;
    }
    sum
}

} // verus!
