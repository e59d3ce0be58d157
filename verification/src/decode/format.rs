//! Error correction of the 15-bit format word, a BCH code over `GF(2^4)`
//! that corrects up to three wrong bits.

use crate::decode::berlekamp::{berlekamp_massey, lfsr_run};
use crate::decode::galois::{gf16, lemma_xor_closed, lemma_xor_zero, spec_gf16, GF16_EXP};
use crate::decode::polynomial::{poly_eval, spec_poly_eval};
use crate::decode::MAX_POLY;
use crate::error::QuircDecodeError;
use vstd::prelude::*;

verus! {

pub const FORMAT_MAX_ERROR: usize = 3;

pub const FORMAT_SYNDROMES: usize = FORMAT_MAX_ERROR * 2;

pub const FORMAT_BITS: usize = 15;

/// Whether bit `j` of the word `u` is set.
pub open spec fn word_bit(u: u16, j: int) -> bool {
    u & (1u16 << j) != 0
}

/// The word `u` as a polynomial, evaluated at the power `i + 1` of the
/// generator; only the first `n` bits of `u` are counted.
pub open spec fn format_sum(u: u16, i: int, n: int) -> u8
    decreases n,
{
    if n <= 0 {
        0
    } else if word_bit(u, n - 1) {
        format_sum(u, i, n - 1) ^ GF16_EXP[((i + 1) * (n - 1)) % 15]
    } else {
        format_sum(u, i, n - 1)
    }
}

/// Entry `i` of the syndrome vector of the word `u`.
pub open spec fn format_syndrome(u: u16, i: int) -> u8 {
    if 0 <= i < FORMAT_SYNDROMES {
        format_sum(u, i, FORMAT_BITS as int)
    } else {
        0
    }
}

/// The syndrome vector of the word `u`.
pub open spec fn spec_format_syndromes(u: u16) -> Seq<u8> {
    Seq::new(MAX_POLY as nat, |i: int| format_syndrome(u, i))
}

/// Whether `u` is a word of the code: all its syndromes are zero.
pub open spec fn format_valid(u: u16) -> bool {
    forall|i: int| 0 <= i < FORMAT_SYNDROMES ==> #[trigger] format_syndrome(u, i) == 0
}

/// The word `u` with bit `k` flipped for each `k < n` at which the locator
/// `sigma` has a root, that is, where it vanishes at the power `-k` of the
/// generator.
pub open spec fn flip_roots(sigma: Seq<u8>, u: u16, n: int) -> u16
    decreases n,
{
    if n <= 0 {
        u
    } else if spec_poly_eval(spec_gf16(), sigma, GF16_EXP[15 - (n - 1)]) == 0 {
        flip_roots(sigma, u, n - 1) ^ (1u16 << (n - 1))
    } else {
        flip_roots(sigma, u, n - 1)
    }
}

/// The word that correction proposes for `u`: the bits of `u` flipped at the
/// roots of the locator that the syndromes of `u` give.
pub open spec fn format_candidate(u: u16) -> u16 {
    flip_roots(
        lfsr_run(spec_gf16(), spec_format_syndromes(u), FORMAT_SYNDROMES as nat).c,
        u,
        FORMAT_BITS as int,
    )
}

/// The corrected word, or `None` if the word cannot be corrected. A valid
/// word stands as it is; any other is replaced by its candidate if that is
/// valid.
pub open spec fn spec_correct_format(u: u16) -> Option<u16> {
    if format_valid(u) {
        Some(u)
    } else if format_valid(format_candidate(u)) {
        Some(format_candidate(u))
    } else {
        None
    }
}

proof fn lemma_flip_bit_small(u: u16, k: u16)
    requires
        u < 0x8000,
        k < 15,
    ensures
        u ^ (1u16 << k) < 0x8000,
{
    assert(u < 0x8000 && k < 15 ==> u ^ (1u16 << k) < 0x8000) by (bit_vector);
}

/// Computes the syndromes of the word `u` into the first `MAX_POLY` entries
/// of `s` and says whether any is nonzero.
pub fn format_syndromes(u: u16, s: &mut [u8]) -> (nonzero: bool)
    requires
        old(s)@.len() >= MAX_POLY,
    ensures
        final(s)@.len() == old(s)@.len(),
        forall|i: int| 0 <= i < MAX_POLY ==> #[trigger] final(s)@[i] == format_syndrome(u, i),
        forall|i: int| MAX_POLY <= i < old(s)@.len() ==> #[trigger] final(s)@[i] == old(s)@[i],
        forall|i: int| 0 <= i < MAX_POLY ==> #[trigger] final(s)@[i] <= 15,
        nonzero == !format_valid(u),
{
    let mut nonzero = false;
    let mut i: usize = 0;
    while i < MAX_POLY
        invariant
            i <= MAX_POLY,
            s@.len() == old(s)@.len(),
            s@.len() >= MAX_POLY,
            forall|k: int| 0 <= k < i ==> #[trigger] s@[k] == 0,
            forall|k: int| MAX_POLY <= k < s@.len() ==> #[trigger] s@[k] == old(s)@[k],
        decreases MAX_POLY - i,
    {
        s[i] = 0;
        i += 1;
    }
    i = 0;
    while i < FORMAT_SYNDROMES
        invariant
            i <= FORMAT_SYNDROMES,
            s@.len() == old(s)@.len(),
            s@.len() >= MAX_POLY,
            forall|k: int| 0 <= k < i ==> #[trigger] s@[k] == format_syndrome(u, k),
            forall|k: int| i <= k < MAX_POLY ==> #[trigger] s@[k] == 0,
            forall|k: int| 0 <= k < MAX_POLY ==> #[trigger] s@[k] <= 15,
            forall|k: int| MAX_POLY <= k < s@.len() ==> #[trigger] s@[k] == old(s)@[k],
            nonzero == !(forall|k: int| 0 <= k < i ==> #[trigger] format_syndrome(u, k) == 0),
        decreases FORMAT_SYNDROMES - i,
    {
        let mut acc: u8 = 0;
        let mut j: usize = 0;
        while j < FORMAT_BITS
            invariant
                j <= FORMAT_BITS,
                i < FORMAT_SYNDROMES,
                acc <= 15,
                acc == format_sum(u, i as int, j as int),
            decreases FORMAT_BITS - j,
        {
            if u & (1u16 << j) != 0 {
                assert((i + 1) * j <= 6 * 15) by (nonlinear_arith)
                    requires
                        i < 6,
                        j < 15,
                ;
                let t = GF16_EXP[((i + 1) * j) % 15];
                proof {
                    lemma_xor_closed(spec_gf16(), acc, t);
                }
                acc ^= t;
            }
            j += 1;
        }
        s[i] = acc;
        assert(acc == format_syndrome(u, i as int));
        if acc != 0 {
            nonzero = true;
        }
        proof {
            if !nonzero {
                assert forall|k: int| 0 <= k < i + 1 implies #[trigger] format_syndrome(u, k) == 0 by {}
            }
        }
        i += 1;
    }
    nonzero
}

/// Corrects the format word `*f_ret` in place. Fails, and leaves the word as
/// it is, when the corrected word is not a word of the code. A word of the
/// code with up to three wrong bits is set right; with more wrong bits the
/// correction fails or gives another word of the code.
pub fn correct_format(f_ret: &mut u16) -> (err: QuircDecodeError)
    ensures
        match spec_correct_format(*old(f_ret)) {
            Some(v) => err == QuircDecodeError::QuircSuccess && *final(f_ret) == v,
            None => err == QuircDecodeError::QuircErrorFormatEcc && *final(f_ret) == *old(f_ret),
        },
        err == QuircDecodeError::QuircSuccess ==> format_valid(*final(f_ret)),
        *old(f_ret) < 0x8000 ==> *final(f_ret) < 0x8000,
{
    let mut u = *f_ret;
    let mut s = [0u8; MAX_POLY];

    if !format_syndromes(u, &mut s) {
        return QuircDecodeError::QuircSuccess;
    }
    assert(s@ =~= spec_format_syndromes(u));

    let gf = gf16();
    let sigma = berlekamp_massey(&s, FORMAT_SYNDROMES, &gf);

    let mut i: usize = 0;
    while i < 15
        invariant
            i <= 15,
            gf == spec_gf16(),
            gf.wf(),
            gf.has_all(sigma@, MAX_POLY as int),
            u == flip_roots(sigma@, *old(f_ret), i as int),
            *old(f_ret) < 0x8000 ==> u < 0x8000,
        decreases 15 - i,
    {
        if poly_eval(&sigma, GF16_EXP[15 - i], &gf) == 0 {
            proof {
                if u < 0x8000 {
                    lemma_flip_bit_small(u, i as u16);
                }
            }
            u ^= 1u16 << i;
        }
        i += 1;
    }

    if format_syndromes(u, &mut s) {
        return QuircDecodeError::QuircErrorFormatEcc;
    }
    *f_ret = u;
    QuircDecodeError::QuircSuccess
}

/// The syndromes of two words add up to the syndromes of their sum: the
/// syndromes of a damaged word of the code are those of the damage alone.
pub proof fn lemma_format_sum_linear(a: u16, b: u16, i: int, n: int)
    requires
        0 <= n <= FORMAT_BITS,
    ensures
        format_sum(a ^ b, i, n) == format_sum(a, i, n) ^ format_sum(b, i, n),
    decreases n,
{
    if n > 0 {
        lemma_format_sum_linear(a, b, i, n - 1);
        let j = (n - 1) as u16;
        let t = GF16_EXP[((i + 1) * (n - 1)) % 15];
        let x = format_sum(a, i, n - 1);
        let y = format_sum(b, i, n - 1);
        assert(j < 15 ==> (((a ^ b) & (1u16 << j) != 0) == ((a & (1u16 << j) != 0) != (b & (1u16 << j) != 0))))
            by (bit_vector);
        assert((x ^ t) ^ (y ^ t) == x ^ y && (x ^ t) ^ y == (x ^ y) ^ t && x ^ (y ^ t) == (x ^ y) ^ t)
            by (bit_vector);
    } else {
        assert(0u8 ^ 0u8 == 0u8) by (bit_vector);
    }
}

/// A damaged word of the code has the syndromes of the damage.
pub proof fn lemma_damage_syndromes(word: u16, damage: u16, i: int)
    requires
        format_valid(word),
        0 <= i < FORMAT_SYNDROMES,
    ensures
        format_syndrome(word ^ damage, i) == format_syndrome(damage, i),
{
    lemma_format_sum_linear(word, damage, i, FORMAT_BITS as int);
    assert(format_syndrome(word, i) == 0);
    lemma_xor_zero(format_syndrome(damage, i));
}

/// A word of the code goes through correction unchanged.
pub proof fn lemma_valid_format_kept(u: u16)
    requires
        format_valid(u),
    ensures
        spec_correct_format(u) == Some(u),
{
}

} // verus!
