//! Error correction of a block of codewords, a Reed-Solomon code over
//! `GF(2^8)`. The last codeword of a block is the constant term of the block
//! as a polynomial.

use crate::decode::berlekamp::{berlekamp_massey, lfsr_run};
use crate::decode::galois::{gf256, spec_gf256, GF256_EXP, GF256_LOG};
use crate::decode::polynomial::{poly_eval, spec_poly_eval};
use crate::decode::MAX_POLY;
use crate::error::QuircDecodeError;
use crate::version_db::QuircRsParams;
use vstd::prelude::*;

verus! {

/// The block of `bs` codewords at the start of `data`, evaluated at the
/// power `i` of the generator; only the last `n` codewords are counted.
pub open spec fn block_sum(data: Seq<u8>, bs: int, i: int, n: int) -> u8
    decreases n,
{
    if n <= 0 {
        0
    } else {
        block_sum(data, bs, i, n - 1) ^ spec_gf256().scale(data[bs - n], i * (n - 1))
    }
}

/// Entry `i` of the syndrome vector of a block with `npar` check words.
pub open spec fn block_syndrome(data: Seq<u8>, bs: int, npar: int, i: int) -> u8 {
    if 0 <= i < npar {
        block_sum(data, bs, i, bs)
    } else {
        0
    }
}

/// The syndrome vector of a block.
pub open spec fn spec_block_syndromes(data: Seq<u8>, bs: int, npar: int) -> Seq<u8> {
    Seq::new(MAX_POLY as nat, |i: int| block_syndrome(data, bs, npar, i))
}

/// Whether the block is a word of the code: all its syndromes are zero.
pub open spec fn block_valid(data: Seq<u8>, bs: int, npar: int) -> bool {
    forall|i: int| 0 <= i < npar ==> #[trigger] block_syndrome(data, bs, npar, i) == 0
}

/// The sum of the first `n` products that make coefficient `k` of the
/// product of the locator `sigma` and the syndromes `s` without their first.
pub open spec fn omega_sum(s: Seq<u8>, sigma: Seq<u8>, k: int, n: int) -> u8
    decreases n,
{
    if n <= 0 {
        0
    } else if k - (n - 1) < MAX_POLY - 1 {
        omega_sum(s, sigma, k, n - 1) ^ spec_gf256().times(sigma[n - 1], s[k - (n - 1) + 1])
    } else {
        omega_sum(s, sigma, k, n - 1)
    }
}

/// Coefficient `k` of the error evaluator: the product of the locator and
/// the syndromes, cut off at `npar` coefficients.
pub open spec fn omega_coeff(s: Seq<u8>, sigma: Seq<u8>, npar: int, k: int) -> u8 {
    if 0 <= k < npar {
        omega_sum(s, sigma, k, k + 1)
    } else {
        0
    }
}

/// The error evaluator polynomial.
pub open spec fn spec_eloc_poly(s: Seq<u8>, sigma: Seq<u8>, npar: int) -> Seq<u8> {
    Seq::new(MAX_POLY as nat, |k: int| omega_coeff(s, sigma, npar, k))
}

/// The formal derivative of `sigma`: in a field of characteristic 2 the
/// terms of even degree vanish, and the others keep their coefficient.
pub open spec fn derivative(sigma: Seq<u8>) -> Seq<u8> {
    Seq::new(
        MAX_POLY as nat,
        |i: int|
            if i % 2 == 0 && i + 1 < MAX_POLY {
                sigma[i + 1]
            } else {
                0
            },
    )
}

/// The value of an error from the values of the evaluator and of the
/// derivative of the locator at the error's position: their quotient.
pub open spec fn forney(deriv_x: u8, omega_x: u8) -> u8 {
    GF256_EXP[(255 - GF256_LOG[deriv_x as int] + GF256_LOG[omega_x as int]) % 255]
}

/// The block with an error value added at each of the last `n` positions at
/// which the locator has a root.
pub open spec fn apply_errors(
    sigma: Seq<u8>,
    deriv: Seq<u8>,
    omega: Seq<u8>,
    data: Seq<u8>,
    bs: int,
    n: int,
) -> Seq<u8>
    decreases n,
{
    if n <= 0 {
        data
    } else {
        let prev = apply_errors(sigma, deriv, omega, data, bs, n - 1);
        let xinv = GF256_EXP[255 - (n - 1)];
        if spec_poly_eval(spec_gf256(), sigma, xinv) == 0 {
            prev.update(
                bs - n,
                prev[bs - n] ^ forney(
                    spec_poly_eval(spec_gf256(), deriv, xinv),
                    spec_poly_eval(spec_gf256(), omega, xinv),
                ),
            )
        } else {
            prev
        }
    }
}

/// The block that correction proposes for `data`.
pub open spec fn block_candidate(data: Seq<u8>, bs: int, dw: int) -> Seq<u8> {
    let npar = bs - dw;
    let s = spec_block_syndromes(data, bs, npar);
    let sigma = lfsr_run(spec_gf256(), s, npar as nat).c;
    let omega = spec_eloc_poly(s, sigma, npar - 1);
    apply_errors(sigma, derivative(sigma), omega, data, bs, bs)
}

/// What correction leaves in `data`: a valid block as it is, any other
/// block's candidate.
pub open spec fn spec_correct_block(data: Seq<u8>, bs: int, dw: int) -> Seq<u8> {
    if block_valid(data, bs, bs - dw) {
        data
    } else {
        block_candidate(data, bs, dw)
    }
}

/// Computes the syndromes of the block of `bs` codewords at the start of
/// `data` into the first `MAX_POLY` entries of `s`, and says whether any is
/// nonzero.
pub fn block_syndromes(data: &[u8], bs: usize, npar: usize, s: &mut [u8]) -> (nonzero: bool)
    requires
        bs <= data@.len(),
        npar <= MAX_POLY,
        old(s)@.len() >= MAX_POLY,
        MAX_POLY * bs <= usize::MAX - 255,
    ensures
        final(s)@.len() == old(s)@.len(),
        forall|i: int| 0 <= i < MAX_POLY ==> #[trigger] final(s)@[i] == block_syndrome(data@, bs as int, npar as int, i),
        forall|i: int| MAX_POLY <= i < old(s)@.len() ==> #[trigger] final(s)@[i] == old(s)@[i],
        nonzero == !block_valid(data@, bs as int, npar as int),
{
    let gf = gf256();
    let mut nonzero = false;
    let mut i: usize = 0;
    while i < MAX_POLY
        invariant
            i <= MAX_POLY,
            s@.len() == old(s)@.len(),
            s@.len() >= MAX_POLY,
            forall|k: int| 0 <= k < i ==> #[trigger] s@[k] == 0,
            forall|k: int| MAX_POLY <= k < s@.len() ==> #[trigger] s@[k] == old(s)@[k],
        decreases MAX_POLY - i,
    {
        s[i] = 0;
        i += 1;
    }
    i = 0;
    while i < npar
        invariant
            i <= npar <= MAX_POLY,
            bs <= data@.len(),
            MAX_POLY * bs <= usize::MAX - 255,
            gf == spec_gf256(),
            gf.wf(),
            s@.len() == old(s)@.len(),
            s@.len() >= MAX_POLY,
            forall|k: int| 0 <= k < i ==> #[trigger] s@[k] == block_syndrome(data@, bs as int, npar as int, k),
            forall|k: int| i <= k < MAX_POLY ==> #[trigger] s@[k] == 0,
            forall|k: int| MAX_POLY <= k < s@.len() ==> #[trigger] s@[k] == old(s)@[k],
            nonzero == !(forall|k: int| 0 <= k < i ==> #[trigger] block_syndrome(data@, bs as int, npar as int, k) == 0),
        decreases npar - i,
    {
        let mut acc: u8 = 0;
        let mut j: usize = 0;
        while j < bs
            invariant
                j <= bs <= data@.len(),
                i < npar <= MAX_POLY,
                MAX_POLY * bs <= usize::MAX - 255,
                gf == spec_gf256(),
                gf.wf(),
                acc == block_sum(data@, bs as int, i as int, j as int),
            decreases bs - j,
        {
            assert(i * j <= MAX_POLY * bs) by (nonlinear_arith)
                requires
                    i < MAX_POLY,
                    j < bs,
            ;
            let t = gf.mul_exp(data[bs - j - 1], i * j);
            acc ^= t;
            j += 1;
        }
        s[i] = acc;
        assert(acc == block_syndrome(data@, bs as int, npar as int, i as int));
        if acc != 0 {
            nonzero = true;
        }
        proof {
            if !nonzero {
                assert forall|k: int| 0 <= k < i + 1 implies #[trigger] block_syndrome(
                    data@,
                    bs as int,
                    npar as int,
                    k,
                ) == 0 by {}
            }
        }
        i += 1;
    }
    nonzero
}

/// Computes the error evaluator polynomial into the first `MAX_POLY` entries
/// of `omega`.
pub fn eloc_poly(omega: &mut [u8], s: &[u8], sigma: &[u8], npar: usize)
    requires
        old(omega)@.len() >= MAX_POLY,
        s@.len() >= MAX_POLY,
        sigma@.len() >= MAX_POLY,
        npar <= MAX_POLY,
    ensures
        final(omega)@.len() == old(omega)@.len(),
        forall|k: int| 0 <= k < MAX_POLY ==> #[trigger] final(omega)@[k] == omega_coeff(s@, sigma@, npar as int, k),
        forall|k: int| MAX_POLY <= k < old(omega)@.len() ==> #[trigger] final(omega)@[k] == old(omega)@[k],
{
    let gf = gf256();
    let mut k: usize = 0;
    while k < MAX_POLY
        invariant
            k <= MAX_POLY,
            npar <= MAX_POLY,
            omega@.len() == old(omega)@.len(),
            omega@.len() >= MAX_POLY,
            s@.len() >= MAX_POLY,
            sigma@.len() >= MAX_POLY,
            gf == spec_gf256(),
            gf.wf(),
            forall|q: int| 0 <= q < k ==> #[trigger] omega@[q] == omega_coeff(s@, sigma@, npar as int, q),
            forall|q: int| MAX_POLY <= q < omega@.len() ==> #[trigger] omega@[q] == old(omega)@[q],
        decreases MAX_POLY - k,
    {
        let mut acc: u8 = 0;
        if k < npar {
            let mut i: usize = 0;
            while i <= k
                invariant
                    i <= k + 1,
                    k < npar <= MAX_POLY,
                    s@.len() >= MAX_POLY,
                    sigma@.len() >= MAX_POLY,
                    gf == spec_gf256(),
                    gf.wf(),
                    acc == omega_sum(s@, sigma@, k as int, i as int),
                decreases k + 1 - i,
            {
                if k - i < MAX_POLY - 1 {
                    let t = gf.mul(sigma[i], s[k - i + 1]);
                    acc ^= t;
                }
                i += 1;
            }
        }
        omega[k] = acc;
        k += 1;
    }
}

/// Corrects the block of `ecc.bs` codewords at the start of `data` in place.
/// A block that is valid stays as it is. Any other block is replaced by its
/// candidate, and the call succeeds if that is valid.
pub fn correct_block(data: &mut [u8], ecc: &QuircRsParams) -> (err: QuircDecodeError)
    requires
        ecc.dw < ecc.bs <= 255,
        ecc.bs - ecc.dw <= MAX_POLY,
        ecc.bs <= old(data)@.len(),
    ensures
        final(data)@ == spec_correct_block(old(data)@, ecc.bs as int, ecc.dw as int),
        final(data)@.len() == old(data)@.len(),
        block_valid(old(data)@, ecc.bs as int, ecc.bs - ecc.dw) ==> err == QuircDecodeError::QuircSuccess
            && final(data)@ == old(data)@,
        block_valid(final(data)@, ecc.bs as int, ecc.bs - ecc.dw) ==> err == QuircDecodeError::QuircSuccess,
        !block_valid(final(data)@, ecc.bs as int, ecc.bs - ecc.dw) ==> err == QuircDecodeError::QuircErrorDataEcc,
{
    let bs = ecc.bs as usize;
    let npar = (ecc.bs - ecc.dw) as usize;
    let gf = gf256();

    let mut s = [0u8; MAX_POLY];
    if !block_syndromes(data, bs, npar, &mut s) {
        return QuircDecodeError::QuircSuccess;
    }
    assert(s@ =~= spec_block_syndromes(data@, bs as int, npar as int));

    let sigma = berlekamp_massey(&s, npar, &gf);

    let mut sigma_deriv = [0u8; MAX_POLY];
    let mut i: usize = 0;
    while i + 1 < MAX_POLY
        invariant
            i <= MAX_POLY,
            i % 2 == 0,
            forall|k: int| 0 <= k < i ==> #[trigger] sigma_deriv@[k] == derivative(sigma@)[k],
            forall|k: int| i <= k < MAX_POLY ==> #[trigger] sigma_deriv@[k] == 0,
        decreases MAX_POLY - i,
    {
        sigma_deriv[i] = sigma[i + 1];
        i += 2;
    }
    assert(sigma_deriv@ =~= derivative(sigma@));

    let mut omega = [0u8; MAX_POLY];
    eloc_poly(&mut omega, &s, &sigma, npar - 1);
    assert(omega@ =~= spec_eloc_poly(s@, sigma@, npar - 1));

    i = 0;
    while i < bs
        invariant
            i <= bs <= 255,
            bs <= data@.len(),
            data@.len() == old(data)@.len(),
            gf == spec_gf256(),
            gf.wf(),
            data@ == apply_errors(sigma@, sigma_deriv@, omega@, old(data)@, bs as int, i as int),
        decreases bs - i,
    {
        let xinv = GF256_EXP[255 - i];
        if poly_eval(&sigma, xinv, &gf) == 0 {
            let sd_x = poly_eval(&sigma_deriv, xinv, &gf);
            let omega_x = poly_eval(&omega, xinv, &gf);
            let error = GF256_EXP[(255 - GF256_LOG[sd_x as usize] as usize + GF256_LOG[omega_x as usize] as usize) % 255];
            data[bs - i - 1] ^= error;
        }
        i += 1;
    }

    if block_syndromes(data, bs, npar, &mut s) {
        QuircDecodeError::QuircErrorDataEcc
    } else {
        QuircDecodeError::QuircSuccess
    }
}

/// Correction is idempotent on valid blocks: a block whose syndromes are all
/// zero comes back unchanged.
pub proof fn lemma_valid_block_kept(data: Seq<u8>, bs: int, dw: int)
    requires
        block_valid(data, bs, bs - dw),
    ensures
        spec_correct_block(data, bs, dw) == data,
{
}

} // verus!
