//! The Berlekamp-Massey algorithm: from a sequence of syndromes to the
//! polynomial that locates the errors.

use crate::decode::galois::{lemma_xor_closed, GaloisField};
use crate::decode::polynomial::{poly_add, spec_poly_add};
use crate::decode::MAX_POLY;
use vstd::prelude::*;

verus! {

/// The state of the algorithm between two syndromes.
pub struct Lfsr {
    /// The current locator polynomial.
    pub c: Seq<u8>,
    /// The locator as it was before the last change of length.
    pub b: Seq<u8>,
    /// The number of errors that the locator assumes.
    pub l: int,
    /// The number of syndromes read since the last change of length.
    pub m: int,
    /// The discrepancy at the last change of length.
    pub d: u8,
}

/// The polynomial 1.
pub open spec fn unit_poly() -> Seq<u8> {
    Seq::new(MAX_POLY as nat, |i: int| if i == 0 { 1u8 } else { 0u8 })
}

/// The state before any syndrome is read.
pub open spec fn lfsr_start() -> Lfsr {
    Lfsr { c: unit_poly(), b: unit_poly(), l: 0, m: 1, d: 1 }
}

/// The difference between syndrome `n` and what the locator `c` predicts for
/// it from the `k` syndromes before it.
pub open spec fn discrepancy(gf: GaloisField, s: Seq<u8>, c: Seq<u8>, n: int, k: int) -> u8
    decreases k,
{
    if k <= 0 {
        s[n]
    } else {
        discrepancy(gf, s, c, n, k - 1) ^ gf.times(c[k], s[n - k])
    }
}

/// The state after syndrome `n` is read in state `st`. A zero discrepancy
/// leaves the locator as it is. Otherwise the locator is corrected with the
/// older one; if it assumed at most `n / 2` errors, it grows to `n + 1 - l`.
pub open spec fn lfsr_step(gf: GaloisField, s: Seq<u8>, st: Lfsr, n: int) -> Lfsr {
    let d = discrepancy(gf, s, st.c, n, st.l);
    let fixed = spec_poly_add(gf, st.c, st.b, gf.over(d, st.d), st.m);
    if d == 0 {
        Lfsr { m: st.m + 1, ..st }
    } else if st.l * 2 <= n {
        Lfsr { c: fixed, b: st.c, l: n + 1 - st.l, m: 1, d: d }
    } else {
        Lfsr { c: fixed, m: st.m + 1, ..st }
    }
}

/// The state after the first `n` syndromes of `s`.
pub open spec fn lfsr_run(gf: GaloisField, s: Seq<u8>, n: nat) -> Lfsr
    decreases n,
{
    if n == 0 {
        lfsr_start()
    } else {
        lfsr_step(gf, s, lfsr_run(gf, s, (n - 1) as nat), n - 1)
    }
}

/// Finds the error locator polynomial for the first `big_n` syndromes of `s`.
/// There is no failure: for syndromes that no correctable error gives, the
/// polynomial has no matching roots, which the caller finds out.
pub fn berlekamp_massey(s: &[u8], big_n: usize, gf: &GaloisField) -> (sigma: [u8; MAX_POLY])
    requires
        gf.wf(),
        big_n <= MAX_POLY,
        big_n <= s@.len(),
        gf.has_all(s@, big_n as int),
    ensures
        sigma@ == lfsr_run(*gf, s@, big_n as nat).c,
        gf.has_all(sigma@, MAX_POLY as int),
        (forall|i: int| 0 <= i < big_n ==> s@[i] == 0) ==> sigma@ == unit_poly(),
{
    let mut big_c = [0u8; MAX_POLY];
    let mut big_b = [0u8; MAX_POLY];
    let mut big_l: usize = 0;
    let mut m: usize = 1;
    let mut b: u8 = 1;
    big_b[0] = 1;
    big_c[0] = 1;
    assert(big_c@ =~= unit_poly());
    assert(big_b@ =~= unit_poly());

    let mut n: usize = 0;
    while n < big_n
        invariant
            n <= big_n,
            gf.wf(),
            big_n <= MAX_POLY,
            big_n <= s@.len(),
            gf.has_all(s@, big_n as int),
            gf.has_all(big_c@, MAX_POLY as int),
            gf.has_all(big_b@, MAX_POLY as int),
            gf.has(b),
            big_l <= n,
            1 <= m <= n + 1,
            lfsr_run(*gf, s@, n as nat) == (Lfsr { c: big_c@, b: big_b@, l: big_l as int, m: m as int, d: b }),
        decreases big_n - n,
    {
        let mut d = s[n];
        let mut i: usize = 1;
        while i <= big_l
            invariant
                1 <= i <= big_l + 1,
                big_l <= n < big_n,
                big_n <= MAX_POLY,
                big_n <= s@.len(),
                gf.wf(),
                gf.has_all(s@, big_n as int),
                gf.has_all(big_c@, MAX_POLY as int),
                gf.has(d),
                d == discrepancy(*gf, s@, big_c@, n as int, i - 1),
            decreases big_l + 1 - i,
        {
            let t = gf.mul(big_c[i], s[n - i]);
            proof {
                lemma_xor_closed(*gf, d, t);
            }
            d ^= t;
            i += 1;
        }

        if d == 0 {
            m += 1;
        } else {
            let mult = gf.mul_exp(d, gf.p - gf.log[b as usize] as usize);
            if big_l * 2 <= n {
                let big_t = big_c;
                poly_add(&mut big_c, &big_b, mult, m as isize, gf);
                big_b = big_t;
                big_l = n + 1 - big_l;
                b = d;
                m = 1;
            } else {
                poly_add(&mut big_c, &big_b, mult, m as isize, gf);
                m += 1;
            }
        }
        n += 1;
    }
    proof {
        if forall|i: int| 0 <= i < big_n ==> s@[i] == 0 {
            lemma_zero_syndromes_trivial_locator(*gf, s@, big_n as nat);
        }
    }
    big_c
}

/// Syndromes that are all zero leave the locator at the polynomial 1, which
/// has no roots: no position is marked as an error.
pub proof fn lemma_zero_syndromes_trivial_locator(gf: GaloisField, s: Seq<u8>, n: nat)
    requires
        forall|i: int| 0 <= i < n ==> s[i] == 0,
    ensures
        lfsr_run(gf, s, n) == (Lfsr { m: n as int + 1, ..lfsr_start() }),
        lfsr_run(gf, s, n).c == unit_poly(),
    decreases n,
{
    if n > 0 {
        lemma_zero_syndromes_trivial_locator(gf, s, (n - 1) as nat);
    }
}

} // verus!
