//! A format word of the code with one, two or three wrong bits is set right
//! by the correction.
//!
//! The wrong bits give syndromes that are sums of powers of field elements.
//! From such syndromes the algorithm builds a locator whose roots are the
//! wrong bits and no others, so that flipping the bits at the roots gives
//! the word back.

use crate::decode::bch::{lemma_field16, lemma_next, lemma_tables16, lemma_trace_start, trace_start, Cubic, Trace};
use crate::decode::berlekamp::{lfsr_run, lfsr_step};
use crate::decode::field16::{
    d16, e16, l16, lemma_exp_log, lemma_exp_product, lemma_fourth_step, lemma_one_error, lemma_roots_one,
    lemma_roots_three, lemma_roots_three_even, lemma_roots_two, lemma_second_step, lemma_sixth_step,
    lemma_sixth_step_even, lemma_sums_nonzero, lemma_two_errors, lemma_units16, m16, power_sums, powers, sc16,
};
use crate::decode::format::{
    flip_roots, format_candidate, format_sum, format_syndrome, format_valid, lemma_damage_syndromes,
    lemma_format_sum_linear, lemma_valid_format_kept, spec_correct_format, spec_format_syndromes, word_bit,
};
use crate::decode::galois::{lemma_xor_zero, spec_gf16, GF16_EXP};
use crate::decode::polynomial::{eval_sum, spec_poly_eval};
use vstd::arithmetic::div_mod::lemma_add_mod_noop;
use vstd::prelude::*;

verus! {

/// Whether `p` is a position of the format word.
pub open spec fn present(p: int) -> bool {
    0 <= p < 15
}

/// Whether `i`, `j` and `k` name one, two or three different bits of the
/// format word. A position outside the word names no bit; such positions
/// come last.
pub open spec fn wrong_bits(i: int, j: int, k: int) -> bool {
    &&& present(i)
    &&& present(j) ==> j != i
    &&& present(k) ==> present(j) && k != i && k != j
}

/// The word with bit `p` alone, if `p` is below `n`, and the empty word
/// otherwise.
pub open spec fn below(p: int, n: int) -> u16 {
    if 0 <= p < n && p < 15 {
        1u16 << p
    } else {
        0
    }
}

/// The word with bit `p` alone, or the empty word for a position outside
/// the word.
pub open spec fn flip(p: int) -> u16 {
    below(p, 15)
}

/// The word with the bits `i`, `j` and `k`.
pub open spec fn damage(i: int, j: int, k: int) -> u16 {
    (flip(i) ^ flip(j)) ^ flip(k)
}

/// Power `m` of the field element that stands for bit `p`: the generator
/// to the power `m * p`.
#[verifier::opaque]
pub open spec fn el_pow(p: int, m: int) -> u8 {
    if present(p) {
        e16(((m * p) % 15) as u8)
    } else {
        0
    }
}

/// The field elements that stand for three bits with their first six
/// powers, and the sums of these powers.
pub struct Sums {
    pub x: u8,
    pub x2: u8,
    pub x3: u8,
    pub x4: u8,
    pub x5: u8,
    pub x6: u8,
    pub y: u8,
    pub y2: u8,
    pub y3: u8,
    pub y4: u8,
    pub y5: u8,
    pub y6: u8,
    pub z: u8,
    pub z2: u8,
    pub z3: u8,
    pub z4: u8,
    pub z5: u8,
    pub z6: u8,
    pub s1: u8,
    pub s2: u8,
    pub s3: u8,
    pub s4: u8,
    pub s5: u8,
    pub s6: u8,
}

/// The polynomial `1 + c1 x + c2 x^2 + c3 x^3`.
pub open spec fn cubic(c1: u8, c2: u8, c3: u8) -> Cubic {
    Cubic { c0: 1, c1: c1, c2: c2, c3: c3 }
}

impl Sums {
    /// Whether the elements stand for one, two or three different bits, the
    /// powers are their powers and the sums are the sums.
    pub open spec fn holds(self) -> bool {
        power_sums(
            self.x,
            self.x2,
            self.x3,
            self.x4,
            self.x5,
            self.x6,
            self.y,
            self.y2,
            self.y3,
            self.y4,
            self.y5,
            self.y6,
            self.z,
            self.z2,
            self.z3,
            self.z4,
            self.z5,
            self.z6,
            self.s1,
            self.s2,
            self.s3,
            self.s4,
            self.s5,
            self.s6,
        )
    }

    /// Whether the first six entries of `s` are the sums.
    pub open spec fn heads(self, s: Seq<u8>) -> bool {
        &&& s.len() >= 6
        &&& s[0] == self.s1
        &&& s[1] == self.s2
        &&& s[2] == self.s3
        &&& s[3] == self.s4
        &&& s[4] == self.s5
        &&& s[5] == self.s6
    }

    /// What the locator of degree one leaves of the third sum.
    pub open spec fn d2(self) -> u8 {
        self.s3 ^ m16(self.s1, self.s2)
    }

    /// The third coefficient of the locator of degree two.
    pub open spec fn c2(self) -> u8 {
        d16(self.d2(), self.s1)
    }

    /// What the locator of degree two leaves of the fifth sum.
    pub open spec fn d4(self) -> u8 {
        (self.s5 ^ m16(self.s1, self.s4)) ^ m16(self.c2(), self.s3)
    }

    /// The factor by which the locator of degree two is corrected.
    pub open spec fn mu(self) -> u8 {
        d16(self.d4(), self.d2())
    }

    /// The third coefficient of the locator of degree three.
    pub open spec fn e2(self) -> u8 {
        self.c2() ^ m16(1, self.mu())
    }

    /// The fourth coefficient of the locator of degree three.
    pub open spec fn e3(self) -> u8 {
        0 ^ m16(self.s1, self.mu())
    }

    /// The locator that the algorithm reaches from the sums.
    pub open spec fn locator(self) -> Cubic {
        if self.s1 == 0 {
            cubic(0, d16(self.s5, self.s3), self.s3)
        } else if self.d2() == 0 {
            cubic(self.s1, 0, 0)
        } else if self.d4() == 0 {
            cubic(self.s1, self.c2(), 0)
        } else {
            cubic(self.s1, self.e2(), self.e3())
        }
    }
}

/// The sums of the powers of the elements for the bits `i`, `j` and `k`.
pub open spec fn sums_of(i: int, j: int, k: int) -> Sums {
    Sums {
        x: el_pow(i, 1),
        x2: el_pow(i, 2),
        x3: el_pow(i, 3),
        x4: el_pow(i, 4),
        x5: el_pow(i, 5),
        x6: el_pow(i, 6),
        y: el_pow(j, 1),
        y2: el_pow(j, 2),
        y3: el_pow(j, 3),
        y4: el_pow(j, 4),
        y5: el_pow(j, 5),
        y6: el_pow(j, 6),
        z: el_pow(k, 1),
        z2: el_pow(k, 2),
        z3: el_pow(k, 3),
        z4: el_pow(k, 4),
        z5: el_pow(k, 5),
        z6: el_pow(k, 6),
        s1: (el_pow(i, 1) ^ el_pow(j, 1)) ^ el_pow(k, 1),
        s2: (el_pow(i, 2) ^ el_pow(j, 2)) ^ el_pow(k, 2),
        s3: (el_pow(i, 3) ^ el_pow(j, 3)) ^ el_pow(k, 3),
        s4: (el_pow(i, 4) ^ el_pow(j, 4)) ^ el_pow(k, 4),
        s5: (el_pow(i, 5) ^ el_pow(j, 5)) ^ el_pow(k, 5),
        s6: (el_pow(i, 6) ^ el_pow(j, 6)) ^ el_pow(k, 6),
    }
}

/// Whether the locator `sigma` has a root for bit `r`.
pub open spec fn root_at(sigma: Seq<u8>, r: int) -> bool {
    spec_poly_eval(spec_gf16(), sigma, GF16_EXP[15 - r]) == 0
}

/// The next power of the element for bit `p` is the power times the
/// element.
proof fn lemma_el_pow_next(p: int, m: int)
    requires
        1 <= m <= 5,
    ensures
        el_pow(p, m + 1) == m16(el_pow(p, m), el_pow(p, 1)),
        el_pow(p, m) < 16,
        present(p) ==> el_pow(p, m) != 0,
        !present(p) ==> el_pow(p, m) == 0,
{
    reveal(el_pow);
    if present(p) {
        let a = ((m * p) % 15) as u8;
        let b = p as u8;
        assert(m * p + p == (m + 1) * p) by (nonlinear_arith);
        assert(0 <= m * p <= 75) by (nonlinear_arith)
            requires
                1 <= m <= 5,
                0 <= p < 15,
        ;
        assert((1 * p) % 15 == p);
        lemma_exp_product(a, b, e16(a), e16(b));
        assert((a + b) % 15 == ((m + 1) * p) % 15);
    } else {
        lemma_units16(0, 0, 1);
    }
}

/// The elements for different bits differ.
proof fn lemma_el_differ(p: int, q: int)
    requires
        present(p),
        present(q),
    ensures
        (el_pow(p, 1) == el_pow(q, 1)) == (p == q),
        0 < el_pow(p, 1) < 16,
{
    reveal(el_pow);
    lemma_exp_product(p as u8, q as u8, e16(p as u8), e16(q as u8));
}

/// The powers of the element for bit `p` are its powers.
proof fn lemma_powers_hold(p: int)
    ensures
        powers(el_pow(p, 1), el_pow(p, 2), el_pow(p, 3), el_pow(p, 4), el_pow(p, 5), el_pow(p, 6)),
        el_pow(p, 1) < 16,
        present(p) == (el_pow(p, 1) != 0),
{
    lemma_el_pow_next(p, 1);
    lemma_el_pow_next(p, 2);
    lemma_el_pow_next(p, 3);
    lemma_el_pow_next(p, 4);
    lemma_el_pow_next(p, 5);
}

/// The sums of powers for one, two or three different bits are such sums.
pub proof fn lemma_sums_hold(i: int, j: int, k: int)
    requires
        wrong_bits(i, j, k),
    ensures
        sums_of(i, j, k).holds(),
{
    lemma_powers_hold(i);
    lemma_powers_hold(j);
    lemma_powers_hold(k);
    if present(j) {
        lemma_el_differ(i, j);
    }
    if present(k) {
        lemma_el_differ(i, k);
        lemma_el_differ(j, k);
    }
}

/// The sum of a word with one bit is the power of the generator for that
/// bit, once the bit is counted.
proof fn lemma_flip_sum(p: int, i: int, n: int)
    requires
        0 <= n <= 15,
        0 <= i,
    ensures
        format_sum(flip(p), i, n) == if present(p) && p < n {
            GF16_EXP[((i + 1) * p) % 15]
        } else {
            0
        },
    decreases n,
{
    if n > 0 {
        lemma_flip_sum(p, i, n - 1);
        let q = (n - 1) as u16;
        if present(p) {
            let pp = p as u16;
            assert(pp < 15 && q < 15 ==> (((1u16 << pp) & (1u16 << q) != 0) == (pp == q))) by (bit_vector);
            assert(word_bit(flip(p), n - 1) == (p == n - 1));
            if p == n - 1 {
                lemma_xor_zero(GF16_EXP[((i + 1) * p) % 15]);
            }
        } else {
            assert(0u16 & (1u16 << q) == 0) by (bit_vector);
        }
    }
}

/// The syndromes of a word of the code with the bits `i`, `j` and `k`
/// flipped are the sums of the powers of the elements for these bits.
pub proof fn lemma_damaged_syndromes(word: u16, i: int, j: int, k: int)
    requires
        format_valid(word),
        wrong_bits(i, j, k),
    ensures
        sums_of(i, j, k).heads(spec_format_syndromes(word ^ damage(i, j, k))),
{
    let w = sums_of(i, j, k);
    let s = spec_format_syndromes(word ^ damage(i, j, k));
    assert forall|m: int| 0 <= m < 6 implies #[trigger] s[m] == (el_pow(i, m + 1) ^ el_pow(j, m + 1)) ^ el_pow(
        k,
        m + 1,
    ) by {
        reveal(el_pow);
        lemma_damage_syndromes(word, damage(i, j, k), m);
        lemma_format_sum_linear(flip(i) ^ flip(j), flip(k), m, 15);
        lemma_format_sum_linear(flip(i), flip(j), m, 15);
        lemma_flip_sum(i, m, 15);
        lemma_flip_sum(j, m, 15);
        lemma_flip_sum(k, m, 15);
        if present(i) {
            assert(0 <= (m + 1) * i) by (nonlinear_arith)
                requires
                    0 <= m,
                    0 <= i,
            ;
            lemma_tables16((((m + 1) * i) % 15) as u8);
        }
        if present(j) {
            assert(0 <= (m + 1) * j) by (nonlinear_arith)
                requires
                    0 <= m,
                    0 <= j,
            ;
            lemma_tables16((((m + 1) * j) % 15) as u8);
        }
        if present(k) {
            assert(0 <= (m + 1) * k) by (nonlinear_arith)
                requires
                    0 <= m,
                    0 <= k,
            ;
            lemma_tables16((((m + 1) * k) % 15) as u8);
        }
    }
    assert(s[0] == w.s1);
    assert(s[1] == w.s2);
    assert(s[2] == w.s3);
    assert(s[3] == w.s4);
    assert(s[4] == w.s5);
    assert(s[5] == w.s6);
}

/// The sums are elements of the field, and the first or the third is not
/// zero. If the first is zero, so are the second and the fourth.
proof fn lemma_sums_small(w: Sums)
    requires
        w.holds(),
    ensures
        w.s1 < 16 && w.s2 < 16 && w.s3 < 16 && w.s4 < 16 && w.s5 < 16 && w.s6 < 16,
        w.s1 != 0 || w.s3 != 0,
        w.s1 == 0 ==> w.s2 == 0 && w.s4 == 0,
        w.locator().small(),
        w.locator().c0 == 1,
{
    lemma_sums_nonzero(
        w.x, w.x2, w.x3, w.x4, w.x5, w.x6,
        w.y, w.y2, w.y3, w.y4, w.y5, w.y6,
        w.z, w.z2, w.z3, w.z4, w.z5, w.z6,
        w.s1, w.s2, w.s3, w.s4, w.s5, w.s6,
    );
    lemma_field16(w.s5, w.s3);
    lemma_field16(w.s1, w.s2);
    if w.s1 != 0 && w.d2() != 0 {
        lemma_fourth_step(
            w.x, w.x2, w.x3, w.x4, w.x5, w.x6,
            w.y, w.y2, w.y3, w.y4, w.y5, w.y6,
            w.z, w.z2, w.z3, w.z4, w.z5, w.z6,
            w.s1, w.s2, w.s3, w.s4, w.s5, w.s6,
            w.d2(), w.c2(),
        );
        if w.d4() != 0 {
            lemma_sixth_step(
                w.x, w.x2, w.x3, w.x4, w.x5, w.x6,
                w.y, w.y2, w.y3, w.y4, w.y5, w.y6,
                w.z, w.z2, w.z3, w.z4, w.z5, w.z6,
                w.s1, w.s2, w.s3, w.s4, w.s5, w.s6,
                w.d2(), w.c2(), w.d4(), w.mu(), w.e2(), w.e3(), 0, 1,
            );
        }
    }
}

/// What the locators leave of the sums, in each of the courses that the
/// algorithm can take.
proof fn lemma_steps(w: Sums)
    requires
        w.holds(),
    ensures
        w.s1 != 0 ==> w.s2 ^ m16(w.s1, w.s1) == 0,
        w.s1 != 0 && w.d2() == 0 ==> w.s4 ^ m16(w.s1, w.s3) == 0 && w.s5 ^ m16(w.s1, w.s4) == 0 && w.s6 ^ m16(
            w.s1,
            w.s5,
        ) == 0,
        w.s1 != 0 && w.d2() != 0 ==> (w.s4 ^ m16(w.s1, w.s3)) ^ m16(w.c2(), w.s2) == 0 && w.c2() < 16,
        w.s1 != 0 && w.d2() != 0 && w.d4() == 0 ==> (w.s6 ^ m16(w.s1, w.s5)) ^ m16(w.c2(), w.s4) == 0,
        w.s1 != 0 && w.d2() != 0 && w.d4() != 0 ==> ((w.s6 ^ m16(w.s1, w.s5)) ^ m16(w.e2(), w.s4)) ^ m16(
            w.e3(),
            w.s3,
        ) == 0 && w.mu() < 16,
        w.s1 == 0 ==> w.s6 ^ m16(w.s3, w.s3) == 0,
{
    if w.s1 != 0 {
        lemma_second_step(
            w.x, w.x2, w.x3, w.x4, w.x5, w.x6,
            w.y, w.y2, w.y3, w.y4, w.y5, w.y6,
            w.z, w.z2, w.z3, w.z4, w.z5, w.z6,
            w.s1, w.s2, w.s3, w.s4, w.s5, w.s6,
        );
        if w.d2() == 0 {
            lemma_one_error(
                w.x, w.x2, w.x3, w.x4, w.x5, w.x6,
                w.y, w.y2, w.y3, w.y4, w.y5, w.y6,
                w.z, w.z2, w.z3, w.z4, w.z5, w.z6,
                w.s1, w.s2, w.s3, w.s4, w.s5, w.s6,
            );
        } else {
            lemma_fourth_step(
                w.x, w.x2, w.x3, w.x4, w.x5, w.x6,
                w.y, w.y2, w.y3, w.y4, w.y5, w.y6,
                w.z, w.z2, w.z3, w.z4, w.z5, w.z6,
                w.s1, w.s2, w.s3, w.s4, w.s5, w.s6,
                w.d2(), w.c2(),
            );
            if w.d4() == 0 {
                lemma_two_errors(
                    w.x, w.x2, w.x3, w.x4, w.x5, w.x6,
                    w.y, w.y2, w.y3, w.y4, w.y5, w.y6,
                    w.z, w.z2, w.z3, w.z4, w.z5, w.z6,
                    w.s1, w.s2, w.s3, w.s4, w.s5, w.s6,
                    w.d2(), w.c2(),
                );
            } else {
                lemma_sixth_step(
                    w.x, w.x2, w.x3, w.x4, w.x5, w.x6,
                    w.y, w.y2, w.y3, w.y4, w.y5, w.y6,
                    w.z, w.z2, w.z3, w.z4, w.z5, w.z6,
                    w.s1, w.s2, w.s3, w.s4, w.s5, w.s6,
                    w.d2(), w.c2(), w.d4(), w.mu(), w.e2(), w.e3(), 0, 1,
                );
            }
        }
    } else {
        lemma_sixth_step_even(
            w.x, w.x2, w.x3, w.x4, w.x5, w.x6,
            w.y, w.y2, w.y3, w.y4, w.y5, w.y6,
            w.z, w.z2, w.z3, w.z4, w.z5, w.z6,
            w.s1, w.s2, w.s3, w.s4, w.s5, w.s6,
        );
    }
}

/// The locator vanishes at `u` exactly if `u` is the inverse of one of
/// the elements.
proof fn lemma_locator_roots(w: Sums, u: u8, u2: u8, u3: u8, ev: u8)
    requires
        w.holds(),
        0 < u < 16,
        u2 == m16(u, u),
        u3 == m16(u2, u),
        ev == (((0u8 ^ 1u8) ^ m16(w.locator().c1, u)) ^ m16(w.locator().c2, u2)) ^ m16(w.locator().c3, u3),
    ensures
        (ev == 0) <==> (m16(u, w.x) == 1 || m16(u, w.y) == 1 || m16(u, w.z) == 1),
{
    if w.s1 == 0 {
        lemma_roots_three_even(
            w.x, w.x2, w.x3, w.x4, w.x5, w.x6,
            w.y, w.y2, w.y3, w.y4, w.y5, w.y6,
            w.z, w.z2, w.z3, w.z4, w.z5, w.z6,
            w.s1, w.s2, w.s3, w.s4, w.s5, w.s6,
            d16(w.s5, w.s3), 0, 1, u, u2, u3, ev,
        );
    } else if w.d2() == 0 {
        lemma_roots_one(
            w.x, w.x2, w.x3, w.x4, w.x5, w.x6,
            w.y, w.y2, w.y3, w.y4, w.y5, w.y6,
            w.z, w.z2, w.z3, w.z4, w.z5, w.z6,
            w.s1, w.s2, w.s3, w.s4, w.s5, w.s6,
            0, 1, u, u2, u3, ev,
        );
    } else if w.d4() == 0 {
        lemma_roots_two(
            w.x, w.x2, w.x3, w.x4, w.x5, w.x6,
            w.y, w.y2, w.y3, w.y4, w.y5, w.y6,
            w.z, w.z2, w.z3, w.z4, w.z5, w.z6,
            w.s1, w.s2, w.s3, w.s4, w.s5, w.s6,
            w.d2(), w.c2(), 0, 1, u, u2, u3, ev,
        );
    } else {
        lemma_roots_three(
            w.x, w.x2, w.x3, w.x4, w.x5, w.x6,
            w.y, w.y2, w.y3, w.y4, w.y5, w.y6,
            w.z, w.z2, w.z3, w.z4, w.z5, w.z6,
            w.s1, w.s2, w.s3, w.s4, w.s5, w.s6,
            w.d2(), w.c2(), w.d4(), w.mu(), w.e2(), w.e3(), 0, 1, u, u2, u3, ev,
        );
    }
}

/// The state of the algorithm with the locator `c`.
pub open spec fn trace(c: Cubic, b: Cubic, l: int, m: int, d: u8) -> Trace {
    Trace { c: c, b: b, l: l, m: m, d: d }
}

/// Whether the algorithm is in the state `t` after the first `n` entries
/// of `s`.
pub open spec fn reaches(s: Seq<u8>, n: nat, t: Trace) -> bool {
    lfsr_run(spec_gf16(), s, n) == t.state() && t.sound(n as int)
}

/// One more step of the algorithm.
proof fn lemma_run_next(t: Trace, s: Seq<u8>, n: nat)
    requires
        reaches(s, n, t),
        n < 6 <= s.len(),
        forall|i: int| 0 <= i < 6 ==> #[trigger] s[i] < 16,
        t.disc(s, n as int) != 0 ==> t.b.fits(t.m) && n + 1 - t.l <= 3,
    ensures
        reaches(s, n + 1, t.next(s, n as int)),
{
    lemma_next(t, s, n as int);
    assert(lfsr_run(spec_gf16(), s, n + 1) == lfsr_step(spec_gf16(), s, lfsr_run(spec_gf16(), s, n), n as int));
}

/// The first two steps for a first sum other than zero.
proof fn lemma_run_odd(w: Sums, s: Seq<u8>)
    requires
        w.holds(),
        w.heads(s),
        w.s1 != 0,
    ensures
        reaches(s, 2, trace(cubic(w.s1, 0, 0), cubic(0, 0, 0), 1, 2, w.s1)),
{
    lemma_sums_small(w);
    lemma_steps(w);
    lemma_trace_start();
    lemma_units16(w.s1, 0, 1);
    lemma_units16(0, 0, 1);
    let t0 = trace_start();
    assert(t0.disc(s, 0) == w.s1);
    lemma_run_next(t0, s, 0);
    let t1 = trace(cubic(w.s1, 0, 0), cubic(0, 0, 0), 1, 1, w.s1);
    assert(t0.next(s, 0) == t1);
    assert(t1.disc(s, 1) == 0);
    lemma_run_next(t1, s, 1);
    assert(t1.next(s, 1) == trace(cubic(w.s1, 0, 0), cubic(0, 0, 0), 1, 2, w.s1));
}

/// The run for one wrong bit.
proof fn lemma_run_one(w: Sums, s: Seq<u8>)
    requires
        w.holds(),
        w.heads(s),
        w.s1 != 0,
        w.d2() == 0,
    ensures
        lfsr_run(spec_gf16(), s, 6).c == w.locator().poly(),
{
    lemma_sums_small(w);
    lemma_steps(w);
    lemma_run_odd(w, s);
    let c = cubic(w.s1, 0, 0);
    let b = cubic(0, 0, 0);
    let t2 = trace(c, b, 1, 2, w.s1);
    assert(t2.disc(s, 2) == 0);
    lemma_run_next(t2, s, 2);
    let t3 = trace(c, b, 1, 3, w.s1);
    assert(t2.next(s, 2) == t3);
    assert(t3.disc(s, 3) == 0);
    lemma_run_next(t3, s, 3);
    let t4 = trace(c, b, 1, 4, w.s1);
    assert(t3.next(s, 3) == t4);
    assert(t4.disc(s, 4) == 0);
    lemma_run_next(t4, s, 4);
    let t5 = trace(c, b, 1, 5, w.s1);
    assert(t4.next(s, 4) == t5);
    assert(t5.disc(s, 5) == 0);
    lemma_run_next(t5, s, 5);
    assert(t5.next(s, 5) == trace(c, b, 1, 6, w.s1));
}

/// The third and fourth steps for two or three wrong bits whose elements
/// do not add up to zero.
proof fn lemma_run_more(w: Sums, s: Seq<u8>)
    requires
        w.holds(),
        w.heads(s),
        w.s1 != 0,
        w.d2() != 0,
    ensures
        reaches(s, 4, trace(cubic(w.s1, w.c2(), 0), cubic(w.s1, 0, 0), 2, 2, w.d2())),
{
    lemma_sums_small(w);
    lemma_steps(w);
    lemma_run_odd(w, s);
    lemma_units16(w.c2(), 0, 1);
    lemma_units16(0, 0, 1);
    let t2 = trace(cubic(w.s1, 0, 0), cubic(0, 0, 0), 1, 2, w.s1);
    assert(t2.disc(s, 2) == w.d2());
    lemma_run_next(t2, s, 2);
    let t3 = trace(cubic(w.s1, w.c2(), 0), cubic(w.s1, 0, 0), 2, 1, w.d2());
    assert(t2.next(s, 2) == t3);
    assert(t3.disc(s, 3) == 0);
    lemma_run_next(t3, s, 3);
    assert(t3.next(s, 3) == trace(cubic(w.s1, w.c2(), 0), cubic(w.s1, 0, 0), 2, 2, w.d2()));
}

/// The run for two wrong bits.
proof fn lemma_run_two(w: Sums, s: Seq<u8>)
    requires
        w.holds(),
        w.heads(s),
        w.s1 != 0,
        w.d2() != 0,
        w.d4() == 0,
    ensures
        lfsr_run(spec_gf16(), s, 6).c == w.locator().poly(),
{
    lemma_sums_small(w);
    lemma_steps(w);
    lemma_run_more(w, s);
    let c = cubic(w.s1, w.c2(), 0);
    let b = cubic(w.s1, 0, 0);
    let t4 = trace(c, b, 2, 2, w.d2());
    assert(t4.disc(s, 4) == 0);
    lemma_run_next(t4, s, 4);
    let t5 = trace(c, b, 2, 3, w.d2());
    assert(t4.next(s, 4) == t5);
    assert(t5.disc(s, 5) == 0);
    lemma_run_next(t5, s, 5);
    assert(t5.next(s, 5) == trace(c, b, 2, 4, w.d2()));
}

/// The run for three wrong bits whose elements do not add up to zero.
proof fn lemma_run_three(w: Sums, s: Seq<u8>)
    requires
        w.holds(),
        w.heads(s),
        w.s1 != 0,
        w.d2() != 0,
        w.d4() != 0,
    ensures
        lfsr_run(spec_gf16(), s, 6).c == w.locator().poly(),
{
    lemma_sums_small(w);
    lemma_steps(w);
    lemma_run_more(w, s);
    let c = cubic(w.s1, w.c2(), 0);
    let b = cubic(w.s1, 0, 0);
    let t4 = trace(c, b, 2, 2, w.d2());
    assert(t4.disc(s, 4) == w.d4());
    lemma_run_next(t4, s, 4);
    let t5 = trace(cubic(w.s1, w.e2(), w.e3()), c, 3, 1, w.d4());
    assert(t4.next(s, 4) == t5);
    assert(t5.disc(s, 5) == 0);
    lemma_run_next(t5, s, 5);
    assert(t5.next(s, 5) == trace(cubic(w.s1, w.e2(), w.e3()), c, 3, 2, w.d4()));
}

/// The run for three wrong bits whose elements add up to zero.
proof fn lemma_run_even(w: Sums, s: Seq<u8>)
    requires
        w.holds(),
        w.heads(s),
        w.s1 == 0,
    ensures
        lfsr_run(spec_gf16(), s, 6).c == w.locator().poly(),
{
    lemma_sums_small(w);
    lemma_steps(w);
    lemma_trace_start();
    let mu = d16(w.s5, w.s3);
    lemma_field16(w.s5, w.s3);
    lemma_units16(0, 0, 1);
    lemma_units16(w.s3, 0, 1);
    lemma_units16(w.s5, 0, 1);
    lemma_units16(w.s6, 0, 1);
    lemma_units16(mu, 0, 1);
    let unit = cubic(0, 0, 0);
    let t0 = trace_start();
    assert(t0.disc(s, 0) == 0);
    lemma_run_next(t0, s, 0);
    let t1 = trace(unit, unit, 0, 2, 1);
    assert(t0.next(s, 0) == t1);
    assert(t1.disc(s, 1) == 0);
    lemma_run_next(t1, s, 1);
    let t2 = trace(unit, unit, 0, 3, 1);
    assert(t1.next(s, 1) == t2);
    assert(t2.disc(s, 2) == w.s3);
    lemma_run_next(t2, s, 2);
    let c = cubic(0, 0, w.s3);
    let t3 = trace(c, unit, 3, 1, w.s3);
    assert(t2.next(s, 2) == t3);
    assert(t3.disc(s, 3) == 0);
    lemma_run_next(t3, s, 3);
    let t4 = trace(c, unit, 3, 2, w.s3);
    assert(t3.next(s, 3) == t4);
    assert(t4.disc(s, 4) == w.s5);
    lemma_run_next(t4, s, 4);
    let t5 = trace(cubic(0, mu, w.s3), unit, 3, 3, w.s3);
    assert(t4.next(s, 4) == t5);
    assert(t5.disc(s, 5) == 0);
    lemma_run_next(t5, s, 5);
    assert(t5.next(s, 5) == trace(cubic(0, mu, w.s3), unit, 3, 4, w.s3));
}

/// From the sums of the powers of one, two or three elements the
/// algorithm reaches the locator of these elements.
pub proof fn lemma_locator_found(w: Sums, s: Seq<u8>)
    requires
        w.holds(),
        w.heads(s),
    ensures
        lfsr_run(spec_gf16(), s, 6).c == w.locator().poly(),
{
    if w.s1 == 0 {
        lemma_run_even(w, s);
    } else if w.d2() == 0 {
        lemma_run_one(w, s);
    } else if w.d4() == 0 {
        lemma_run_two(w, s);
    } else {
        lemma_run_three(w, s);
    }
}

/// The terms of a cubic after the fourth are zero.
proof fn lemma_eval_tail(c: Cubic, x: u8, n: int)
    requires
        4 <= n <= 64,
    ensures
        eval_sum(spec_gf16(), c.poly(), x, n) == eval_sum(spec_gf16(), c.poly(), x, 4),
    decreases n,
{
    if n > 4 {
        lemma_eval_tail(c, x, n - 1);
        assert(c.poly()[n - 1] == 0);
        lemma_xor_zero(eval_sum(spec_gf16(), c.poly(), x, n - 1));
    }
}

/// Multiplying by the generator raised to the power `e` is multiplying
/// by that power.
proof fn lemma_scale_by(c: u8, e: int, g: u8, v: u8)
    requires
        0 < c < 16,
        0 <= e <= 240,
        g < 15,
        e % 15 == g,
        v == e16(g),
    ensures
        sc16(c, e as u8) == m16(c, v),
{
    reveal(sc16);
    let lc = l16(c);
    lemma_exp_log(c, lc);
    lemma_units16(0, 0, 1);
    let a = (lc % 15) as u8;
    assert(e16(a) == c);
    lemma_exp_product(a, g, c, v);
    lemma_add_mod_noop(lc as int, e, 15);
    assert((lc + e) % 15 == (a + g) % 15);
}

/// Multiplying by the generator raised to the logarithm of `u`, to twice
/// or to three times the logarithm is multiplying by `u`, by its square or
/// by its cube.
proof fn lemma_scales(c: u8, u: u8)
    requires
        c < 16,
        0 < u < 16,
    ensures
        sc16(c, l16(u)) == m16(c, u),
        sc16(c, (l16(u) * 2) as u8) == m16(c, m16(u, u)),
        sc16(c, (l16(u) * 3) as u8) == m16(c, m16(m16(u, u), u)),
{
    let u2 = m16(u, u);
    let u3 = m16(u2, u);
    lemma_field16(u, u);
    lemma_field16(u2, u);
    if c == 0 {
        reveal(sc16);
        lemma_units16(u, 0, 1);
        lemma_units16(u2, 0, 1);
        lemma_units16(u3, 0, 1);
    } else {
        let lg = l16(u);
        lemma_exp_log(u, lg);
        lemma_units16(0, 0, 1);
        let g = (lg % 15) as u8;
        assert(e16(g) == u);
        let g2 = ((g + g) % 15) as u8;
        let g3 = ((g2 + g) % 15) as u8;
        lemma_exp_product(g, g, u, u);
        lemma_exp_product(g2, g, u2, u);
        lemma_add_mod_noop(lg as int, lg as int, 15);
        lemma_add_mod_noop(lg + lg, lg as int, 15);
        assert((lg * 2) % 15 == g2);
        assert((lg * 3) % 15 == g3);
        lemma_scale_by(c, lg as int, g, u);
        lemma_scale_by(c, lg * 2, g2, u2);
        lemma_scale_by(c, lg * 3, g3, u3);
    }
}

/// The value of a cubic with the constant term 1 at the point that
/// stands for bit `r`.
proof fn lemma_eval_cubic(c: Cubic, r: int)
    requires
        c.small(),
        c.c0 == 1,
        0 <= r < 15,
    ensures
        ({
            let u = e16((15 - r) as u8);
            let u2 = m16(u, u);
            let u3 = m16(u2, u);
            &&& 0 < u < 16
            &&& spec_poly_eval(spec_gf16(), c.poly(), GF16_EXP[15 - r]) == (((0u8 ^ 1u8) ^ m16(c.c1, u)) ^ m16(
                c.c2,
                u2,
            )) ^ m16(c.c3, u3)
        }),
{
    let gf = spec_gf16();
    let u = e16((15 - r) as u8);
    let u2 = m16(u, u);
    let u3 = m16(u2, u);
    let lg = l16(u) as int;
    lemma_tables16((15 - r) as u8);
    lemma_tables16(u);
    lemma_eval_tail(c, u, 64);
    lemma_field16(c.c0, 0);
    lemma_field16(c.c1, 0);
    lemma_field16(c.c2, 0);
    lemma_field16(c.c3, 0);
    lemma_field16(u, u);
    let p = c.poly();
    assert(p[0] == 1 && p[1] == c.c1 && p[2] == c.c2 && p[3] == c.c3);
    lemma_units16(0, 0, 1);
    assert(gf.scale(1, lg * 0) == 1);
    lemma_scales(c.c1, u);
    lemma_scales(c.c2, u);
    lemma_scales(c.c3, u);
    assert(gf.scale(c.c1, lg * 1) == m16(c.c1, u));
    assert(gf.scale(c.c2, lg * 2) == m16(c.c2, u2));
    assert(gf.scale(c.c3, lg * 3) == m16(c.c3, u3));
    assert(eval_sum(gf, p, u, 4) == (((0u8 ^ 1u8) ^ m16(c.c1, u)) ^ m16(c.c2, u2)) ^ m16(c.c3, u3)) by {
        reveal_with_fuel(eval_sum, 5);
    }
}

/// The point for bit `r` is the inverse of the element for bit `p`
/// exactly if `p` is `r`.
proof fn lemma_inverse_bit(r: int, p: int)
    requires
        0 <= r < 15,
    ensures
        (m16(e16((15 - r) as u8), el_pow(p, 1)) == 1) == (p == r),
{
    reveal(el_pow);
    let u = e16((15 - r) as u8);
    if present(p) {
        let a = ((15 - r) % 15) as u8;
        let b = p as u8;
        lemma_tables16(1);
        lemma_exp_log(1, l16(1));
        lemma_units16(0, 0, 1);
        assert(u == e16(a));
        lemma_exp_product(a, b, e16(a), e16(b));
        let t = ((a + b) % 15) as u8;
        lemma_exp_product(t, 0, e16(t), e16(0));
    } else {
        lemma_tables16((15 - r) as u8);
        lemma_units16(u, 0, 1);
    }
}

/// The locator for the bits `i`, `j` and `k` has its roots at these bits
/// and nowhere else.
pub proof fn lemma_roots_are_bits(i: int, j: int, k: int, r: int)
    requires
        wrong_bits(i, j, k),
        0 <= r < 15,
    ensures
        root_at(sums_of(i, j, k).locator().poly(), r) == (r == i || r == j || r == k),
{
    let w = sums_of(i, j, k);
    let u = e16((15 - r) as u8);
    let u2 = m16(u, u);
    let u3 = m16(u2, u);
    lemma_sums_hold(i, j, k);
    lemma_sums_small(w);
    lemma_eval_cubic(w.locator(), r);
    let ev = spec_poly_eval(spec_gf16(), w.locator().poly(), GF16_EXP[15 - r]);
    lemma_locator_roots(w, u, u2, u3, ev);
    lemma_inverse_bit(r, i);
    lemma_inverse_bit(r, j);
    lemma_inverse_bit(r, k);
}

/// Flipping the bits at the roots of a locator whose roots are the bits
/// `i`, `j` and `k` flips these bits.
proof fn lemma_flip_roots(sigma: Seq<u8>, u: u16, i: int, j: int, k: int, n: int)
    requires
        wrong_bits(i, j, k),
        0 <= n <= 15,
        forall|r: int| 0 <= r < 15 ==> #[trigger] root_at(sigma, r) == (r == i || r == j || r == k),
    ensures
        flip_roots(sigma, u, n) == ((u ^ below(i, n)) ^ below(j, n)) ^ below(k, n),
    decreases n,
{
    if n > 0 {
        lemma_flip_roots(sigma, u, i, j, k, n - 1);
        let r = n - 1;
        let a = below(i, n - 1);
        let b = below(j, n - 1);
        let c = below(k, n - 1);
        let t = 1u16 << r;
        assert(root_at(sigma, r) == (r == i || r == j || r == k));
        assert((((u ^ 0) ^ b) ^ c) ^ t == ((u ^ t) ^ b) ^ c && (((u ^ a) ^ 0) ^ c) ^ t == ((u ^ a) ^ t) ^ c && (((u
            ^ a) ^ b) ^ 0) ^ t == ((u ^ a) ^ b) ^ t) by (bit_vector);
    } else {
        assert(((u ^ 0) ^ 0) ^ 0 == u) by (bit_vector);
    }
}

/// A word of the code with one, two or three wrong bits is set right:
/// the correction gives the word of the code back.
pub proof fn lemma_wrong_bits_corrected(word: u16, i: int, j: int, k: int)
    requires
        format_valid(word),
        wrong_bits(i, j, k),
    ensures
        spec_correct_format(word ^ damage(i, j, k)) == Some(word),
{
    let w = sums_of(i, j, k);
    let u = word ^ damage(i, j, k);
    let s = spec_format_syndromes(u);
    lemma_sums_hold(i, j, k);
    lemma_sums_small(w);
    lemma_damaged_syndromes(word, i, j, k);
    lemma_locator_found(w, s);
    let sigma = w.locator().poly();
    assert forall|r: int| 0 <= r < 15 implies #[trigger] root_at(sigma, r) == (r == i || r == j || r == k) by {
        lemma_roots_are_bits(i, j, k, r);
    }
    lemma_flip_roots(sigma, u, i, j, k, 15);
    let a = flip(i);
    let b = flip(j);
    let c = flip(k);
    assert((((word ^ ((a ^ b) ^ c)) ^ a) ^ b) ^ c == word) by (bit_vector);
    assert(format_candidate(u) == word);
    assert(format_syndrome(u, 0) == w.s1);
    assert(format_syndrome(u, 2) == w.s3);
    assert(!format_valid(u));
}

/// The number of bits that are set among the first `n` of the word `d`.
pub open spec fn set_bits(d: u16, n: int) -> int
    decreases n,
{
    if n <= 0 {
        0
    } else if word_bit(d, n - 1) {
        set_bits(d, n - 1) + 1
    } else {
        set_bits(d, n - 1)
    }
}

/// The first `n` bits of the word `d`.
pub open spec fn low_bits(d: u16, n: int) -> u16
    decreases n,
{
    if n <= 0 {
        0
    } else if word_bit(d, n - 1) {
        low_bits(d, n - 1) ^ (1u16 << (n - 1))
    } else {
        low_bits(d, n - 1)
    }
}

/// The first `n` bits of a word are the word without its other bits.
proof fn lemma_low_bits(d: u16, n: int)
    requires
        0 <= n <= 15,
    ensures
        low_bits(d, n) == d & !(0xffffu16 << n),
    decreases n,
{
    if n > 0 {
        lemma_low_bits(d, n - 1);
        let q = (n - 1) as u16;
        let m = n as u16;
        assert(q < 15 && m == q + 1 ==> (d & !(0xffffu16 << m)) == if d & (1u16 << q) != 0 {
            (d & !(0xffffu16 << q)) ^ (1u16 << q)
        } else {
            d & !(0xffffu16 << q)
        }) by (bit_vector);
    } else {
        assert(d & !(0xffffu16 << 0u16) == 0) by (bit_vector);
    }
}

/// Up to three bits that are set among the first `n` of a word are found:
/// the result names them, the highest last, with -1 for a bit that is not
/// there.
proof fn lemma_find_bits(d: u16, n: int) -> (r: (int, int, int))
    requires
        0 <= n <= 15,
        set_bits(d, n) <= 3,
    ensures
        0 <= set_bits(d, n),
        low_bits(d, n) == damage(r.0, r.1, r.2),
        r.0 < n && r.1 < n && r.2 < n,
        r.0 >= 0 || r.0 == -1,
        r.1 >= 0 || r.1 == -1,
        r.2 >= 0 || r.2 == -1,
        present(r.0) == (set_bits(d, n) >= 1),
        present(r.1) == (set_bits(d, n) >= 2),
        present(r.2) == (set_bits(d, n) >= 3),
        present(r.1) ==> r.1 != r.0,
        present(r.2) ==> r.2 != r.0 && r.2 != r.1,
    decreases n,
{
    if n <= 0 {
        assert((0u16 ^ 0u16) ^ 0u16 == 0u16) by (bit_vector);
        (-1, -1, -1)
    } else {
        lemma_set_bits_grow(d, n - 1);
        let (i, j, k) = lemma_find_bits(d, n - 1);
        if word_bit(d, n - 1) {
            let a = flip(i);
            let b = flip(j);
            let t = 1u16 << (n - 1);
            assert(((0u16 ^ 0u16) ^ 0u16) ^ t == (t ^ 0u16) ^ 0u16 && ((a ^ 0u16) ^ 0u16) ^ t == (a ^ t) ^ 0u16 && ((a
                ^ b) ^ 0u16) ^ t == (a ^ b) ^ t) by (bit_vector);
            if set_bits(d, n - 1) == 0 {
                (n - 1, -1, -1)
            } else if set_bits(d, n - 1) == 1 {
                (i, n - 1, -1)
            } else {
                (i, j, n - 1)
            }
        } else {
            (i, j, k)
        }
    }
}

/// No count of bits is below zero.
proof fn lemma_set_bits_grow(d: u16, n: int)
    ensures
        0 <= set_bits(d, n),
    decreases n,
{
    if n > 0 {
        lemma_set_bits_grow(d, n - 1);
    }
}

/// A word of the code in which up to three bits were flipped is set right:
/// whatever the damage `d` of up to three bits, the correction of the
/// damaged word gives the word of the code back.
pub proof fn lemma_few_errors_corrected(word: u16, d: u16)
    requires
        format_valid(word),
        d < 0x8000,
        set_bits(d, 15) <= 3,
    ensures
        spec_correct_format(word ^ d) == Some(word),
{
    let (i, j, k) = lemma_find_bits(d, 15);
    lemma_low_bits(d, 15);
    assert(d < 0x8000 ==> d & !(0xffffu16 << 15u16) == d) by (bit_vector);
    assert(d == damage(i, j, k));
    if set_bits(d, 15) == 0 {
        assert((0u16 ^ 0u16) ^ 0u16 == 0u16 && word ^ 0u16 == word) by (bit_vector);
        lemma_valid_format_kept(word);
    } else {
        lemma_wrong_bits_corrected(word, i, j, k);
    }
}

} // verus!
