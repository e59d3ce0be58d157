//! The locator polynomial of the format word while it is of degree three or
//! less: the state of the algorithm with four coefficients in place of an
//! array, and the step of the algorithm on such a state.

use crate::decode::field16::{d16, e16, l16, m16, n16, sc16};
use crate::decode::berlekamp::{discrepancy, lfsr_start, lfsr_step, unit_poly, Lfsr};
use crate::decode::galois::{lemma_xor_closed, lemma_xor_zero, spec_gf16, GF16_EXP, GF16_LOG};
use crate::decode::polynomial::spec_poly_add;
use crate::decode::MAX_POLY;
use vstd::prelude::*;

verus! {

/// The functions are the tables of the field.
pub proof fn lemma_tables16(x: u8)
    requires
        x < 16,
    ensures
        GF16_EXP[x as int] == e16(x),
        GF16_LOG[x as int] == l16(x),
        n16(x) == 15 - l16(x),
        1 <= e16(x) < 16,
        l16(x) <= 15,
{
    reveal(e16);
    reveal(l16);
    reveal(n16);
}

/// The functions multiply and divide as the field does.
pub proof fn lemma_field16(a: u8, b: u8)
    requires
        a < 16,
        b < 16,
    ensures
        spec_gf16().times(a, b) == m16(a, b),
        spec_gf16().over(a, b) == d16(a, b),
        m16(a, b) < 16,
        d16(a, b) < 16,
        forall|e: int| 0 <= e <= 240 ==> #[trigger] spec_gf16().scale(a, e) == sc16(a, e as u8),
{
    reveal(sc16);
    lemma_tables16(a);
    lemma_tables16(b);
    assert forall|e: int| 0 <= e <= 240 implies #[trigger] spec_gf16().scale(a, e) == sc16(a, e as u8) by {
        if a != 0 {
            let r = (l16(a) + e) % 15;
            lemma_tables16(r as u8);
        }
    }
    assert(spec_gf16().scale(a, l16(b) as int) == sc16(a, l16(b)));
    assert(spec_gf16().scale(a, n16(b) as int) == sc16(a, n16(b)));
    reveal(m16);
    reveal(d16);
}

/// A polynomial of degree three or less.
pub struct Cubic {
    pub c0: u8,
    pub c1: u8,
    pub c2: u8,
    pub c3: u8,
}

impl Cubic {
    /// Coefficient `k`.
    pub open spec fn coef(self, k: int) -> u8 {
        if k == 0 {
            self.c0
        } else if k == 1 {
            self.c1
        } else if k == 2 {
            self.c2
        } else if k == 3 {
            self.c3
        } else {
            0
        }
    }

    /// The polynomial as the decoder holds it.
    pub open spec fn poly(self) -> Seq<u8> {
        Seq::new(MAX_POLY as nat, |k: int| self.coef(k))
    }

    /// Whether the coefficients are elements of the field.
    pub open spec fn small(self) -> bool {
        self.c0 < 16 && self.c1 < 16 && self.c2 < 16 && self.c3 < 16
    }

    /// Whether the polynomial times `x^m` is of degree three or less.
    pub open spec fn fits(self, m: int) -> bool {
        &&& self.c0 != 0 ==> m <= 3
        &&& self.c1 != 0 ==> m <= 2
        &&& self.c2 != 0 ==> m <= 1
        &&& self.c3 != 0 ==> m <= 0
    }

    /// The polynomial with `mu * x^m * b` added to it, for `m` of at least
    /// one.
    pub open spec fn plus(self, b: Cubic, mu: u8, m: int) -> Cubic {
        Cubic {
            c0: self.c0,
            c1: if m <= 1 {
                self.c1 ^ m16(b.coef(1 - m), mu)
            } else {
                self.c1
            },
            c2: if m <= 2 {
                self.c2 ^ m16(b.coef(2 - m), mu)
            } else {
                self.c2
            },
            c3: if m <= 3 {
                self.c3 ^ m16(b.coef(3 - m), mu)
            } else {
                self.c3
            },
        }
    }
}

/// The state of the algorithm while the locator is of degree three or less.
pub struct Trace {
    pub c: Cubic,
    pub b: Cubic,
    pub l: int,
    pub m: int,
    pub d: u8,
}

impl Trace {
    /// The state as the algorithm holds it.
    pub open spec fn state(self) -> Lfsr {
        Lfsr { c: self.c.poly(), b: self.b.poly(), l: self.l, m: self.m, d: self.d }
    }

    /// Whether the state is one that the algorithm can be in before it
    /// reads syndrome `n`, with a locator of degree three or less.
    pub open spec fn sound(self, n: int) -> bool {
        &&& self.c.small()
        &&& self.b.small()
        &&& self.d < 16
        &&& 0 <= self.l <= 3
        &&& self.l <= n
        &&& 1 <= self.m
    }

    /// The difference between syndrome `n` and what the locator predicts.
    pub open spec fn disc(self, s: Seq<u8>, n: int) -> u8 {
        let t1 = if self.l >= 1 {
            s[n] ^ m16(self.c.c1, s[n - 1])
        } else {
            s[n]
        };
        let t2 = if self.l >= 2 {
            t1 ^ m16(self.c.c2, s[n - 2])
        } else {
            t1
        };
        if self.l >= 3 {
            t2 ^ m16(self.c.c3, s[n - 3])
        } else {
            t2
        }
    }

    /// The state after syndrome `n` is read.
    pub open spec fn next(self, s: Seq<u8>, n: int) -> Trace {
        let d = self.disc(s, n);
        let fixed = self.c.plus(self.b, d16(d, self.d), self.m);
        if d == 0 {
            Trace { m: self.m + 1, ..self }
        } else if self.l * 2 <= n {
            Trace { c: fixed, b: self.c, l: n + 1 - self.l, m: 1, d: d }
        } else {
            Trace { c: fixed, m: self.m + 1, ..self }
        }
    }
}

/// The state before any syndrome is read.
pub open spec fn trace_start() -> Trace {
    Trace {
        c: Cubic { c0: 1, c1: 0, c2: 0, c3: 0 },
        b: Cubic { c0: 1, c1: 0, c2: 0, c3: 0 },
        l: 0,
        m: 1,
        d: 1,
    }
}

/// The trace starts where the algorithm starts.
pub proof fn lemma_trace_start()
    ensures
        trace_start().state() == lfsr_start(),
        trace_start().sound(0),
{
    assert(trace_start().c.poly() =~= unit_poly());
}

/// The sum of two elements of the field is one.
proof fn lemma_xor16(a: u8, b: u8)
    requires
        a < 16,
        b < 16,
    ensures
        a ^ b < 16,
{
    lemma_xor_closed(spec_gf16(), a, b);
}

/// The trace computes the difference as the algorithm does.
proof fn lemma_disc(t: Trace, s: Seq<u8>, n: int)
    requires
        t.sound(n),
        n < s.len(),
        forall|i: int| 0 <= i <= n ==> #[trigger] s[i] < 16,
    ensures
        discrepancy(spec_gf16(), s, t.c.poly(), n, t.l) == t.disc(s, n),
        t.disc(s, n) < 16,
{
    reveal_with_fuel(discrepancy, 4);
    let c = t.c.poly();
    assert(c[1] == t.c.c1 && c[2] == t.c.c2 && c[3] == t.c.c3);
    if t.l >= 1 {
        lemma_field16(t.c.c1, s[n - 1]);
        lemma_xor16(s[n], m16(t.c.c1, s[n - 1]));
    }
    if t.l >= 2 {
        lemma_field16(t.c.c2, s[n - 2]);
        lemma_xor16(s[n] ^ m16(t.c.c1, s[n - 1]), m16(t.c.c2, s[n - 2]));
    }
    if t.l >= 3 {
        lemma_field16(t.c.c3, s[n - 3]);
        lemma_xor16((s[n] ^ m16(t.c.c1, s[n - 1])) ^ m16(t.c.c2, s[n - 2]), m16(t.c.c3, s[n - 3]));
    }
}

/// Adding a multiple of a cubic to a cubic gives the cubic that `plus`
/// says, if the multiple is one.
proof fn lemma_plus(c: Cubic, b: Cubic, mu: u8, m: int)
    requires
        c.small(),
        b.small(),
        mu < 16,
        1 <= m,
        b.fits(m),
    ensures
        spec_poly_add(spec_gf16(), c.poly(), b.poly(), mu, m) == c.plus(b, mu, m).poly(),
        c.plus(b, mu, m).small(),
{
    let sum = spec_poly_add(spec_gf16(), c.poly(), b.poly(), mu, m);
    let want = c.plus(b, mu, m).poly();
    lemma_field16(b.c0, mu);
    lemma_field16(b.c1, mu);
    lemma_field16(b.c2, mu);
    lemma_field16(b.c3, mu);
    lemma_field16(0, mu);
    lemma_xor16(c.c1, m16(b.coef(1 - m), mu));
    lemma_xor16(c.c2, m16(b.coef(2 - m), mu));
    lemma_xor16(c.c3, m16(b.coef(3 - m), mu));
    lemma_xor_zero(0);
    assert forall|k: int| 0 <= k < MAX_POLY implies sum[k] == want[k] by {
        lemma_xor_zero(c.coef(k));
        if k >= m {
            assert(b.poly()[k - m] == b.coef(k - m));
        }
    }
    assert(sum =~= want);
}

/// The trace steps as the algorithm does, as long as the locator stays of
/// degree three or less.
pub proof fn lemma_next(t: Trace, s: Seq<u8>, n: int)
    requires
        t.sound(n),
        n < 6 <= s.len(),
        forall|i: int| 0 <= i < 6 ==> #[trigger] s[i] < 16,
        t.disc(s, n) != 0 ==> t.b.fits(t.m) && n + 1 - t.l <= 3,
    ensures
        lfsr_step(spec_gf16(), s, t.state(), n) == t.next(s, n).state(),
        t.next(s, n).sound(n + 1),
{
    lemma_disc(t, s, n);
    let d = t.disc(s, n);
    lemma_field16(d, t.d);
    if d != 0 {
        lemma_plus(t.c, t.b, d16(d, t.d), t.m);
    }
}

} // verus!
