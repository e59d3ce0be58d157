//! Galois-field tables for the two fields of the QR format: `GF(2^4)` for the
//! format word and `GF(2^8)` for the data codewords.
//!
//! A field with `p` nonzero elements is given by two tables of `p + 1` entries.
//! `exp[e]` is the generator raised to the power `e`; `log[x]` is an exponent
//! that gives `x`. Exponents are taken modulo `p`, so `exp[p]` repeats `exp[0]`.

use vstd::arithmetic::div_mod::{lemma_mod_add_multiples_vanish, lemma_mod_self_0, lemma_small_mod};
use vstd::prelude::*;

verus! {

/// Powers of the generator of `GF(2^4)`, with `x^4 + x + 1` as the modulus.
pub const GF16_EXP: [u8; 16] = [
    0x01, 0x02, 0x04, 0x08, 0x03, 0x06, 0x0c, 0x0b, 0x05, 0x0a, 0x07, 0x0e, 0x0f, 0x0d, 0x09, 0x01,
];

/// Logarithms in `GF(2^4)`; the entry for zero is not used.
pub const GF16_LOG: [u8; 16] = [
    0x00, 0x0f, 0x01, 0x04, 0x02, 0x08, 0x05, 0x0a, 0x03, 0x0e, 0x09, 0x07, 0x06, 0x0d, 0x0b, 0x0c,
];

/// Powers of the generator of `GF(2^8)`, with `x^8 + x^4 + x^3 + x^2 + 1` as the modulus.
pub const GF256_EXP: [u8; 256] = [
    0x01, 0x02, 0x04, 0x08, 0x10, 0x20, 0x40, 0x80, 0x1d, 0x3a, 0x74, 0xe8, 0xcd, 0x87, 0x13, 0x26,
    0x4c, 0x98, 0x2d, 0x5a, 0xb4, 0x75, 0xea, 0xc9, 0x8f, 0x03, 0x06, 0x0c, 0x18, 0x30, 0x60, 0xc0,
    0x9d, 0x27, 0x4e, 0x9c, 0x25, 0x4a, 0x94, 0x35, 0x6a, 0xd4, 0xb5, 0x77, 0xee, 0xc1, 0x9f, 0x23,
    0x46, 0x8c, 0x05, 0x0a, 0x14, 0x28, 0x50, 0xa0, 0x5d, 0xba, 0x69, 0xd2, 0xb9, 0x6f, 0xde, 0xa1,
    0x5f, 0xbe, 0x61, 0xc2, 0x99, 0x2f, 0x5e, 0xbc, 0x65, 0xca, 0x89, 0x0f, 0x1e, 0x3c, 0x78, 0xf0,
    0xfd, 0xe7, 0xd3, 0xbb, 0x6b, 0xd6, 0xb1, 0x7f, 0xfe, 0xe1, 0xdf, 0xa3, 0x5b, 0xb6, 0x71, 0xe2,
    0xd9, 0xaf, 0x43, 0x86, 0x11, 0x22, 0x44, 0x88, 0x0d, 0x1a, 0x34, 0x68, 0xd0, 0xbd, 0x67, 0xce,
    0x81, 0x1f, 0x3e, 0x7c, 0xf8, 0xed, 0xc7, 0x93, 0x3b, 0x76, 0xec, 0xc5, 0x97, 0x33, 0x66, 0xcc,
    0x85, 0x17, 0x2e, 0x5c, 0xb8, 0x6d, 0xda, 0xa9, 0x4f, 0x9e, 0x21, 0x42, 0x84, 0x15, 0x2a, 0x54,
    0xa8, 0x4d, 0x9a, 0x29, 0x52, 0xa4, 0x55, 0xaa, 0x49, 0x92, 0x39, 0x72, 0xe4, 0xd5, 0xb7, 0x73,
    0xe6, 0xd1, 0xbf, 0x63, 0xc6, 0x91, 0x3f, 0x7e, 0xfc, 0xe5, 0xd7, 0xb3, 0x7b, 0xf6, 0xf1, 0xff,
    0xe3, 0xdb, 0xab, 0x4b, 0x96, 0x31, 0x62, 0xc4, 0x95, 0x37, 0x6e, 0xdc, 0xa5, 0x57, 0xae, 0x41,
    0x82, 0x19, 0x32, 0x64, 0xc8, 0x8d, 0x07, 0x0e, 0x1c, 0x38, 0x70, 0xe0, 0xdd, 0xa7, 0x53, 0xa6,
    0x51, 0xa2, 0x59, 0xb2, 0x79, 0xf2, 0xf9, 0xef, 0xc3, 0x9b, 0x2b, 0x56, 0xac, 0x45, 0x8a, 0x09,
    0x12, 0x24, 0x48, 0x90, 0x3d, 0x7a, 0xf4, 0xf5, 0xf7, 0xf3, 0xfb, 0xeb, 0xcb, 0x8b, 0x0b, 0x16,
    0x2c, 0x58, 0xb0, 0x7d, 0xfa, 0xe9, 0xcf, 0x83, 0x1b, 0x36, 0x6c, 0xd8, 0xad, 0x47, 0x8e, 0x01,
];

/// Logarithms in `GF(2^8)`; the entry for zero is not used.
pub const GF256_LOG: [u8; 256] = [
    0x00, 0xff, 0x01, 0x19, 0x02, 0x32, 0x1a, 0xc6, 0x03, 0xdf, 0x33, 0xee, 0x1b, 0x68, 0xc7, 0x4b,
    0x04, 0x64, 0xe0, 0x0e, 0x34, 0x8d, 0xef, 0x81, 0x1c, 0xc1, 0x69, 0xf8, 0xc8, 0x08, 0x4c, 0x71,
    0x05, 0x8a, 0x65, 0x2f, 0xe1, 0x24, 0x0f, 0x21, 0x35, 0x93, 0x8e, 0xda, 0xf0, 0x12, 0x82, 0x45,
    0x1d, 0xb5, 0xc2, 0x7d, 0x6a, 0x27, 0xf9, 0xb9, 0xc9, 0x9a, 0x09, 0x78, 0x4d, 0xe4, 0x72, 0xa6,
    0x06, 0xbf, 0x8b, 0x62, 0x66, 0xdd, 0x30, 0xfd, 0xe2, 0x98, 0x25, 0xb3, 0x10, 0x91, 0x22, 0x88,
    0x36, 0xd0, 0x94, 0xce, 0x8f, 0x96, 0xdb, 0xbd, 0xf1, 0xd2, 0x13, 0x5c, 0x83, 0x38, 0x46, 0x40,
    0x1e, 0x42, 0xb6, 0xa3, 0xc3, 0x48, 0x7e, 0x6e, 0x6b, 0x3a, 0x28, 0x54, 0xfa, 0x85, 0xba, 0x3d,
    0xca, 0x5e, 0x9b, 0x9f, 0x0a, 0x15, 0x79, 0x2b, 0x4e, 0xd4, 0xe5, 0xac, 0x73, 0xf3, 0xa7, 0x57,
    0x07, 0x70, 0xc0, 0xf7, 0x8c, 0x80, 0x63, 0x0d, 0x67, 0x4a, 0xde, 0xed, 0x31, 0xc5, 0xfe, 0x18,
    0xe3, 0xa5, 0x99, 0x77, 0x26, 0xb8, 0xb4, 0x7c, 0x11, 0x44, 0x92, 0xd9, 0x23, 0x20, 0x89, 0x2e,
    0x37, 0x3f, 0xd1, 0x5b, 0x95, 0xbc, 0xcf, 0xcd, 0x90, 0x87, 0x97, 0xb2, 0xdc, 0xfc, 0xbe, 0x61,
    0xf2, 0x56, 0xd3, 0xab, 0x14, 0x2a, 0x5d, 0x9e, 0x84, 0x3c, 0x39, 0x53, 0x47, 0x6d, 0x41, 0xa2,
    0x1f, 0x2d, 0x43, 0xd8, 0xb7, 0x7b, 0xa4, 0x76, 0xc4, 0x17, 0x49, 0xec, 0x7f, 0x0c, 0x6f, 0xf6,
    0x6c, 0xa1, 0x3b, 0x52, 0x29, 0x9d, 0x55, 0xaa, 0xfb, 0x60, 0x86, 0xb1, 0xbb, 0xcc, 0x3e, 0x5a,
    0xcb, 0x59, 0x5f, 0xb0, 0x9c, 0xa9, 0xa0, 0x51, 0x0b, 0xf5, 0x16, 0xeb, 0x7a, 0x75, 0x2c, 0xd7,
    0x4f, 0xae, 0xd5, 0xe9, 0xe6, 0xe7, 0xad, 0xe8, 0x74, 0xd6, 0xf4, 0xea, 0xa8, 0x50, 0x58, 0xaf,
];

/// A field, given by its tables.
#[derive(Copy, Clone, Debug)]
pub struct GaloisField {
    /// The number of nonzero elements.
    pub p: usize,
    pub log: &'static [u8],
    pub exp: &'static [u8],
}

impl GaloisField {
    /// The tables have `p + 1` entries that are elements of the field and
    /// exponents up to `p`, and the field is one of the two of the QR format.
    pub open spec fn wf(&self) -> bool {
        &&& (self.p == 15 || self.p == 255)
        &&& self.log@.len() == self.p + 1
        &&& self.exp@.len() == self.p + 1
        &&& forall|x: int| 0 <= x <= self.p ==> #[trigger] self.log@[x] <= self.p
        &&& forall|e: int| 0 <= e <= self.p ==> #[trigger] self.exp@[e] <= self.p
    }

    /// Whether `x` is an element of the field.
    pub open spec fn has(&self, x: u8) -> bool {
        x <= self.p
    }

    /// Whether the first `n` entries of `s` are elements of the field.
    pub open spec fn has_all(&self, s: Seq<u8>, n: int) -> bool {
        forall|i: int| 0 <= i < n ==> #[trigger] s[i] <= self.p
    }

    /// The product of `a` and the generator raised to the power `e`.
    pub open spec fn scale(&self, a: u8, e: int) -> u8 {
        if a == 0 {
            0
        } else {
            self.exp@[(self.log@[a as int] + e) % (self.p as int)]
        }
    }

    /// The product of `a` and `b`.
    pub open spec fn times(&self, a: u8, b: u8) -> u8 {
        if b == 0 {
            0
        } else {
            self.scale(a, self.log@[b as int] as int)
        }
    }

    /// The quotient of `a` by `b`, for `b` other than zero.
    pub open spec fn over(&self, a: u8, b: u8) -> u8 {
        self.scale(a, self.p - self.log@[b as int])
    }
}

/// The field of the format word.
pub open spec fn spec_gf16() -> GaloisField {
    GaloisField { p: 15, log: &GF16_LOG, exp: &GF16_EXP }
}

/// The field of the data codewords.
pub open spec fn spec_gf256() -> GaloisField {
    GaloisField { p: 255, log: &GF256_LOG, exp: &GF256_EXP }
}

/// Returns the field of the format word.
#[verifier::when_used_as_spec(spec_gf16)]
pub fn gf16() -> (gf: GaloisField)
    ensures
        gf == spec_gf16(),
        gf.wf(),
{
    GaloisField { p: 15, log: &GF16_LOG, exp: &GF16_EXP }
}

/// Returns the field of the data codewords.
#[verifier::when_used_as_spec(spec_gf256)]
pub fn gf256() -> (gf: GaloisField)
    ensures
        gf == spec_gf256(),
        gf.wf(),
{
    GaloisField { p: 255, log: &GF256_LOG, exp: &GF256_EXP }
}

impl GaloisField {
    /// The logarithm of `x` as the table has it.
    pub open spec fn lg(&self, x: int) -> int {
        self.log@[x] as int
    }

    /// The power `e` of the generator as the table has it.
    pub open spec fn pw(&self, e: int) -> u8 {
        self.exp@[e]
    }

    /// The tables undo each other: the power of the generator with the
    /// logarithm of an element other than zero is the element, and the
    /// logarithm of a power is its exponent, up to a multiple of `p`. No
    /// power is zero, the powers 0 and `p` are 1, and the logarithm of 1 is
    /// `p`.
    #[verifier::opaque]
    pub open spec fn tables_agree(&self) -> bool {
        &&& self.pw(0) == 1
        &&& self.pw(self.p as int) == 1
        &&& self.lg(1) == self.p
        &&& forall|x: int| 1 <= x <= self.p ==> 1 <= #[trigger] self.lg(x) <= self.p && self.pw(self.lg(x)) == x
        &&& forall|e: int|
            0 <= e < self.p ==> #[trigger] self.pw(e) != 0 && self.lg(self.pw(e) as int) % (self.p as int) == e
    }
}

/// The tables of both fields of the QR format undo each other.
pub proof fn lemma_tables_agree(gf: GaloisField)
    requires
        gf == spec_gf16() || gf == spec_gf256(),
    ensures
        gf.wf(),
        gf.tables_agree(),
{
    reveal(GaloisField::tables_agree);
}

/// What tables that undo each other say of the element `x`.
pub proof fn lemma_log_of(gf: GaloisField, x: int)
    requires
        gf.tables_agree(),
        1 <= x <= gf.p,
    ensures
        1 <= gf.lg(x) <= gf.p,
        gf.pw(gf.lg(x)) == x,
{
    reveal(GaloisField::tables_agree);
}

/// What tables that undo each other say of the power `e`.
pub proof fn lemma_power_of(gf: GaloisField, e: int)
    requires
        gf.wf(),
        gf.tables_agree(),
        0 <= e <= gf.p,
    ensures
        1 <= gf.pw(e) <= gf.p,
        e < gf.p ==> gf.lg(gf.pw(e) as int) % (gf.p as int) == e,
        e == 0 || e == gf.p ==> gf.pw(e) == 1,
        gf.lg(1) == gf.p,
{
    reveal(GaloisField::tables_agree);
}

/// Multiplication is commutative, has the unit 1, and gives zero only for
/// a factor zero.
pub proof fn lemma_times(gf: GaloisField, a: u8, b: u8)
    requires
        gf.wf(),
        gf.tables_agree(),
        gf.has(a),
        gf.has(b),
    ensures
        gf.times(a, b) == gf.times(b, a),
        gf.times(a, 1) == a,
        gf.times(a, b) == 0 <==> a == 0 || b == 0,
        gf.has(gf.times(a, b)),
{
    let p = gf.p as int;
    if a != 0 {
        lemma_log_of(gf, a as int);
        lemma_power_of(gf, 0);
        lemma_power_of(gf, p);
        let la = gf.lg(a as int);
        assert(gf.times(a, 1) == gf.pw((la + p) % p));
        assert((la + p) % p == if la == p {
            0
        } else {
            la
        }) by {
            lemma_mod_add_multiples_vanish(la, p);
            lemma_mod_self_0(p);
            if la < p {
                lemma_small_mod(la as nat, p as nat);
            }
        }
        if b != 0 {
            lemma_log_of(gf, b as int);
            let s = (la + gf.lg(b as int)) % p;
            lemma_power_of(gf, s);
            assert(gf.times(a, b) == gf.pw(s));
            assert(gf.times(b, a) == gf.pw((gf.lg(b as int) + la) % p));
        }
    }
}

/// Adding zero changes nothing.
pub proof fn lemma_xor_zero(a: u8)
    ensures
        a ^ 0 == a,
        0 ^ a == a,
{
    assert(a ^ 0 == a) by (bit_vector);
    assert(0 ^ a == a) by (bit_vector);
}

/// The sum of two elements of a field is an element of it.
pub proof fn lemma_xor_closed(gf: GaloisField, a: u8, b: u8)
    requires
        gf.wf(),
        gf.has(a),
        gf.has(b),
    ensures
        gf.has(a ^ b),
{
    assert(a <= 15 && b <= 15 ==> a ^ b <= 15) by (bit_vector);
}

impl GaloisField {
    /// Multiplies `a` by the generator raised to the power `e`.
    pub fn mul_exp(&self, a: u8, e: usize) -> (r: u8)
        requires
            self.wf(),
            self.has(a),
            e <= usize::MAX - 255,
        ensures
            r == self.scale(a, e as int),
            self.has(r),
    {
        if a == 0 {
            0
        } else {
            self.exp[(self.log[a as usize] as usize + e) % self.p]
        }
    }

    /// Multiplies two elements.
    pub fn mul(&self, a: u8, b: u8) -> (r: u8)
        requires
            self.wf(),
            self.has(a),
            self.has(b),
        ensures
            r == self.times(a, b),
            self.has(r),
    {
        if b == 0 {
            0
        } else {
            self.mul_exp(a, self.log[b as usize] as usize)
        }
    }
}

} // verus!
