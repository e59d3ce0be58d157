//! The field of sixteen elements with its tables written as functions, and
//! what holds in it of the sums of powers of one, two or three elements:
//! these are the syndromes of a format word with as many wrong bits. The
//! facts are about all elements of the field, and the bit-vector solver
//! settles them by trying all.

use vstd::prelude::*;

verus! {

/// The power `e` of the generator, for `e` up to 15.
#[verifier::opaque]
pub open spec fn e16(e: u8) -> u8 {
    if e == 0 {
        1
    } else if e == 1 {
        2
    } else if e == 2 {
        4
    } else if e == 3 {
        8
    } else if e == 4 {
        3
    } else if e == 5 {
        6
    } else if e == 6 {
        12
    } else if e == 7 {
        11
    } else if e == 8 {
        5
    } else if e == 9 {
        10
    } else if e == 10 {
        7
    } else if e == 11 {
        14
    } else if e == 12 {
        15
    } else if e == 13 {
        13
    } else if e == 14 {
        9
    } else {
        1
    }
}

/// The logarithm of `x`, between 1 and 15 for an element other than zero.
#[verifier::opaque]
pub open spec fn l16(x: u8) -> u8 {
    if x == 1 {
        15
    } else if x == 2 {
        1
    } else if x == 3 {
        4
    } else if x == 4 {
        2
    } else if x == 5 {
        8
    } else if x == 6 {
        5
    } else if x == 7 {
        10
    } else if x == 8 {
        3
    } else if x == 9 {
        14
    } else if x == 10 {
        9
    } else if x == 11 {
        7
    } else if x == 12 {
        6
    } else if x == 13 {
        13
    } else if x == 14 {
        11
    } else if x == 15 {
        12
    } else {
        0
    }
}

/// What is left of 15 when the logarithm of `x` is taken from it.
#[verifier::opaque]
pub open spec fn n16(x: u8) -> u8 {
    if x == 1 {
        0
    } else if x == 2 {
        14
    } else if x == 3 {
        11
    } else if x == 4 {
        13
    } else if x == 5 {
        7
    } else if x == 6 {
        10
    } else if x == 7 {
        5
    } else if x == 8 {
        12
    } else if x == 9 {
        1
    } else if x == 10 {
        6
    } else if x == 11 {
        8
    } else if x == 12 {
        9
    } else if x == 13 {
        2
    } else if x == 14 {
        4
    } else if x == 15 {
        3
    } else {
        15
    }
}

/// The product of `a` and the power `e` of the generator.
#[verifier::opaque]
pub open spec fn sc16(a: u8, e: u8) -> u8 {
    if a == 0 {
        0
    } else {
        e16(((l16(a) + e) % 15) as u8)
    }
}

/// The product of `a` and `b`.
#[verifier::opaque]
pub open spec fn m16(a: u8, b: u8) -> u8 {
    if b == 0 {
        0
    } else {
        sc16(a, l16(b))
    }
}

/// The quotient of `a` by `b`.
#[verifier::opaque]
pub open spec fn d16(a: u8, b: u8) -> u8 {
    sc16(a, n16(b))
}

/// Whether `x`, `y` and `z` are the elements that stand for one, two or
/// three wrong bits: elements other than zero that differ from each other,
/// followed by zeros for the bits that are not wrong.
pub open spec fn errs(x: u8, y: u8, z: u8) -> bool {
    0 < x < 16 && y < 16 && z < 16 && (y != 0 ==> y != x) && (z != 0 ==> y != 0 && z != x && z != y)
}

/// Whether `x2` to `x6` are the powers of `x`.
pub open spec fn powers(x: u8, x2: u8, x3: u8, x4: u8, x5: u8, x6: u8) -> bool {
    x2 == m16(x, x) && x3 == m16(x2, x) && x4 == m16(x3, x) && x5 == m16(x4, x) && x6 == m16(x5, x)
}

/// Whether `s1` to `s6` are the sums of the first six powers of the
/// elements `x`, `y` and `z`, which stand for wrong bits.
pub open spec fn power_sums(
    x: u8,
    x2: u8,
    x3: u8,
    x4: u8,
    x5: u8,
    x6: u8,
    y: u8,
    y2: u8,
    y3: u8,
    y4: u8,
    y5: u8,
    y6: u8,
    z: u8,
    z2: u8,
    z3: u8,
    z4: u8,
    z5: u8,
    z6: u8,
    s1: u8,
    s2: u8,
    s3: u8,
    s4: u8,
    s5: u8,
    s6: u8,
) -> bool {
    &&& errs(x, y, z)
    &&& powers(x, x2, x3, x4, x5, x6)
    &&& powers(y, y2, y3, y4, y5, y6)
    &&& powers(z, z2, z3, z4, z5, z6)
    &&& s1 == (x ^ y) ^ z
    &&& s2 == (x2 ^ y2) ^ z2
    &&& s3 == (x3 ^ y3) ^ z3
    &&& s4 == (x4 ^ y4) ^ z4
    &&& s5 == (x5 ^ y5) ^ z5
    &&& s6 == (x6 ^ y6) ^ z6
}

/// One is the unit of the field, zero times anything is zero, and adding
/// zero changes nothing. The constants come as the arguments `zero` and
/// `one`.
pub proof fn lemma_units16(a: u8, zero: u8, one: u8)
    by (bit_vector)
    requires
        a < 16,
        zero == 0,
        one == 1,
    ensures
        m16(one, a) == a,
        m16(a, one) == a,
        d16(a, one) == a,
        m16(zero, a) == 0,
        m16(a, zero) == 0,
        zero ^ a == a,
        a ^ zero == a,
        a ^ a == 0,
        d16(zero, a) == 0,
        e16(zero) == 1,
{
}

/// The product of two powers of the generator is the power with the sum
/// of the exponents. Different powers below 15 differ, and none is zero.
pub proof fn lemma_exp_product(a: u8, b: u8, ea: u8, eb: u8)
    by (bit_vector)
    requires
        a < 15,
        b < 15,
        ea == e16(a),
        eb == e16(b),
    ensures
        m16(ea, eb) == e16(((a + b) % 15) as u8),
        (ea == eb) == (a == b),
        (ea == 1) == (a == 0),
        0 < ea < 16,
{
}

/// The generator raised to the logarithm of an element is the element.
pub proof fn lemma_exp_log(a: u8, la: u8)
    by (bit_vector)
    requires
        0 < a < 16,
        la == l16(a),
    ensures
        e16(la) == a,
        1 <= la <= 15,
        la == 15 ==> a == 1,
{
}

/// The sums of the powers of wrong bits are not all zero: the first or
/// the third is not. If the first is zero, so are the second and the
/// fourth, and there are three wrong bits.
pub proof fn lemma_sums_nonzero(
    x: u8,
    x2: u8,
    x3: u8,
    x4: u8,
    x5: u8,
    x6: u8,
    y: u8,
    y2: u8,
    y3: u8,
    y4: u8,
    y5: u8,
    y6: u8,
    z: u8,
    z2: u8,
    z3: u8,
    z4: u8,
    z5: u8,
    z6: u8,
    s1: u8,
    s2: u8,
    s3: u8,
    s4: u8,
    s5: u8,
    s6: u8,
)
    by (bit_vector)
    requires
        power_sums(x, x2, x3, x4, x5, x6, y, y2, y3, y4, y5, y6, z, z2, z3, z4, z5, z6, s1, s2, s3, s4, s5, s6),
    ensures
        s1 != 0 || s3 != 0,
        s1 == 0 ==> s2 == 0 && s4 == 0 && z != 0,
        s1 < 16 && s2 < 16 && s3 < 16 && s4 < 16 && s5 < 16 && s6 < 16,
{
}

/// With a first sum other than zero, the locator `1 + s1 x` predicts the
/// second sum.
pub proof fn lemma_second_step(
    x: u8,
    x2: u8,
    x3: u8,
    x4: u8,
    x5: u8,
    x6: u8,
    y: u8,
    y2: u8,
    y3: u8,
    y4: u8,
    y5: u8,
    y6: u8,
    z: u8,
    z2: u8,
    z3: u8,
    z4: u8,
    z5: u8,
    z6: u8,
    s1: u8,
    s2: u8,
    s3: u8,
    s4: u8,
    s5: u8,
    s6: u8,
)
    by (bit_vector)
    requires
        power_sums(x, x2, x3, x4, x5, x6, y, y2, y3, y4, y5, y6, z, z2, z3, z4, z5, z6, s1, s2, s3, s4, s5, s6),
        s1 != 0,
    ensures
        s2 ^ m16(s1, s1) == 0,
{
}

/// If the locator `1 + s1 x` predicts the third sum, it predicts all the
/// rest, and one bit is wrong.
pub proof fn lemma_one_error(
    x: u8,
    x2: u8,
    x3: u8,
    x4: u8,
    x5: u8,
    x6: u8,
    y: u8,
    y2: u8,
    y3: u8,
    y4: u8,
    y5: u8,
    y6: u8,
    z: u8,
    z2: u8,
    z3: u8,
    z4: u8,
    z5: u8,
    z6: u8,
    s1: u8,
    s2: u8,
    s3: u8,
    s4: u8,
    s5: u8,
    s6: u8,
)
    by (bit_vector)
    requires
        power_sums(x, x2, x3, x4, x5, x6, y, y2, y3, y4, y5, y6, z, z2, z3, z4, z5, z6, s1, s2, s3, s4, s5, s6),
        s1 != 0,
        s3 ^ m16(s1, s2) == 0,
    ensures
        s4 ^ m16(s1, s3) == 0,
        s5 ^ m16(s1, s4) == 0,
        s6 ^ m16(s1, s5) == 0,
        y == 0,
{
}

/// The locator of degree two, `1 + s1 x + c2 x^2`, predicts the fourth
/// sum.
#[verifier::rlimit(100)]
pub proof fn lemma_fourth_step(
    x: u8,
    x2: u8,
    x3: u8,
    x4: u8,
    x5: u8,
    x6: u8,
    y: u8,
    y2: u8,
    y3: u8,
    y4: u8,
    y5: u8,
    y6: u8,
    z: u8,
    z2: u8,
    z3: u8,
    z4: u8,
    z5: u8,
    z6: u8,
    s1: u8,
    s2: u8,
    s3: u8,
    s4: u8,
    s5: u8,
    s6: u8,
    d2: u8,
    c2: u8,
)
    by (bit_vector)
    requires
        power_sums(x, x2, x3, x4, x5, x6, y, y2, y3, y4, y5, y6, z, z2, z3, z4, z5, z6, s1, s2, s3, s4, s5, s6),
        s1 != 0,
        d2 == s3 ^ m16(s1, s2),
        d2 != 0,
        c2 == d16(d2, s1),
    ensures
        (s4 ^ m16(s1, s3)) ^ m16(c2, s2) == 0,
        c2 < 16,
{
}

/// If the locator of degree two predicts the fifth sum, it predicts the
/// sixth, and two bits are wrong.
#[verifier::rlimit(100)]
pub proof fn lemma_two_errors(
    x: u8,
    x2: u8,
    x3: u8,
    x4: u8,
    x5: u8,
    x6: u8,
    y: u8,
    y2: u8,
    y3: u8,
    y4: u8,
    y5: u8,
    y6: u8,
    z: u8,
    z2: u8,
    z3: u8,
    z4: u8,
    z5: u8,
    z6: u8,
    s1: u8,
    s2: u8,
    s3: u8,
    s4: u8,
    s5: u8,
    s6: u8,
    d2: u8,
    c2: u8,
)
    by (bit_vector)
    requires
        power_sums(x, x2, x3, x4, x5, x6, y, y2, y3, y4, y5, y6, z, z2, z3, z4, z5, z6, s1, s2, s3, s4, s5, s6),
        s1 != 0,
        d2 == s3 ^ m16(s1, s2),
        d2 != 0,
        c2 == d16(d2, s1),
        (s5 ^ m16(s1, s4)) ^ m16(c2, s3) == 0,
    ensures
        (s6 ^ m16(s1, s5)) ^ m16(c2, s4) == 0,
        z == 0,
{
}

/// The locator of degree three, `1 + s1 x + e2 x^2 + e3 x^3`, predicts
/// the sixth sum.
#[verifier::rlimit(100)]
pub proof fn lemma_sixth_step(
    x: u8,
    x2: u8,
    x3: u8,
    x4: u8,
    x5: u8,
    x6: u8,
    y: u8,
    y2: u8,
    y3: u8,
    y4: u8,
    y5: u8,
    y6: u8,
    z: u8,
    z2: u8,
    z3: u8,
    z4: u8,
    z5: u8,
    z6: u8,
    s1: u8,
    s2: u8,
    s3: u8,
    s4: u8,
    s5: u8,
    s6: u8,
    d2: u8,
    c2: u8,
    d4: u8,
    mu: u8,
    e2: u8,
    e3: u8,
    zero: u8,
    one: u8,
)
    by (bit_vector)
    requires
        power_sums(x, x2, x3, x4, x5, x6, y, y2, y3, y4, y5, y6, z, z2, z3, z4, z5, z6, s1, s2, s3, s4, s5, s6),
        zero == 0,
        one == 1,
        s1 != 0,
        d2 == s3 ^ m16(s1, s2),
        d2 != 0,
        c2 == d16(d2, s1),
        d4 == (s5 ^ m16(s1, s4)) ^ m16(c2, s3),
        d4 != 0,
        mu == d16(d4, d2),
        e2 == c2 ^ m16(one, mu),
        e3 == zero ^ m16(s1, mu),
    ensures
        ((s6 ^ m16(s1, s5)) ^ m16(e2, s4)) ^ m16(e3, s3) == 0,
        e2 < 16,
        e3 < 16,
        mu < 16,
{
}

/// With a first sum of zero, the locator `1 + s3 x^3`, with or without a
/// term of degree two, predicts the sixth sum.
pub proof fn lemma_sixth_step_even(
    x: u8,
    x2: u8,
    x3: u8,
    x4: u8,
    x5: u8,
    x6: u8,
    y: u8,
    y2: u8,
    y3: u8,
    y4: u8,
    y5: u8,
    y6: u8,
    z: u8,
    z2: u8,
    z3: u8,
    z4: u8,
    z5: u8,
    z6: u8,
    s1: u8,
    s2: u8,
    s3: u8,
    s4: u8,
    s5: u8,
    s6: u8,
)
    by (bit_vector)
    requires
        power_sums(x, x2, x3, x4, x5, x6, y, y2, y3, y4, y5, y6, z, z2, z3, z4, z5, z6, s1, s2, s3, s4, s5, s6),
        s1 == 0,
    ensures
        s6 ^ m16(s3, s3) == 0,
{
}

/// The locator for one wrong bit has the value `ev` at `u`. It vanishes
/// there exactly if `u` is the inverse of the element of that bit.
#[verifier::rlimit(100)]
pub proof fn lemma_roots_one(
    x: u8,
    x2: u8,
    x3: u8,
    x4: u8,
    x5: u8,
    x6: u8,
    y: u8,
    y2: u8,
    y3: u8,
    y4: u8,
    y5: u8,
    y6: u8,
    z: u8,
    z2: u8,
    z3: u8,
    z4: u8,
    z5: u8,
    z6: u8,
    s1: u8,
    s2: u8,
    s3: u8,
    s4: u8,
    s5: u8,
    s6: u8,
    zero: u8,
    one: u8,
    u: u8,
    u2: u8,
    u3: u8,
    ev: u8,
)
    by (bit_vector)
    requires
        power_sums(x, x2, x3, x4, x5, x6, y, y2, y3, y4, y5, y6, z, z2, z3, z4, z5, z6, s1, s2, s3, s4, s5, s6),
        zero == 0,
        one == 1,
        s1 != 0,
        s3 ^ m16(s1, s2) == 0,
        0 < u < 16,
        u2 == m16(u, u),
        u3 == m16(u2, u),
        ev == (((zero ^ one) ^ m16(s1, u)) ^ m16(zero, u2)) ^ m16(zero, u3),
    ensures
        (ev == 0) <==> (m16(u, x) == 1 || m16(u, y) == 1 || m16(u, z) == 1),
{
}

/// The locator for two wrong bits has the value `ev` at `u`. It vanishes
/// there exactly if `u` is the inverse of the element of one of them.
#[verifier::rlimit(100)]
pub proof fn lemma_roots_two(
    x: u8,
    x2: u8,
    x3: u8,
    x4: u8,
    x5: u8,
    x6: u8,
    y: u8,
    y2: u8,
    y3: u8,
    y4: u8,
    y5: u8,
    y6: u8,
    z: u8,
    z2: u8,
    z3: u8,
    z4: u8,
    z5: u8,
    z6: u8,
    s1: u8,
    s2: u8,
    s3: u8,
    s4: u8,
    s5: u8,
    s6: u8,
    d2: u8,
    c2: u8,
    zero: u8,
    one: u8,
    u: u8,
    u2: u8,
    u3: u8,
    ev: u8,
)
    by (bit_vector)
    requires
        power_sums(x, x2, x3, x4, x5, x6, y, y2, y3, y4, y5, y6, z, z2, z3, z4, z5, z6, s1, s2, s3, s4, s5, s6),
        zero == 0,
        one == 1,
        s1 != 0,
        d2 == s3 ^ m16(s1, s2),
        d2 != 0,
        c2 == d16(d2, s1),
        (s5 ^ m16(s1, s4)) ^ m16(c2, s3) == 0,
        0 < u < 16,
        u2 == m16(u, u),
        u3 == m16(u2, u),
        ev == (((zero ^ one) ^ m16(s1, u)) ^ m16(c2, u2)) ^ m16(zero, u3),
    ensures
        (ev == 0) <==> (m16(u, x) == 1 || m16(u, y) == 1 || m16(u, z) == 1),
{
}

/// The locator for three wrong bits whose elements do not add up to zero
/// has the value `ev` at `u`. It vanishes there exactly if `u` is the
/// inverse of the element of one of them.
#[verifier::rlimit(100)]
pub proof fn lemma_roots_three(
    x: u8,
    x2: u8,
    x3: u8,
    x4: u8,
    x5: u8,
    x6: u8,
    y: u8,
    y2: u8,
    y3: u8,
    y4: u8,
    y5: u8,
    y6: u8,
    z: u8,
    z2: u8,
    z3: u8,
    z4: u8,
    z5: u8,
    z6: u8,
    s1: u8,
    s2: u8,
    s3: u8,
    s4: u8,
    s5: u8,
    s6: u8,
    d2: u8,
    c2: u8,
    d4: u8,
    mu: u8,
    e2: u8,
    e3: u8,
    zero: u8,
    one: u8,
    u: u8,
    u2: u8,
    u3: u8,
    ev: u8,
)
    by (bit_vector)
    requires
        power_sums(x, x2, x3, x4, x5, x6, y, y2, y3, y4, y5, y6, z, z2, z3, z4, z5, z6, s1, s2, s3, s4, s5, s6),
        zero == 0,
        one == 1,
        s1 != 0,
        d2 == s3 ^ m16(s1, s2),
        d2 != 0,
        c2 == d16(d2, s1),
        d4 == (s5 ^ m16(s1, s4)) ^ m16(c2, s3),
        d4 != 0,
        mu == d16(d4, d2),
        e2 == c2 ^ m16(one, mu),
        e3 == zero ^ m16(s1, mu),
        0 < u < 16,
        u2 == m16(u, u),
        u3 == m16(u2, u),
        ev == (((zero ^ one) ^ m16(s1, u)) ^ m16(e2, u2)) ^ m16(e3, u3),
    ensures
        (ev == 0) <==> (m16(u, x) == 1 || m16(u, y) == 1 || m16(u, z) == 1),
{
}

/// The locator for three wrong bits whose elements add up to zero has the
/// value `ev` at `u`. It vanishes there exactly if `u` is the inverse of
/// the element of one of them.
#[verifier::rlimit(100)]
pub proof fn lemma_roots_three_even(
    x: u8,
    x2: u8,
    x3: u8,
    x4: u8,
    x5: u8,
    x6: u8,
    y: u8,
    y2: u8,
    y3: u8,
    y4: u8,
    y5: u8,
    y6: u8,
    z: u8,
    z2: u8,
    z3: u8,
    z4: u8,
    z5: u8,
    z6: u8,
    s1: u8,
    s2: u8,
    s3: u8,
    s4: u8,
    s5: u8,
    s6: u8,
    c2: u8,
    zero: u8,
    one: u8,
    u: u8,
    u2: u8,
    u3: u8,
    ev: u8,
)
    by (bit_vector)
    requires
        power_sums(x, x2, x3, x4, x5, x6, y, y2, y3, y4, y5, y6, z, z2, z3, z4, z5, z6, s1, s2, s3, s4, s5, s6),
        zero == 0,
        one == 1,
        s1 == 0,
        c2 == d16(s5, s3),
        0 < u < 16,
        u2 == m16(u, u),
        u3 == m16(u2, u),
        ev == (((zero ^ one) ^ m16(zero, u)) ^ m16(c2, u2)) ^ m16(s3, u3),
    ensures
        (ev == 0) <==> (m16(u, x) == 1 || m16(u, y) == 1 || m16(u, z) == 1),
        c2 < 16,
{
}

} // verus!
