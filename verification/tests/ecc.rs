use quirs::decode::berlekamp::berlekamp_massey;
use quirs::decode::err_corr::{block_syndromes, correct_block, eloc_poly};
use quirs::decode::format::{correct_format, format_syndromes};
use quirs::decode::galois::{gf16, gf256};
use quirs::decode::polynomial::{poly_add, poly_eval};
use quirs::decode::MAX_POLY;
use quirs::error::QuircDecodeError;
use quirs::version_db::QuircRsParams;

/// All 32 words of the format code, before the fixed mask is added.
fn format_words() -> Vec<u16> {
    (0u16..32)
        .map(|fdata| {
            let mut rem = fdata << 10;
            for i in (10..15).rev() {
                if rem & (1 << i) != 0 {
                    rem ^= 0x537 << (i - 10);
                }
            }
            (fdata << 10) | rem
        })
        .collect()
}

#[test]
fn valid_format_words_have_zero_syndromes() {
    for word in format_words() {
        let mut s = [0xffu8; MAX_POLY];
        assert!(!format_syndromes(word, &mut s));
        assert!(s.iter().all(|v| *v == 0));
        let mut w = word;
        assert_eq!(correct_format(&mut w), QuircDecodeError::QuircSuccess);
        assert_eq!(w, word);
    }
}

#[test]
fn format_syndromes_of_a_single_bit() {
    // Bit j alone is the polynomial x^j: syndrome i is the power (i + 1) * j
    // of the generator 2 of GF(16).
    let exp = [1u8, 2, 4, 8, 3, 6, 12, 11, 5, 10, 7, 14, 15, 13, 9];
    for j in 0..15usize {
        let mut s = [0u8; MAX_POLY];
        assert!(format_syndromes(1 << j, &mut s));
        for i in 0..6usize {
            assert_eq!(s[i], exp[((i + 1) * j) % 15]);
        }
        for v in &s[6..] {
            assert_eq!(*v, 0);
        }
    }
}

#[test]
fn up_to_three_wrong_format_bits_are_corrected() {
    let mut cases = 0;
    for word in format_words() {
        for a in 0..15 {
            let mut w = word ^ (1 << a);
            assert_eq!(correct_format(&mut w), QuircDecodeError::QuircSuccess);
            assert_eq!(w, word);
            cases += 1;
            for b in a + 1..15 {
                let mut w = word ^ (1 << a) ^ (1 << b);
                assert_eq!(correct_format(&mut w), QuircDecodeError::QuircSuccess);
                assert_eq!(w, word);
                cases += 1;
                for c in b + 1..15 {
                    let mut w = word ^ (1 << a) ^ (1 << b) ^ (1 << c);
                    assert_eq!(correct_format(&mut w), QuircDecodeError::QuircSuccess);
                    assert_eq!(w, word);
                    cases += 1;
                }
            }
        }
    }
    assert_eq!(cases, 32 * (15 + 105 + 455));
}

#[test]
fn more_than_three_wrong_format_bits_fail_or_give_another_word() {
    let words = format_words();
    let mut failures = 0;
    let mut others = 0;
    for word in &words {
        for a in 0..12 {
            let damaged = word ^ (0b1111 << a);
            let mut w = damaged;
            match correct_format(&mut w) {
                QuircDecodeError::QuircSuccess => {
                    assert!(words.contains(&w));
                    assert_ne!(w, *word);
                    others += 1;
                }
                QuircDecodeError::QuircErrorFormatEcc => {
                    assert_eq!(w, damaged);
                    failures += 1;
                }
                other => panic!("unexpected outcome {:?}", other),
            }
        }
    }
    assert_eq!(failures + others, 32 * 12);
    assert!(failures > 0);
}

#[test]
fn berlekamp_massey_on_zero_syndromes_is_the_unit_polynomial() {
    let s = [0u8; MAX_POLY];
    for n in [0usize, 1, 6, 30, 64] {
        for gf in [gf16(), gf256()] {
            let sigma = berlekamp_massey(&s, n, &gf);
            assert_eq!(sigma[0], 1);
            assert!(sigma[1..].iter().all(|c| *c == 0));
        }
    }
}

#[test]
fn berlekamp_massey_locates_a_single_error() {
    // One error of value e at position p has the syndromes e * a^(i p); the
    // locator is 1 + a^p x.
    let gf = gf256();
    for p in [0usize, 1, 7, 100, 254] {
        for e in [1u8, 2, 0x53, 0xff] {
            let mut s = [0u8; MAX_POLY];
            for i in 0..10 {
                s[i] = gf.mul_exp(e, i * p);
            }
            let sigma = berlekamp_massey(&s, 10, &gf);
            assert_eq!(sigma[0], 1);
            assert_eq!(sigma[1], gf.mul_exp(1, p));
            assert!(sigma[2..].iter().all(|c| *c == 0));
        }
    }
}

#[test]
fn polynomial_evaluation() {
    let gf = gf256();
    let mut p = [0u8; MAX_POLY];
    p[0] = 7;
    p[1] = 1;
    p[3] = 2;
    // At zero the result is zero, whatever the constant term.
    assert_eq!(poly_eval(&p, 0, &gf), 0);
    assert_eq!(poly_eval(&p, 1, &gf), 7 ^ 1 ^ 2);
    // 7 + x + 2 x^3 at x = 2 is 7 + 2 + 16.
    assert_eq!(poly_eval(&p, 2, &gf), 7 ^ 2 ^ 16);
    let small = gf16();
    let mut q = [0u8; MAX_POLY];
    q[0] = 1;
    q[1] = 3;
    // 1 + 3 x at x = 3 is 1 + 5 in GF(16).
    assert_eq!(poly_eval(&q, 3, &small), 1 ^ 5);
}

#[test]
fn polynomial_scaled_addition() {
    let gf = gf256();
    let mut dst = [0u8; MAX_POLY];
    dst[0] = 1;
    dst[2] = 9;
    let mut src = [0u8; MAX_POLY];
    src[0] = 3;
    src[1] = 0x80;
    src[63] = 5;
    let before = dst;
    poly_add(&mut dst, &src, 0, 1, &gf);
    assert_eq!(dst, before);
    poly_add(&mut dst, &src, 2, 1, &gf);
    let mut want = before;
    want[1] ^= 6;
    want[2] ^= 0x1d;
    assert_eq!(dst, want);
    // A negative shift drops the low terms, a large one everything.
    let mut dst = [0u8; MAX_POLY];
    poly_add(&mut dst, &src, 1, -1, &gf);
    let mut want = [0u8; MAX_POLY];
    want[0] = 0x80;
    want[62] = 5;
    assert_eq!(dst, want);
    let mut dst = [0u8; MAX_POLY];
    poly_add(&mut dst, &src, 1, 64, &gf);
    assert_eq!(dst, [0u8; MAX_POLY]);
}

fn gf_mul(mut a: u8, mut b: u8) -> u8 {
    let mut r = 0u8;
    while b != 0 {
        if b & 1 != 0 {
            r ^= a;
        }
        let carry = a & 0x80 != 0;
        a <<= 1;
        if carry {
            a ^= 0x1d;
        }
        b >>= 1;
    }
    r
}

#[test]
fn table_multiplication_agrees_with_shift_and_reduce() {
    let gf = gf256();
    for a in 0..=255u8 {
        for b in [0u8, 1, 2, 3, 0x1d, 0x80, 0xfe, 0xff] {
            assert_eq!(gf.mul(a, b), gf_mul(a, b));
        }
    }
}

fn encode(data: &[u8], npar: usize) -> Vec<u8> {
    let mut gen = vec![1u8];
    let mut root = 1u8;
    for _ in 0..npar {
        let mut next = vec![0u8; gen.len() + 1];
        for (i, g) in gen.iter().enumerate() {
            next[i] ^= gf_mul(*g, root);
            next[i + 1] ^= *g;
        }
        gen = next;
        root = gf_mul(root, 2);
    }
    let mut rem = vec![0u8; npar];
    for d in data {
        let factor = d ^ rem[npar - 1];
        for i in (1..npar).rev() {
            rem[i] = rem[i - 1] ^ gf_mul(gen[i], factor);
        }
        rem[0] = gf_mul(gen[0], factor);
    }
    rem.reverse();
    let mut out = data.to_vec();
    out.extend(rem);
    out
}

#[test]
fn valid_block_is_left_alone() {
    let data: Vec<u8> = (0..16u8).map(|i| i.wrapping_mul(37).wrapping_add(5)).collect();
    let mut block = encode(&data, 10);
    let before = block.clone();
    let mut s = [0xaau8; MAX_POLY];
    assert!(!block_syndromes(&block, 26, 10, &mut s));
    assert!(s.iter().all(|v| *v == 0));
    let ecc = QuircRsParams { bs: 26, dw: 16, ns: 1 };
    assert_eq!(correct_block(&mut block, &ecc), QuircDecodeError::QuircSuccess);
    assert_eq!(block, before);
}

#[test]
fn block_errors_up_to_half_the_check_words_are_corrected() {
    let data: Vec<u8> = (0..19u8).map(|i| i.wrapping_mul(91).wrapping_add(3)).collect();
    let clean = encode(&data, 7);
    let ecc = QuircRsParams { bs: 26, dw: 19, ns: 1 };
    for a in 0..26 {
        for b in (a + 1..26).step_by(3) {
            for c in (b + 1..26).step_by(5) {
                let mut block = clean.clone();
                block[a] ^= 0x01;
                block[b] ^= 0xa5;
                block[c] ^= 0xff;
                assert_eq!(correct_block(&mut block, &ecc), QuircDecodeError::QuircSuccess);
                assert_eq!(block, clean);
            }
        }
    }
}

#[test]
fn block_with_too_many_errors_is_reported() {
    let data: Vec<u8> = (0..19u8).collect();
    let clean = encode(&data, 7);
    let ecc = QuircRsParams { bs: 26, dw: 19, ns: 1 };
    let mut failures = 0;
    for start in 0..20 {
        let mut block = clean.clone();
        for k in 0..5 {
            block[start + k] ^= 0x11 * (k as u8 + 1);
        }
        let err = correct_block(&mut block, &ecc);
        let mut s = [0u8; MAX_POLY];
        let nonzero = block_syndromes(&block, 26, 7, &mut s);
        match err {
            QuircDecodeError::QuircErrorDataEcc => {
                assert!(nonzero);
                failures += 1;
            }
            QuircDecodeError::QuircSuccess => assert!(!nonzero),
            other => panic!("unexpected outcome {:?}", other),
        }
    }
    assert!(failures > 0);
}

#[test]
fn error_evaluator_is_the_truncated_product() {
    // With the locator 1 + x and the syndromes 1, 2, 3, ... the evaluator
    // has the coefficients s[k + 1] + s[k].
    let mut s = [0u8; MAX_POLY];
    for i in 0..MAX_POLY {
        s[i] = i as u8 + 1;
    }
    let mut sigma = [0u8; MAX_POLY];
    sigma[0] = 1;
    sigma[1] = 1;
    let mut omega = [0x77u8; MAX_POLY];
    eloc_poly(&mut omega, &s, &sigma, 5);
    assert_eq!(omega[0], 2);
    for k in 1..5 {
        assert_eq!(omega[k], (k as u8 + 2) ^ (k as u8 + 1));
    }
    assert!(omega[5..].iter().all(|v| *v == 0));
}
