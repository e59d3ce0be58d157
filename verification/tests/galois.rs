use quirs::decode::galois::{gf16, gf256, GF16_EXP, GF16_LOG, GF256_EXP, GF256_LOG};
use quirs::version_db::{rs_params, version_info, VERSION_DATA_BYTES};

#[test]
fn exp_and_log_are_inverse_in_gf16() {
    for x in 1..16usize {
        assert_eq!(GF16_EXP[(GF16_LOG[x] % 15) as usize] as usize, x);
    }
}

#[test]
fn exp_and_log_are_inverse_in_gf256() {
    for x in 1..256usize {
        assert_eq!(GF256_EXP[(GF256_LOG[x] as usize) % 255] as usize, x);
    }
}

#[test]
fn multiplication_by_one_is_identity() {
    let small = gf16();
    for x in 0..16u8 {
        assert_eq!(small.mul(x, 1), x);
    }
    let large = gf256();
    for x in 0..=255u8 {
        assert_eq!(large.mul(x, 1), x);
    }
}

#[test]
fn multiplication_known_products() {
    let large = gf256();
    assert_eq!(large.mul(2, 2), 4);
    assert_eq!(large.mul(0x80, 2), 0x1d);
    assert_eq!(large.mul(0, 77), 0);
    assert_eq!(large.mul(77, 0), 0);
    let small = gf16();
    assert_eq!(small.mul(8, 2), 3);
    assert_eq!(small.mul_exp(1, 4), 3);
}

#[test]
fn version_table_is_consistent() {
    for version in 1..=40usize {
        let info = version_info(version);
        assert_eq!(info.data_bytes, VERSION_DATA_BYTES[version]);
        for level in 0..4 {
            let p = rs_params(version, level);
            assert_eq!(p, info.ecc[level]);
            let large = (info.data_bytes - p.bs * p.ns) / (p.bs + 1);
            assert_eq!(p.bs * p.ns + large * (p.bs + 1), info.data_bytes);
            assert!(p.dw < p.bs);
        }
        // The alignment coordinates rise and end before the right edge.
        let size = 4 * version as u32 + 17;
        let coords: Vec<u32> = info.apat.iter().copied().take_while(|a| *a != 0).collect();
        assert!(coords.windows(2).all(|w| w[0] < w[1]));
        if version == 21 {
            // The table has the last pattern of this version two cells in.
            assert_eq!(coords, vec![6, 28, 50, 72, 92]);
        } else if version > 1 {
            assert_eq!(coords[0], 6);
            assert_eq!(*coords.last().unwrap(), size - 7);
        } else {
            assert!(coords.is_empty());
        }
    }
    let p = rs_params(1, 0);
    assert_eq!((p.bs, p.dw, p.ns), (26, 16, 1));
    let p = rs_params(40, 1);
    assert_eq!((p.bs, p.dw, p.ns), (148, 118, 19));
}
