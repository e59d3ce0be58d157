use quirs::constants::{QUIRC_DATA_TYPE_BYTE, QUIRC_ECC_LEVEL_M, QUIRC_MAX_BITMAP, QUIRC_MAX_PAYLOAD};
use quirs::decode::decoder::{mask_bit, reserved_cell};
use quirs::error::QuircDecodeError;
use quirs::ops::{Quirc, QuircCode, QuircData, QuircPoint};
use quirs::version_db::{rs_params, VERSION_APAT, VERSION_DATA_BYTES};

fn gf_mul(mut a: u8, mut b: u8) -> u8 {
    let mut r = 0u8;
    while b != 0 {
        if b & 1 != 0 {
            r ^= a;
        }
        let carry = a & 0x80 != 0;
        a <<= 1;
        if carry {
            a ^= 0x1d;
        }
        b >>= 1;
    }
    r
}

fn rs_parity(data: &[u8], npar: usize) -> Vec<u8> {
    let mut gen = vec![1u8];
    let mut root = 1u8;
    for _ in 0..npar {
        let mut next = vec![0u8; gen.len() + 1];
        for (i, g) in gen.iter().enumerate() {
            next[i] ^= gf_mul(*g, root);
            next[i + 1] ^= *g;
        }
        gen = next;
        root = gf_mul(root, 2);
    }
    let mut rem = vec![0u8; npar];
    for d in data {
        let factor = d ^ rem[npar - 1];
        for i in (1..npar).rev() {
            rem[i] = rem[i - 1] ^ gf_mul(gen[i], factor);
        }
        rem[0] = gf_mul(gen[0], factor);
    }
    rem.reverse();
    rem
}

/// The modules of a whole symbol of one block that holds `text` as bytes:
/// `true` is black.
fn modules(version: u32, level: u8, mask: u8, text: &[u8]) -> Vec<Vec<bool>> {
    let size = (version * 4 + 17) as usize;
    let params = rs_params(version as usize, level as usize);
    assert_eq!(params.bs, VERSION_DATA_BYTES[version as usize], "one block only");
    let mut bits: Vec<bool> = Vec::new();
    let mut put = |value: u32, len: usize| {
        for i in (0..len).rev() {
            bits.push((value >> i) & 1 != 0);
        }
    };
    put(4, 4);
    put(text.len() as u32, 8);
    for b in text {
        put(*b as u32, 8);
    }
    put(0, 4);
    let mut data = vec![0u8; params.dw as usize];
    assert!(bits.len() <= data.len() * 8);
    for (i, bit) in bits.iter().enumerate() {
        if *bit {
            data[i / 8] |= 0x80 >> (i % 8);
        }
    }
    let mut pad = 0xecu8;
    for b in data.iter_mut().skip((bits.len() + 7) / 8) {
        *b = pad;
        pad = if pad == 0xec { 0x11 } else { 0xec };
    }
    let mut raw = data.clone();
    raw.extend(rs_parity(&data, (params.bs - params.dw) as usize));

    let mut m = vec![vec![false; size]; size];
    let mut n = 0usize;
    let mut x = size as i32 - 1;
    let mut up = true;
    while x > 0 {
        if x == 6 {
            x -= 1;
        }
        for r in 0..size as i32 {
            let y = if up { size as i32 - 1 - r } else { r };
            for col in [x, x - 1] {
                if reserved_cell(version, y as u32, col as u32) == 0 {
                    let bit = if n / 8 < raw.len() { (raw[n / 8] >> (7 - n % 8)) & 1 } else { 0 };
                    m[y as usize][col as usize] = bit ^ mask_bit(mask, y as u32, col as u32) != 0;
                    n += 1;
                }
            }
        }
        up = !up;
        x -= 2;
    }
    // Finder patterns.
    for (ox, oy) in [(0usize, 0usize), (size - 7, 0), (0, size - 7)] {
        for dy in 0..7 {
            for dx in 0..7 {
                let ring = dx == 0 || dx == 6 || dy == 0 || dy == 6;
                let stone = (2..5).contains(&dx) && (2..5).contains(&dy);
                m[oy + dy][ox + dx] = ring || stone;
            }
        }
    }
    // Timing patterns.
    for i in 8..size - 8 {
        m[6][i] = i % 2 == 0;
        m[i][6] = i % 2 == 0;
    }
    // Alignment patterns.
    let apat: Vec<usize> = VERSION_APAT[version as usize].iter().take_while(|a| **a != 0).map(|a| *a as usize).collect();
    for (i, cy) in apat.iter().enumerate() {
        for (j, cx) in apat.iter().enumerate() {
            let last = apat.len() - 1;
            if (i == 0 && j == 0) || (i == 0 && j == last) || (i == last && j == 0) {
                continue;
            }
            for dy in 0..5 {
                for dx in 0..5 {
                    let ring = dx == 0 || dx == 4 || dy == 0 || dy == 4;
                    m[cy - 2 + dy][cx - 2 + dx] = ring || (dx == 2 && dy == 2);
                }
            }
        }
    }
    m[size - 8][8] = true;
    // Format word, both copies.
    let fdata = ((level as u16) << 3) | mask as u16;
    let mut rem = fdata << 10;
    for i in (10..15).rev() {
        if rem & (1 << i) != 0 {
            rem ^= 0x537 << (i - 10);
        }
    }
    let word = ((fdata << 10) | rem) ^ 0x5412;
    let xs = [8usize, 8, 8, 8, 8, 8, 8, 8, 7, 5, 4, 3, 2, 1, 0];
    let ys = [0usize, 1, 2, 3, 4, 5, 7, 8, 8, 8, 8, 8, 8, 8, 8];
    for i in 0..15 {
        m[ys[i]][xs[i]] = word & (1 << i) != 0;
    }
    for i in 0..7 {
        m[size - 1 - i][8] = word & (1 << (14 - i)) != 0;
    }
    for i in 0..8 {
        m[8][size - 8 + i] = word & (1 << (7 - i)) != 0;
    }
    m
}

/// An image of the modules at `scale` pixels to the module, turned by
/// `turns` quarter turns, with a white margin of four modules.
fn render(m: &[Vec<bool>], scale: usize, turns: usize) -> (usize, Vec<u8>) {
    let size = m.len();
    let side = (size + 8) * scale;
    let mut image = vec![255u8; side * side];
    for y in 0..size {
        for x in 0..size {
            if m[y][x] {
                let (tx, ty) = match turns % 4 {
                    0 => (x, y),
                    1 => (size - 1 - y, x),
                    2 => (size - 1 - x, size - 1 - y),
                    _ => (y, size - 1 - x),
                };
                for dy in 0..scale {
                    for dx in 0..scale {
                        image[((ty + 4) * scale + dy) * side + (tx + 4) * scale + dx] = 40;
                    }
                }
            }
        }
    }
    (side, image)
}

/// The point of a parallelogram with the corner `o` and the edges to `u`
/// and to `v`, at the fractions `s` and `t` along them.
fn along(o: QuircPoint, u: QuircPoint, v: QuircPoint, s: f64, t: f64) -> QuircPoint {
    let x = o.x as f64 + (u.x - o.x) as f64 * s + (v.x - o.x) as f64 * t;
    let y = o.y as f64 + (u.y - o.y) as f64 * s + (v.y - o.y) as f64 * t;
    QuircPoint { x: x.round() as isize, y: y.round() as isize }
}

/// A point of a finder pattern in modules, from its corners. The corners
/// are pixels, so the pattern spans one pixel more than they do.
fn in_capstone(corners: &[QuircPoint; 4], u: f64, v: f64) -> QuircPoint {
    along(corners[0], corners[1], corners[3], u / 7.0, v / 7.0)
}

/// Finds the symbol in the image and reads it, with the geometry that a
/// symbol without perspective needs.
fn scan(side: usize, image: &[u8]) -> (Quirc, Option<QuircCode>) {
    let mut q = Quirc::new();
    q.resize(side, side);
    q.begin().copy_from_slice(image);
    q.find_capstones();
    if q.num_capstones != 3 {
        return (q, None);
    }
    for i in 0..3 {
        let c = q.capstones[i].corners;
        q.capstones[i].center = in_capstone(&c, 3.5, 3.5);
    }
    // The finder pattern at the right angle is the one nearest to both others.
    let dist = |a: QuircPoint, b: QuircPoint| (a.x - b.x).pow(2) + (a.y - b.y).pow(2);
    let c: Vec<QuircPoint> = (0..3).map(|i| q.capstones[i].center).collect();
    let b = (0..3).min_by_key(|i| dist(c[*i], c[(*i + 1) % 3]) + dist(c[*i], c[(*i + 2) % 3])).unwrap();
    let (a, d) = ((b + 1) % 3, (b + 2) % 3);
    assert!(q.can_group(a, b, d));
    let attempt = q.record_qr_grid(a, b, d).expect("room for a grid");
    let index = attempt.index;
    let caps = q.grids[index].caps;
    let corners: Vec<[QuircPoint; 4]> = (0..3).map(|i| q.capstones[caps[i] as usize].corners).collect();
    let tpep = [
        in_capstone(&corners[0], 6.5, 0.5),
        in_capstone(&corners[1], 6.5, 6.5),
        in_capstone(&corners[2], 0.5, 6.5),
    ];
    if !q.measure_grid(&attempt, &tpep) {
        return (q, None);
    }
    let grid = q.grids[index];
    assert!(q.has_grid_line(index));
    let one = (grid.grid_size - 7) as f64;
    // One module along each edge of the grid from the estimated corner.
    let a_point = QuircPoint {
        x: grid.align.x + ((corners[0][0].x - corners[1][0].x) as f64 / one).round() as isize,
        y: grid.align.y + ((corners[0][0].y - corners[1][0].y) as f64 / one).round() as isize,
    };
    let c_point = QuircPoint {
        x: grid.align.x + ((corners[2][0].x - corners[1][0].x) as f64 / one).round() as isize,
        y: grid.align.y + ((corners[2][0].y - corners[1][0].y) as f64 / one).round() as isize,
    };
    q.find_alignment_pattern(index, &a_point, &c_point);
    let grid = q.grids[index];
    let size = grid.grid_size as usize;
    let mut samples = Vec::new();
    for y in 0..size {
        for x in 0..size {
            // The cells from the corner of the middle finder pattern to the
            // corner of the alignment pattern; both are pixels at the near
            // edge of their module.
            let s = (x as f64 + 0.5) / one;
            let t = (y as f64 + 0.5) / one;
            let px = corners[1][0].x as f64
                + (corners[2][0].x - corners[1][0].x) as f64 * s
                + (corners[0][0].x - corners[1][0].x) as f64 * t;
            let py = corners[1][0].y as f64
                + (corners[2][0].y - corners[1][0].y) as f64 * s
                + (corners[0][0].y - corners[1][0].y) as f64 * t;
            samples.push(QuircPoint { x: px.round() as isize, y: py.round() as isize });
        }
    }
    let outline = [corners[1][0], corners[2][0], grid.align, corners[0][0]];
    let code = q.extract(index, &outline, &samples);
    (q, code)
}

fn decode(code: &QuircCode) -> (QuircDecodeError, QuircData) {
    let mut data = QuircData {
        version: 0,
        ecc_level: 0,
        mask: 0,
        data_type: 0,
        payload: [0u8; QUIRC_MAX_PAYLOAD],
        payload_len: 0,
        eci: 0,
    };
    let err = code.decode(&mut data);
    (err, data)
}

#[test]
fn a_rendered_symbol_is_found_and_read() {
    for (version, text) in [(1u32, &b"hello"[..]), (2, &b"Verified QR"[..]), (5, &b"a longer text, to fill version five"[..])] {
        for turns in 0..4 {
            for scale in [3usize, 4] {
                let m = modules(version, QUIRC_ECC_LEVEL_M + 1, 2, text);
                let (side, image) = render(&m, scale, turns);
                let (q, code) = scan(side, &image);
                assert_eq!(q.num_capstones, 3, "version {} turned {} at {}", version, turns, scale);
                assert_eq!(q.count(), 1);
                let code = code.expect("a symbol");
                assert_eq!(code.size, version * 4 + 17, "version {} turned {} at {}", version, turns, scale);
                let (err, data) = decode(&code);
                assert_eq!(err, QuircDecodeError::QuircSuccess, "version {} turned {} at {}", version, turns, scale);
                assert_eq!(data.version, version);
                assert_eq!(data.data_type, QUIRC_DATA_TYPE_BYTE);
                assert_eq!(&data.payload[..data.payload_len], text);
                // The bitmap holds the modules as they were drawn.
                for y in 0..m.len() {
                    for x in 0..m.len() {
                        let i = y * m.len() + x;
                        assert_eq!(code.cell_bitmap[i >> 3] & (1 << (i & 7)) != 0, m[y][x], "cell {} {}", x, y);
                    }
                }
            }
        }
    }
}

#[test]
fn extracting_twice_gives_the_same_symbol() {
    let m = modules(2, QUIRC_ECC_LEVEL_M, 0, b"twice");
    let (side, image) = render(&m, 4, 0);
    let (q, code) = scan(side, &image);
    let first = code.expect("a symbol");
    let size = first.size as usize;
    let grid = q.grids[0];
    let caps: Vec<[QuircPoint; 4]> = (0..3).map(|i| q.capstones[grid.caps[i] as usize].corners).collect();
    let one = (grid.grid_size - 7) as f64;
    let mut samples = Vec::new();
    for y in 0..size {
        for x in 0..size {
            let s = (x as f64 + 0.5) / one;
            let t = (y as f64 + 0.5) / one;
            let px = caps[1][0].x as f64 + (caps[2][0].x - caps[1][0].x) as f64 * s + (caps[0][0].x - caps[1][0].x) as f64 * t;
            let py = caps[1][0].y as f64 + (caps[2][0].y - caps[1][0].y) as f64 * s + (caps[0][0].y - caps[1][0].y) as f64 * t;
            samples.push(QuircPoint { x: px.round() as isize, y: py.round() as isize });
        }
    }
    let again = q.extract(0, &first.corners, &samples).expect("a symbol");
    assert_eq!(first, again);
    let third = q.extract(0, &first.corners, &samples).expect("a symbol");
    assert_eq!(again, third);
    assert!(q.extract(1, &first.corners, &samples).is_none());
}

#[test]
fn a_grid_that_cannot_be_measured_is_taken_back() {
    let m = modules(1, QUIRC_ECC_LEVEL_M, 0, b"x");
    let (side, image) = render(&m, 4, 0);
    let mut q = Quirc::new();
    q.resize(side, side);
    q.begin().copy_from_slice(&image);
    q.find_capstones();
    assert_eq!(q.num_capstones, 3);
    for i in 0..3 {
        let c = q.capstones[i].corners;
        q.capstones[i].center = in_capstone(&c, 3.5, 3.5);
    }
    let before = q.capstones;
    let regions = q.regions;
    let pixels = q.pixels.clone();
    let attempt = q.record_qr_grid(1, 0, 2).expect("room for a grid");
    assert_eq!(q.count(), 1);
    for i in 0..3 {
        assert_eq!(q.capstones[i].qr_grid, attempt.index as i32);
    }
    // The finder patterns were turned: not all of them kept their first corner.
    assert!((0..3).any(|i| q.capstones[i].corners != before[i].corners));
    let caps = q.grids[attempt.index].caps;
    for k in 0..3 {
        assert_eq!(attempt.corners[k], before[caps[k] as usize].corners);
    }
    let outside = QuircPoint { x: -5, y: -5 };
    assert!(!q.measure_grid(&attempt, &[outside, outside, outside]));
    // Nothing is left of the attempt.
    assert_eq!(q.count(), 0);
    assert!(q.capstones == before);
    assert!(q.regions == regions);
    assert_eq!(q.pixels, pixels);
}

#[test]
fn no_more_than_eight_grids_are_recorded() {
    let m = modules(1, QUIRC_ECC_LEVEL_M, 0, b"x");
    let (side, image) = render(&m, 3, 0);
    let mut q = Quirc::new();
    q.resize(side, side);
    q.begin().copy_from_slice(&image);
    q.find_capstones();
    assert_eq!(q.num_capstones, 3);
    for n in 0..8 {
        assert_eq!(q.record_qr_grid(0, 1, 2).map(|attempt| attempt.index), Some(n));
    }
    assert_eq!(q.record_qr_grid(0, 1, 2), None);
    assert_eq!(q.count(), 8);
}

#[test]
fn bitmap_bits_follow_the_cells() {
    let mut q = Quirc::new();
    q.resize(4, 4);
    q.begin();
    for (i, p) in q.pixels.iter_mut().enumerate() {
        *p = (i % 3 == 0) as u16;
    }
    q.num_grids = 1;
    q.grids[0].grid_size = 3;
    let mut samples = Vec::new();
    for y in 0..3 {
        for x in 0..3 {
            samples.push(QuircPoint { x, y });
        }
    }
    samples[8] = QuircPoint { x: 9, y: 9 };
    let corners = [QuircPoint { x: 1, y: 2 }; 4];
    let code = q.extract(0, &corners, &samples).unwrap();
    assert_eq!(code.size, 3);
    assert_eq!(code.corners, corners);
    // Pixels 0, 3, 6, 9 of the image are black: cells (0,0), (2,1), (1,2)... by index.
    let black: Vec<bool> = (0..9).map(|i| code.cell_bitmap[i >> 3] & (1 << (i & 7)) != 0).collect();
    let want: Vec<bool> = (0..9)
        .map(|i| {
            let (x, y) = (i % 3, i / 3);
            i != 8 && (y * 4 + x) % 3 == 0
        })
        .collect();
    assert_eq!(black, want);
    assert!(code.cell_bitmap[2..].iter().all(|b| *b == 0));
    assert_eq!(code.cell_bitmap.len(), QUIRC_MAX_BITMAP);
}
