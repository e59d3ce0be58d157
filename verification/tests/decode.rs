use quirs::constants::{
    QUIRC_DATA_TYPE_ALPHA, QUIRC_DATA_TYPE_BYTE, QUIRC_DATA_TYPE_KANJI, QUIRC_DATA_TYPE_NUMERIC,
    QUIRC_ECC_LEVEL_H, QUIRC_ECC_LEVEL_L, QUIRC_ECC_LEVEL_M, QUIRC_ECC_LEVEL_Q, QUIRC_MAX_BITMAP,
    QUIRC_MAX_PAYLOAD,
};
use quirs::decode::decoder::{mask_bit, reserved_cell};
use quirs::decode::format::correct_format;
use quirs::error::QuircDecodeError;
use quirs::ops::{QuircCode, QuircData, QuircPoint};
use quirs::version_db::{rs_params, VERSION_DATA_BYTES};

/// Multiplies in GF(2^8) by shifting and reducing, without any table.
fn gf_mul(mut a: u8, mut b: u8) -> u8 {
    let mut r = 0u8;
    while b != 0 {
        if b & 1 != 0 {
            r ^= a;
        }
        let carry = a & 0x80 != 0;
        a <<= 1;
        if carry {
            a ^= 0x1d;
        }
        b >>= 1;
    }
    r
}

/// The check words of a block of data words.
fn rs_parity(data: &[u8], npar: usize) -> Vec<u8> {
    let mut gen = vec![1u8];
    let mut root = 1u8;
    for _ in 0..npar {
        let mut next = vec![0u8; gen.len() + 1];
        for (i, g) in gen.iter().enumerate() {
            next[i] ^= gf_mul(*g, root);
            next[i + 1] ^= *g;
        }
        gen = next;
        root = gf_mul(root, 2);
    }
    // gen[i] is the coefficient of x^i; the leading one is 1.
    let mut rem = vec![0u8; npar];
    for d in data {
        let factor = d ^ rem[npar - 1];
        for i in (1..npar).rev() {
            rem[i] = rem[i - 1] ^ gf_mul(gen[i], factor);
        }
        rem[0] = gf_mul(gen[0], factor);
    }
    rem.reverse();
    rem
}

struct Bits {
    bits: Vec<bool>,
}

impl Bits {
    fn new() -> Bits {
        Bits { bits: Vec::new() }
    }

    fn put(&mut self, value: u32, len: usize) {
        for i in (0..len).rev() {
            self.bits.push((value >> i) & 1 != 0);
        }
    }

    fn bytes(&self, count: usize) -> Vec<u8> {
        let mut bits = self.bits.clone();
        assert!(bits.len() <= count * 8, "message too long for the symbol");
        for _ in 0..4 {
            if bits.len() < count * 8 {
                bits.push(false);
            }
        }
        while bits.len() % 8 != 0 {
            bits.push(false);
        }
        let mut out = Vec::new();
        for chunk in bits.chunks(8) {
            let mut b = 0u8;
            for bit in chunk {
                b = (b << 1) | (*bit as u8);
            }
            out.push(b);
        }
        let mut pad = 0xecu8;
        while out.len() < count {
            out.push(pad);
            pad = if pad == 0xec { 0x11 } else { 0xec };
        }
        out
    }
}

fn set_cell(code: &mut QuircCode, x: u32, y: u32, black: bool) {
    let i = (y * code.size + x) as usize;
    if black {
        code.cell_bitmap[i >> 3] |= 1 << (i & 7);
    } else {
        code.cell_bitmap[i >> 3] &= !(1 << (i & 7));
    }
}

fn format_word(level: u8, mask: u8) -> u16 {
    let fdata = ((level as u16) << 3) | mask as u16;
    let mut rem = fdata << 10;
    for i in (10..15).rev() {
        if rem & (1 << i) != 0 {
            rem ^= 0x537 << (i - 10);
        }
    }
    ((fdata << 10) | rem) ^ 0x5412
}

fn put_format(code: &mut QuircCode, word: u16) {
    let xs = [8u32, 8, 8, 8, 8, 8, 8, 8, 7, 5, 4, 3, 2, 1, 0];
    let ys = [0u32, 1, 2, 3, 4, 5, 7, 8, 8, 8, 8, 8, 8, 8, 8];
    for i in 0..15 {
        set_cell(code, xs[i], ys[i], word & (1 << i) != 0);
    }
    let size = code.size;
    for i in 0..7u32 {
        set_cell(code, 8, size - 1 - i, word & (1 << (14 - i)) != 0);
    }
    for i in 0..8u32 {
        set_cell(code, size - 8 + i, 8, word & (1 << (7 - i)) != 0);
    }
}

/// Draws the symbol that holds the data words `data`.
fn make_symbol(version: u32, level: u8, mask: u8, data: &[u8]) -> QuircCode {
    let size = version * 4 + 17;
    let origin = QuircPoint { x: 0, y: 0 };
    let mut code = QuircCode { corners: [origin; 4], size, cell_bitmap: [0u8; QUIRC_MAX_BITMAP] };

    let small = rs_params(version as usize, level as usize);
    let total = VERSION_DATA_BYTES[version as usize];
    let large_count = (total - small.bs * small.ns) / (small.bs + 1);
    let bc = (large_count + small.ns) as usize;
    let ecc_offset = (small.dw as usize) * bc + large_count as usize;
    let npar = (small.bs - small.dw) as usize;
    let mut raw = vec![0u8; total as usize];
    let mut at = 0usize;
    for i in 0..bc {
        let dw = if (i as u32) < small.ns { small.dw as usize } else { small.dw as usize + 1 };
        let block = &data[at..at + dw];
        at += dw;
        let parity = rs_parity(block, npar);
        for (j, b) in block.iter().enumerate() {
            raw[j * bc + i] = *b;
        }
        for (j, b) in parity.iter().enumerate() {
            raw[ecc_offset + j * bc + i] = *b;
        }
    }
    assert_eq!(at, data.len());

    let mut n = 0usize;
    let mut x = size as i32 - 1;
    let mut up = true;
    while x > 0 {
        if x == 6 {
            x -= 1;
        }
        for r in 0..size as i32 {
            let y = if up { size as i32 - 1 - r } else { r };
            for col in [x, x - 1] {
                if reserved_cell(version, y as u32, col as u32) == 0 {
                    let bit = if n / 8 < raw.len() { (raw[n / 8] >> (7 - n % 8)) & 1 } else { 0 };
                    let v = bit ^ mask_bit(mask, y as u32, col as u32);
                    set_cell(&mut code, col as u32, y as u32, v != 0);
                    n += 1;
                }
            }
        }
        up = !up;
        x -= 2;
    }
    put_format(&mut code, format_word(level, mask));
    code
}

/// The number of data words of a symbol.
fn data_words(version: u32, level: u8) -> usize {
    let small = rs_params(version as usize, level as usize);
    let total = VERSION_DATA_BYTES[version as usize];
    let large_count = (total - small.bs * small.ns) / (small.bs + 1);
    (small.dw * small.ns + (small.dw + 1) * large_count) as usize
}

fn blank() -> QuircData {
    QuircData {
        version: 0,
        ecc_level: 0,
        mask: 0,
        data_type: 0,
        payload: [0u8; QUIRC_MAX_PAYLOAD],
        payload_len: 0,
        eci: 0,
    }
}

fn numeric_bits(version: u32, digits: &str) -> Bits {
    let mut bits = Bits::new();
    bits.put(1, 4);
    let width = if version < 10 { 10 } else if version < 27 { 12 } else { 14 };
    bits.put(digits.len() as u32, width);
    let d: Vec<u32> = digits.bytes().map(|b| (b - b'0') as u32).collect();
    for group in d.chunks(3) {
        match group.len() {
            3 => bits.put(group[0] * 100 + group[1] * 10 + group[2], 10),
            2 => bits.put(group[0] * 10 + group[1], 7),
            _ => bits.put(group[0], 4),
        }
    }
    bits
}

fn payload_of(data: &QuircData) -> Vec<u8> {
    data.payload[..data.payload_len].to_vec()
}

#[test]
fn version_one_numeric_symbol_decodes() {
    let version = 1;
    let level = QUIRC_ECC_LEVEL_M;
    let bits = numeric_bits(version, "01234567");
    let code = make_symbol(version, level, 0, &bits.bytes(data_words(version, level)));
    assert_eq!(code.size, 21);
    let mut data = blank();
    assert_eq!(code.decode(&mut data), QuircDecodeError::QuircSuccess);
    assert_eq!(data.version, 1);
    assert_eq!(data.ecc_level, QUIRC_ECC_LEVEL_M);
    assert_eq!(data.mask, 0);
    assert_eq!(data.data_type, QUIRC_DATA_TYPE_NUMERIC);
    assert_eq!(payload_of(&data), b"01234567".to_vec());
    assert_eq!(data.payload[data.payload_len], 0);
    assert_eq!(data.eci, 0);
}

#[test]
fn every_mask_and_level_round_trips() {
    for level in [QUIRC_ECC_LEVEL_M, QUIRC_ECC_LEVEL_L, QUIRC_ECC_LEVEL_H, QUIRC_ECC_LEVEL_Q] {
        for mask in 0..8u8 {
            let bits = numeric_bits(3, "9876543210123");
            let code = make_symbol(3, level, mask, &bits.bytes(data_words(3, level)));
            let mut data = blank();
            assert_eq!(code.decode(&mut data), QuircDecodeError::QuircSuccess);
            assert_eq!(data.version, 3);
            assert_eq!(data.ecc_level, level);
            assert_eq!(data.mask, mask);
            assert_eq!(payload_of(&data), b"9876543210123".to_vec());
        }
    }
}

#[test]
fn large_versions_round_trip() {
    for version in [2u32, 7, 10, 14, 21, 27, 33, 40] {
        for level in [QUIRC_ECC_LEVEL_L, QUIRC_ECC_LEVEL_H] {
            let digits: String = (0..20).map(|i| char::from(b'0' + ((i * 7 + version as usize) % 10) as u8)).collect();
            let bits = numeric_bits(version, &digits);
            let code = make_symbol(version, level, (version % 8) as u8, &bits.bytes(data_words(version, level)));
            let mut data = blank();
            assert_eq!(code.decode(&mut data), QuircDecodeError::QuircSuccess, "version {}", version);
            assert_eq!(data.version, version);
            assert_eq!(data.ecc_level, level);
            assert_eq!(payload_of(&data), digits.as_bytes().to_vec());
            assert_eq!(data.data_type, QUIRC_DATA_TYPE_NUMERIC);
        }
    }
}

#[test]
fn alphanumeric_symbol_round_trips() {
    let text = b"HELLO WORLD $%*+-./:9";
    let map = b"0123456789ABCDEFGHIJKLMNOPQRSTUVWXYZ $%*+-./:";
    let code_of = |c: u8| map.iter().position(|m| *m == c).unwrap() as u32;
    let mut bits = Bits::new();
    bits.put(2, 4);
    bits.put(text.len() as u32, 9);
    for pair in text.chunks(2) {
        if pair.len() == 2 {
            bits.put(code_of(pair[0]) * 45 + code_of(pair[1]), 11);
        } else {
            bits.put(code_of(pair[0]), 6);
        }
    }
    let code = make_symbol(2, QUIRC_ECC_LEVEL_L, 3, &bits.bytes(data_words(2, QUIRC_ECC_LEVEL_L)));
    let mut data = blank();
    assert_eq!(code.decode(&mut data), QuircDecodeError::QuircSuccess);
    assert_eq!(data.data_type, QUIRC_DATA_TYPE_ALPHA);
    assert_eq!(payload_of(&data), text.to_vec());
}

#[test]
fn byte_symbol_round_trips_with_nul_bytes() {
    let text = [0u8, 1, 2, 0, 255, 128, b'q', b'r', 0];
    let mut bits = Bits::new();
    bits.put(4, 4);
    bits.put(text.len() as u32, 8);
    for b in text {
        bits.put(b as u32, 8);
    }
    let code = make_symbol(1, QUIRC_ECC_LEVEL_Q, 5, &bits.bytes(data_words(1, QUIRC_ECC_LEVEL_Q)));
    let mut data = blank();
    assert_eq!(code.decode(&mut data), QuircDecodeError::QuircSuccess);
    assert_eq!(data.data_type, QUIRC_DATA_TYPE_BYTE);
    assert_eq!(data.payload_len, 9);
    assert_eq!(payload_of(&data), text.to_vec());
}

#[test]
fn kanji_symbol_decodes_to_shift_jis() {
    // 0x935F and 0xE4AA are the two examples of the standard.
    let mut bits = Bits::new();
    bits.put(8, 4);
    bits.put(2, 8);
    bits.put(0x0d9f, 13);
    bits.put(0x1aaa, 13);
    let code = make_symbol(1, QUIRC_ECC_LEVEL_M, 1, &bits.bytes(data_words(1, QUIRC_ECC_LEVEL_M)));
    let mut data = blank();
    assert_eq!(code.decode(&mut data), QuircDecodeError::QuircSuccess);
    assert_eq!(data.data_type, QUIRC_DATA_TYPE_KANJI);
    assert_eq!(payload_of(&data), vec![0x93, 0x5f, 0xe4, 0xaa]);
}

#[test]
fn eci_designators_of_one_two_and_three_bytes() {
    for (first, extra_bits, extra, want) in
        [(26u32, 0usize, 0u32, 26u32), (0x80 | 0x12, 8, 0x34, 0x9234), (0xc0 | 0x01, 16, 0x2345, 0xc1_2345)]
    {
        let mut bits = Bits::new();
        bits.put(7, 4);
        bits.put(first, 8);
        if extra_bits > 0 {
            bits.put(extra, extra_bits);
        }
        bits.put(4, 4);
        bits.put(2, 8);
        bits.put(b'o' as u32, 8);
        bits.put(b'k' as u32, 8);
        let code = make_symbol(1, QUIRC_ECC_LEVEL_L, 2, &bits.bytes(data_words(1, QUIRC_ECC_LEVEL_L)));
        let mut data = blank();
        assert_eq!(code.decode(&mut data), QuircDecodeError::QuircSuccess);
        assert_eq!(data.eci, want);
        assert_eq!(data.data_type, QUIRC_DATA_TYPE_BYTE);
        assert_eq!(payload_of(&data), b"ok".to_vec());
    }
}

#[test]
fn highest_data_type_is_reported() {
    let mut bits = Bits::new();
    bits.put(4, 4);
    bits.put(1, 8);
    bits.put(b'x' as u32, 8);
    bits.put(1, 4);
    bits.put(1, 10);
    bits.put(7, 4);
    let code = make_symbol(1, QUIRC_ECC_LEVEL_L, 0, &bits.bytes(data_words(1, QUIRC_ECC_LEVEL_L)));
    let mut data = blank();
    assert_eq!(code.decode(&mut data), QuircDecodeError::QuircSuccess);
    assert_eq!(data.data_type, QUIRC_DATA_TYPE_BYTE);
    assert_eq!(payload_of(&data), b"x7".to_vec());
}

#[test]
fn errors_within_capacity_are_corrected() {
    let version = 5;
    let level = QUIRC_ECC_LEVEL_Q;
    let digits = "31415926535897932384626433832795028841971";
    let bits = numeric_bits(version, digits);
    let clean = make_symbol(version, level, 6, &bits.bytes(data_words(version, level)));
    // Version 5-Q has blocks with 18 check words: nine wrong codewords in one
    // block can be corrected. Flipping every bit of a run of cells in one column pair
    // damages only a few codewords.
    let mut code = clean;
    let mut damaged = 0;
    let size = code.size;
    for y in 12..size - 12 {
        for x in [size - 1, size - 2] {
            let i = (y * size + x) as usize;
            code.cell_bitmap[i >> 3] ^= 1 << (i & 7);
            damaged += 1;
        }
    }
    assert!(damaged > 8);
    let mut data = blank();
    assert_eq!(code.decode(&mut data), QuircDecodeError::QuircSuccess);
    assert_eq!(payload_of(&data), digits.as_bytes().to_vec());
}

#[test]
fn too_many_errors_fail_with_ecc_error() {
    let bits = numeric_bits(1, "01234567");
    let mut code = make_symbol(1, QUIRC_ECC_LEVEL_L, 0, &bits.bytes(data_words(1, QUIRC_ECC_LEVEL_L)));
    // Level L of version 1 has 7 check words. Damage the whole data area.
    let size = code.size;
    for y in 9..size {
        for x in 9..size {
            if (x + 2 * y) % 3 != 0 {
                let i = (y * size + x) as usize;
                code.cell_bitmap[i >> 3] ^= 1 << (i & 7);
            }
        }
    }
    let mut data = blank();
    assert_eq!(code.decode(&mut data), QuircDecodeError::QuircErrorDataEcc);
    assert_eq!(data.version, 1);
    assert_eq!(data.ecc_level, QUIRC_ECC_LEVEL_L);
    assert_eq!(data.payload_len, 0);
}

/// A pattern of wrong bits that takes the format word `word` to a word
/// that cannot be corrected.
fn fatal_damage(word: u16) -> u16 {
    for pattern in 1u16..0x7fff {
        if pattern.count_ones() == 4 {
            let mut w = (word ^ pattern) ^ 0x5412;
            if correct_format(&mut w) == QuircDecodeError::QuircErrorFormatEcc {
                return pattern;
            }
        }
    }
    panic!("every pattern of four wrong bits can be corrected");
}

#[test]
fn second_format_copy_is_used_when_first_is_destroyed() {
    let bits = numeric_bits(1, "42");
    let mut code = make_symbol(1, QUIRC_ECC_LEVEL_H, 7, &bits.bytes(data_words(1, QUIRC_ECC_LEVEL_H)));
    let xs = [8u32, 8, 8, 8, 8, 8, 8, 8, 7, 5, 4, 3, 2, 1, 0];
    let ys = [0u32, 1, 2, 3, 4, 5, 7, 8, 8, 8, 8, 8, 8, 8, 8];
    let pattern = fatal_damage(format_word(QUIRC_ECC_LEVEL_H, 7));
    for i in 0..15usize {
        if pattern & (1 << i) != 0 {
            let at = (ys[i] * code.size + xs[i]) as usize;
            code.cell_bitmap[at >> 3] ^= 1 << (at & 7);
        }
    }
    let mut data = blank();
    assert_eq!(code.decode(&mut data), QuircDecodeError::QuircSuccess);
    assert_eq!(data.ecc_level, QUIRC_ECC_LEVEL_H);
    assert_eq!(data.mask, 7);
    assert_eq!(payload_of(&data), b"42".to_vec());
}

#[test]
fn both_format_copies_destroyed_is_a_format_error() {
    let mut code = QuircCode {
        corners: [QuircPoint { x: 0, y: 0 }; 4],
        size: 21,
        cell_bitmap: [0u8; QUIRC_MAX_BITMAP],
    };
    let word = format_word(0, 0);
    put_format(&mut code, word ^ fatal_damage(word));
    let mut data = blank();
    data.payload_len = 7;
    data.eci = 3;
    assert_eq!(code.decode(&mut data), QuircDecodeError::QuircErrorFormatEcc);
    assert_eq!(data.version, 1);
    assert_eq!(data.payload_len, 0);
    assert_eq!(data.eci, 0);
}

#[test]
fn grid_sizes_are_checked() {
    let origin = QuircPoint { x: 0, y: 0 };
    for size in [0u32, 2, 3, 4, 18, 19, 20, 22, 23, 24, 176, 178, 1000] {
        let code = QuircCode { corners: [origin; 4], size, cell_bitmap: [0u8; QUIRC_MAX_BITMAP] };
        let mut data = blank();
        data.version = 99;
        assert_eq!(code.decode(&mut data), QuircDecodeError::QuircErrorInvalidGridSize, "size {}", size);
        assert_eq!(data.version, 99);
    }
    for size in [1u32, 5, 9, 13, 17, 181, 185, 1001] {
        let code = QuircCode { corners: [origin; 4], size, cell_bitmap: [0u8; QUIRC_MAX_BITMAP] };
        let mut data = blank();
        assert_eq!(code.decode(&mut data), QuircDecodeError::QuircErrorInvalidVersion, "size {}", size);
    }
}

#[test]
fn declared_length_beyond_the_stream_is_an_underflow() {
    let mut bits = Bits::new();
    bits.put(4, 4);
    bits.put(200, 8);
    bits.put(b'a' as u32, 8);
    let code = make_symbol(1, QUIRC_ECC_LEVEL_L, 0, &bits.bytes(data_words(1, QUIRC_ECC_LEVEL_L)));
    let mut data = blank();
    assert_eq!(code.decode(&mut data), QuircDecodeError::QuircErrorDataUnderflow);
}

#[test]
fn mask_bit_matches_the_eight_patterns() {
    for i in 0..12u32 {
        for j in 0..12u32 {
            assert_eq!(mask_bit(0, i, j), ((i + j) % 2 == 0) as u8);
            assert_eq!(mask_bit(1, i, j), (i % 2 == 0) as u8);
            assert_eq!(mask_bit(2, i, j), (j % 3 == 0) as u8);
            assert_eq!(mask_bit(3, i, j), ((i + j) % 3 == 0) as u8);
            assert_eq!(mask_bit(4, i, j), ((i / 2 + j / 3) % 2 == 0) as u8);
            assert_eq!(mask_bit(5, i, j), ((i * j) % 2 + (i * j) % 3 == 0) as u8);
            assert_eq!(mask_bit(6, i, j), (((i * j) % 2 + (i * j) % 3) % 2 == 0) as u8);
            assert_eq!(mask_bit(7, i, j), (((i * j) % 3 + (i + j) % 2) % 2 == 0) as u8);
            assert_eq!(mask_bit(8, i, j), 0);
        }
    }
    assert_eq!(mask_bit(5, u32::MAX, u32::MAX), 0);
}

#[test]
fn masking_twice_gives_the_bit_back() {
    for mask in 0..8u8 {
        for i in 0..30u32 {
            for j in 0..30u32 {
                for bit in 0..2u8 {
                    let m = mask_bit(mask, i, j);
                    assert_eq!((bit ^ m) ^ m, bit);
                }
            }
        }
    }
}

#[test]
fn reserved_cells_of_version_one() {
    // 21 x 21 cells: three finder areas of 9 x 9, 9 x 8 and 8 x 9 cells and the
    // two timing patterns leave 208 data cells, which hold 26 codewords.
    let mut free = 0;
    for i in 0..21 {
        for j in 0..21 {
            if reserved_cell(1, i, j) == 0 {
                free += 1;
            }
        }
    }
    assert_eq!(free, 26 * 8);
    assert_eq!(reserved_cell(1, 0, 0), 1);
    assert_eq!(reserved_cell(1, 8, 8), 1);
    assert_eq!(reserved_cell(1, 9, 9), 0);
    assert_eq!(reserved_cell(1, 6, 10), 1);
    assert_eq!(reserved_cell(1, 10, 6), 1);
    assert_eq!(reserved_cell(1, 20, 20), 0);
}

#[test]
fn reserved_cells_leave_room_for_all_codewords() {
    for version in 1..=40u32 {
        let size = version * 4 + 17;
        let mut free = 0u32;
        for i in 0..size {
            for j in 0..size {
                if reserved_cell(version, i, j) == 0 {
                    free += 1;
                }
            }
        }
        let total = VERSION_DATA_BYTES[version as usize];
        assert!(free >= total * 8 && free < total * 8 + 8, "version {}: {} cells", version, free);
    }
}

#[test]
fn alignment_patterns_are_reserved() {
    // Version 2 has one alignment pattern, centred on (18, 18).
    for i in 16..=20 {
        for j in 16..=20 {
            assert_eq!(reserved_cell(2, i, j), 1);
        }
    }
    assert_eq!(reserved_cell(2, 15, 18), 0);
    assert_eq!(reserved_cell(2, 18, 21), 0);
    // Version 7 has patterns at 6, 22 and 38, but none under the finders.
    assert_eq!(reserved_cell(7, 22, 22), 1);
    assert_eq!(reserved_cell(7, 22, 38), 1);
    assert_eq!(reserved_cell(7, 38, 38), 1);
    assert_eq!(reserved_cell(7, 22, 4), 1);
    assert_eq!(reserved_cell(7, 4, 22), 1);
    assert_eq!(reserved_cell(7, 26, 26), 0);
    // The version information of version 7 and up.
    assert_eq!(reserved_cell(7, 0, 34), 1);
    assert_eq!(reserved_cell(7, 34, 0), 1);
    assert_eq!(reserved_cell(6, 0, 30), 0);
}
