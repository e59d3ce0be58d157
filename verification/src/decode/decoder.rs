//! Reading a symbol: the format word, the data cells in their order, the
//! blocks of codewords, and at last the payload.

use crate::constants::QUIRC_MAX_PAYLOAD;
use crate::decode::datastream::Datastream;
use crate::decode::format::{correct_format, format_valid, spec_correct_format};
use crate::error::QuircDecodeError;
use crate::ops::{QuircCode, QuircData};
use crate::decode::err_corr::{block_valid, correct_block, spec_correct_block};
use crate::decode::payload::{decode_payload, spec_decode_payload, Scan};
use crate::version_db::{
    lemma_rs_params_fit, rs_params, spec_rs_params, QuircRsParams, QUIRC_MAX_ALIGNMENT,
    QUIRC_MAX_VERSION, VERSION_APAT, VERSION_DATA_BYTES,
};
use vstd::arithmetic::power2::{lemma2_to64, lemma_pow2_unfold, pow2};
use vstd::prelude::*;

verus! {

/// The largest number of modules on a side.
pub const QUIRC_MAX_SIZE: u32 = 177;

/// The columns of the cells of the first copy of the format word, from the
/// least significant bit.
pub const FORMAT_XS: [u32; 15] = [8, 8, 8, 8, 8, 8, 8, 8, 7, 5, 4, 3, 2, 1, 0];

/// The rows of the cells of the first copy of the format word, from the
/// least significant bit.
pub const FORMAT_YS: [u32; 15] = [0, 1, 2, 3, 4, 5, 7, 8, 8, 8, 8, 8, 8, 8, 8];

/// The word that is added to every format word before it is written.
pub const FORMAT_MASK: u16 = 0x5412;

/// Bit `p` of the bitmap: bit `p % 8` of byte `p / 8`, counted from the
/// least significant bit.
pub open spec fn bitmap_bit(bitmap: Seq<u8>, p: u32) -> u8 {
    (bitmap[(p / 8) as int] >> (p % 8)) & 1
}

/// The module in column `x` of row `y`: 1 for black, 0 for white.
pub open spec fn spec_grid_bit(code: QuircCode, x: int, y: int) -> u8 {
    bitmap_bit(code.cell_bitmap@, (y * code.size + x) as u32)
}

/// Whether the mask `mask` flips the module in row `i`, column `j`.
pub open spec fn spec_mask_bit(mask: u8, i: int, j: int) -> bool {
    if mask == 0 {
        (i + j) % 2 == 0
    } else if mask == 1 {
        i % 2 == 0
    } else if mask == 2 {
        j % 3 == 0
    } else if mask == 3 {
        (i + j) % 3 == 0
    } else if mask == 4 {
        (i / 2 + j / 3) % 2 == 0
    } else if mask == 5 {
        (i * j) % 2 + (i * j) % 3 == 0
    } else if mask == 6 {
        ((i * j) % 2 + (i * j) % 3) % 2 == 0
    } else if mask == 7 {
        ((i * j) % 3 + (i + j) % 2) % 2 == 0
    } else {
        false
    }
}

/// The number of alignment coordinates of a version among the first `n`
/// entries of its row of the table: those before the first zero.
pub open spec fn apat_count(version: int, n: int) -> int
    decreases n,
{
    if n <= 0 {
        0
    } else if apat_count(version, n - 1) == n - 1 && VERSION_APAT[version][n - 1] != 0 {
        n
    } else {
        apat_count(version, n - 1)
    }
}

/// The last of the first `n` alignment coordinates of a version that is
/// less than three modules from `coord`, or -1.
pub open spec fn apat_near(version: int, coord: int, n: int) -> int
    decreases n,
{
    if n <= 0 {
        -1
    } else if -3 < VERSION_APAT[version][n - 1] - coord < 3 {
        n - 1
    } else {
        apat_near(version, coord, n - 1)
    }
}

/// Whether the module in row `i`, column `j` holds no data in a symbol of
/// the given version: it is part of a finder pattern or of the format
/// information beside it, of a timing pattern, of the version information,
/// or of an alignment pattern. Alignment patterns stand at every crossing
/// of two alignment coordinates but the three that finder patterns take.
pub open spec fn spec_reserved_cell(version: int, i: int, j: int) -> bool {
    let size = version * 4 + 17;
    let n = apat_count(version, QUIRC_MAX_ALIGNMENT as int);
    let ai = apat_near(version, i, n);
    let aj = apat_near(version, j, n);
    ||| i < 9 && j < 9
    ||| i + 8 >= size && j < 9
    ||| i < 9 && j + 8 >= size
    ||| i == 6 || j == 6
    ||| version >= 7 && ((i < 6 && j + 11 >= size) || (i + 11 >= size && j < 6))
    ||| ai >= 0 && aj >= 0 && ((0 < ai < n - 1) || (0 < aj < n - 1) || (ai == n - 1 && aj == n - 1))
}

/// Says whether the mask flips a module: 1 if it does.
pub fn mask_bit(mask: u8, i: u32, j: u32) -> (bit: u8)
    ensures
        bit == if spec_mask_bit(mask, i as int, j as int) {
            1u8
        } else {
            0u8
        },
{
    let i = i as u64;
    let j = j as u64;
    assert(i * j <= 0xffff_ffff * 0xffff_ffff) by (nonlinear_arith)
        requires
            i <= 0xffff_ffff,
            j <= 0xffff_ffff,
    ;
    let flip = if mask == 0 {
        (i + j) % 2 == 0
    } else if mask == 1 {
        i % 2 == 0
    } else if mask == 2 {
        j % 3 == 0
    } else if mask == 3 {
        (i + j) % 3 == 0
    } else if mask == 4 {
        (i / 2 + j / 3) % 2 == 0
    } else if mask == 5 {
        (i * j) % 2 + (i * j) % 3 == 0
    } else if mask == 6 {
        ((i * j) % 2 + (i * j) % 3) % 2 == 0
    } else if mask == 7 {
        ((i * j) % 3 + (i + j) % 2) % 2 == 0
    } else {
        false
    };
    if flip {
        1
    } else {
        0
    }
}

/// Masking is its own inverse: a value that is masked twice with the same
/// mask at the same place is as it was.
pub proof fn lemma_mask_twice(value: u8, mask: u8, i: int, j: int)
    ensures
        ({
            let m = if spec_mask_bit(mask, i, j) {
                1u8
            } else {
                0u8
            };
            (value ^ m) ^ m == value
        }),
{
    assert((value ^ 1u8) ^ 1u8 == value) by (bit_vector);
    assert((value ^ 0u8) ^ 0u8 == value) by (bit_vector);
}

pub proof fn lemma_apat_count_stops(version: int, a: int, n: int)
    requires
        0 <= a < n,
        apat_count(version, a) == a,
        VERSION_APAT[version][a] == 0,
    ensures
        apat_count(version, n) == a,
    decreases n,
{
    if n > a + 1 {
        lemma_apat_count_stops(version, a, n - 1);
    }
}

/// Says whether a module holds no data: 1 if it is reserved.
pub fn reserved_cell(version: u32, i: u32, j: u32) -> (reserved: u8)
    requires
        version <= QUIRC_MAX_VERSION,
    ensures
        reserved == if spec_reserved_cell(version as int, i as int, j as int) {
            1u8
        } else {
            0u8
        },
{
    let size = (version * 4 + 17) as i64;
    let row = i as i64;
    let col = j as i64;
    if row < 9 && col < 9 {
        return 1;
    }
    if row + 8 >= size && col < 9 {
        return 1;
    }
    if row < 9 && col + 8 >= size {
        return 1;
    }
    if row == 6 || col == 6 {
        return 1;
    }
    if version >= 7 {
        if row < 6 && col + 11 >= size {
            return 1;
        }
        if row + 11 >= size && col < 6 {
            return 1;
        }
    }
    let apat = VERSION_APAT[version as usize];
    let mut ai: i64 = -1;
    let mut aj: i64 = -1;
    let mut a: usize = 0;
    while a < QUIRC_MAX_ALIGNMENT && apat[a] != 0
        invariant
            a <= QUIRC_MAX_ALIGNMENT,
            version <= QUIRC_MAX_VERSION,
            apat == VERSION_APAT[version as int],
            row == i,
            col == j,
            apat_count(version as int, a as int) == a,
            ai == apat_near(version as int, i as int, a as int),
            aj == apat_near(version as int, j as int, a as int),
        decreases QUIRC_MAX_ALIGNMENT - a,
    {
        let p = apat[a] as i64;
        if -3 < p - row && p - row < 3 {
            ai = a as i64;
        }
        if -3 < p - col && p - col < 3 {
            aj = a as i64;
        }
        a += 1;
    }
    proof {
        if a < QUIRC_MAX_ALIGNMENT {
            lemma_apat_count_stops(version as int, a as int, QUIRC_MAX_ALIGNMENT as int);
        }
    }
    if ai >= 0 && aj >= 0 {
        let last = a as i64 - 1;
        if ai > 0 && ai < last {
            return 1;
        }
        if aj > 0 && aj < last {
            return 1;
        }
        if aj == last && ai == last {
            return 1;
        }
    }
    0
}

proof fn lemma_bit_is_small(b: u8, k: u32)
    ensures
        (b >> k) & 1 <= 1,
{
    assert((b >> k) & 1 <= 1) by (bit_vector);
}

impl QuircCode {
    /// Reads the module in column `x` of row `y`: 1 for black.
    pub fn grid_bit(&self, x: u32, y: u32) -> (bit: u8)
        requires
            x < self.size,
            y < self.size,
            self.size <= QUIRC_MAX_SIZE,
        ensures
            bit == spec_grid_bit(*self, x as int, y as int),
            bit <= 1,
    {
        assert(y * self.size + x < 177 * 177) by (nonlinear_arith)
            requires
                x < self.size,
                y < self.size,
                self.size <= 177,
        ;
        let p = y * self.size + x;
        proof {
            lemma_bit_is_small(self.cell_bitmap@[(p / 8) as int], p % 8);
        }
        (self.cell_bitmap[(p / 8) as usize] >> (p % 8)) & 1
    }
}

/// The column and the row of the cell that holds bit `k` of a copy of the
/// format word, counted from the most significant bit. The copy `which == 0`
/// lies around the top left finder pattern, the other is split between the
/// bottom left and the top right.
pub open spec fn format_cell(size: int, which: int, k: int) -> (int, int) {
    if which != 0 {
        if k < 7 {
            (8, size - 1 - k)
        } else {
            (size - 8 + (k - 7), 8)
        }
    } else {
        (FORMAT_XS[14 - k] as int, FORMAT_YS[14 - k] as int)
    }
}

/// The number that the first `n` bits of a copy of the format word spell.
pub open spec fn format_bits(code: QuircCode, which: int, n: int) -> int
    decreases n,
{
    if n <= 0 {
        0
    } else {
        let cell = format_cell(code.size as int, which, n - 1);
        2 * format_bits(code, which, n - 1) + spec_grid_bit(code, cell.0, cell.1)
    }
}

/// A copy of the format word as the cells give it, with the fixed mask
/// taken off.
pub open spec fn raw_format(code: QuircCode, which: int) -> u16 {
    (format_bits(code, which, 15) as u16) ^ FORMAT_MASK
}

/// The error-correction level that a format word gives.
pub open spec fn format_ecc_level(f: u16) -> u8 {
    ((f >> 10u16) >> 3u16) as u8
}

/// The mask that a format word gives.
pub open spec fn format_mask(f: u16) -> u8 {
    ((f >> 10u16) & 7u16) as u8
}

/// The value of a data cell: the module with the mask taken off.
pub open spec fn cell_value(code: QuircCode, mask: u8, i: int, j: int) -> bool {
    spec_grid_bit(code, j, i) ^ (if spec_mask_bit(mask, i, j) {
        1u8
    } else {
        0u8
    }) != 0
}

/// The bits that row `y` gives in the pair of columns `x` and `x - 1`:
/// the right cell before the left, and neither if it is reserved.
pub open spec fn pair_bits(code: QuircCode, version: int, mask: u8, y: int, x: int) -> Seq<bool> {
    let right = if spec_reserved_cell(version, y, x) {
        Seq::<bool>::empty()
    } else {
        seq![cell_value(code, mask, y, x)]
    };
    let left = if spec_reserved_cell(version, y, x - 1) {
        Seq::<bool>::empty()
    } else {
        seq![cell_value(code, mask, y, x - 1)]
    };
    right + left
}

/// The bits that the first `r` rows give in the pair of columns `x` and
/// `x - 1`, going up from the bottom row or down from the top row.
pub open spec fn column_bits(code: QuircCode, version: int, mask: u8, x: int, up: bool, r: int) -> Seq<bool>
    decreases r,
{
    if r <= 0 {
        Seq::<bool>::empty()
    } else {
        let y = if up {
            code.size - r
        } else {
            r - 1
        };
        column_bits(code, version, mask, x, up, r - 1) + pair_bits(code, version, mask, y, x)
    }
}

/// The bits from the pair of columns at `x` to the left edge. The sweep
/// changes direction with every pair and steps over column 6, which holds
/// a timing pattern.
pub open spec fn sweep_bits(code: QuircCode, version: int, mask: u8, x: int, up: bool) -> Seq<bool>
    decreases x + 1,
{
    if x <= 0 {
        Seq::<bool>::empty()
    } else {
        let col = if x == 6 {
            5
        } else {
            x
        };
        column_bits(code, version, mask, col, up, code.size as int) + sweep_bits(
            code,
            version,
            mask,
            col - 2,
            !up,
        )
    }
}

/// The data bits of a symbol in the order in which they are read: from
/// the bottom right corner upwards.
pub open spec fn spec_read_data(code: QuircCode, version: int, mask: u8) -> Seq<bool> {
    sweep_bits(code, version, mask, code.size - 1, true)
}

/// The first `n` of the bits `bits` as bytes, the first bit being the most
/// significant of the first byte, in a room of zero bytes.
pub open spec fn pack_bits(bits: Seq<bool>, n: int) -> Seq<u8>
    decreases n,
{
    if n <= 0 {
        Seq::new(QUIRC_MAX_PAYLOAD as nat, |i: int| 0u8)
    } else {
        let prev = pack_bits(bits, n - 1);
        if bits[n - 1] {
            prev.update((n - 1) / 8, prev[(n - 1) / 8] | (0x80u8 >> (((n - 1) % 8) as u32)))
        } else {
            prev
        }
    }
}

/// The bytes depend on the bits that are packed only.
pub proof fn lemma_pack_prefix(a: Seq<bool>, b: Seq<bool>, n: int)
    requires
        forall|k: int| 0 <= k < n ==> a[k] == b[k],
    ensures
        pack_bits(a, n) == pack_bits(b, n),
    decreases n,
{
    if n > 0 {
        lemma_pack_prefix(a, b, n - 1);
    }
}

proof fn lemma_format_bits_bound(code: QuircCode, which: int, n: int)
    requires
        0 <= n,
    ensures
        0 <= format_bits(code, which, n) < pow2(n as nat),
    decreases n,
{
    if n > 0 {
        lemma_format_bits_bound(code, which, n - 1);
        lemma_pow2_unfold(n as nat);
        let cell = format_cell(code.size as int, which, n - 1);
        let p = (cell.1 * code.size + cell.0) as u32;
        lemma_bit_is_small(code.cell_bitmap@[(p / 8) as int], p % 8);
    } else {
        lemma2_to64();
    }
}

proof fn lemma_format_fields(f: u16)
    requires
        f < 0x8000,
    ensures
        f ^ FORMAT_MASK < 0x8000,
        format_ecc_level(f) < 4,
        format_mask(f) < 8,
        format_ecc_level(f) == (f >> 10u16) >> 3u16,
        format_mask(f) == (f >> 10u16) & 7u16,
{
    assert(f < 0x8000 ==> f ^ 0x5412u16 < 0x8000) by (bit_vector);
    assert(f < 0x8000 ==> (f >> 10u16) >> 3u16 < 4) by (bit_vector);
    assert((f >> 10u16) & 7u16 < 8) by (bit_vector);
}

impl QuircCode {
    /// Reads one copy of the format word, corrects it and stores the
    /// error-correction level and the mask that it gives. A word that
    /// cannot be corrected leaves the record as it is.
    pub fn read_format(&self, data: &mut QuircData, which: u32) -> (err: QuircDecodeError)
        requires
            21 <= self.size <= QUIRC_MAX_SIZE,
        ensures
            match spec_correct_format(raw_format(*self, which as int)) {
                Some(f) => err == QuircDecodeError::QuircSuccess && *final(data) == (QuircData {
                    ecc_level: format_ecc_level(f),
                    mask: format_mask(f),
                    ..*old(data)
                }) && format_ecc_level(f) < 4 && format_mask(f) < 8,
                None => err == QuircDecodeError::QuircErrorFormatEcc && *final(data) == *old(data),
            },
    {
        let mut format: u16 = 0;
        let mut k: u32 = 0;
        while k < 15
            invariant
                k <= 15,
                21 <= self.size <= QUIRC_MAX_SIZE,
                format == format_bits(*self, which as int, k as int),
            decreases 15 - k,
        {
            let x: u32;
            let y: u32;
            if which != 0 {
                if k < 7 {
                    x = 8;
                    y = self.size - 1 - k;
                } else {
                    x = self.size - 8 + (k - 7);
                    y = 8;
                }
            } else {
                x = FORMAT_XS[(14 - k) as usize];
                y = FORMAT_YS[(14 - k) as usize];
            }
            proof {
                lemma_format_bits_bound(*self, which as int, k as int);
                lemma2_to64();
                if k < 14 {
                    vstd::arithmetic::power2::lemma_pow2_strictly_increases(k as nat, 14);
                }
            }
            format = format * 2 + self.grid_bit(x, y) as u16;
            k += 1;
        }
        proof {
            lemma_format_bits_bound(*self, which as int, 15);
            lemma2_to64();
            lemma_format_fields(format);
        }
        format ^= FORMAT_MASK;

        let err = correct_format(&mut format);
        if err != QuircDecodeError::QuircSuccess {
            return err;
        }
        proof {
            lemma_format_fields(format);
        }
        let fdata: u16 = format >> 10u16;
        data.ecc_level = (fdata >> 3u16) as u8;
        data.mask = (fdata & 7u16) as u8;
        QuircDecodeError::QuircSuccess
    }

    /// Appends the value of the cell in row `i`, column `j` to the raw bits
    /// of the stream.
    pub fn read_bit(&self, data: &QuircData, ds: &mut Datastream, i: u32, j: u32)
        requires
            i < self.size,
            j < self.size,
            self.size <= QUIRC_MAX_SIZE,
            old(ds).data_bits < 8 * QUIRC_MAX_PAYLOAD,
        ensures
            final(ds).data_bits == old(ds).data_bits + 1,
            final(ds).ptr == old(ds).ptr,
            final(ds).data == old(ds).data,
            final(ds).raw@ == if cell_value(*self, data.mask, i as int, j as int) {
                old(ds).raw@.update(
                    old(ds).data_bits as int / 8,
                    old(ds).raw@[old(ds).data_bits as int / 8] | (0x80u8 >> (old(ds).data_bits % 8)),
                )
            } else {
                old(ds).raw@
            },
    {
        let bitpos = ds.data_bits % 8;
        let bytepos = (ds.data_bits / 8) as usize;
        let mut v = self.grid_bit(j, i);
        v ^= mask_bit(data.mask, i, j);
        if v != 0 {
            ds.raw[bytepos] |= 0x80u8 >> bitpos;
        }
        ds.data_bits += 1;
    }

    /// Reads the data cells of the symbol into the raw bits of the stream,
    /// which must be empty.
    pub fn read_data(&self, data: &QuircData, ds: &mut Datastream)
        requires
            21 <= self.size <= QUIRC_MAX_SIZE,
            data.version <= QUIRC_MAX_VERSION,
            old(ds).data_bits == 0,
            old(ds).raw@ == pack_bits(Seq::<bool>::empty(), 0),
        ensures
            final(ds).raw@ == pack_bits(
                spec_read_data(*self, data.version as int, data.mask),
                spec_read_data(*self, data.version as int, data.mask).len() as int,
            ),
            final(ds).data_bits == spec_read_data(*self, data.version as int, data.mask).len(),
            final(ds).data_bits <= 177 * 177,
            final(ds).ptr == old(ds).ptr,
            final(ds).data == old(ds).data,
    {
        let size = self.size as i32;
        let mut x: i32 = size - 1;
        let mut up = true;
        let ghost all = spec_read_data(*self, data.version as int, data.mask);
        let ghost mut done = Seq::<bool>::empty();
        proof {
            assert(done + sweep_bits(*self, data.version as int, data.mask, x as int, up) =~= all);
        }
        while x > 0
            invariant
                -1 <= x < size,
                size == self.size,
                21 <= self.size <= QUIRC_MAX_SIZE,
                data.version <= QUIRC_MAX_VERSION,
                ds.ptr == old(ds).ptr,
                ds.data == old(ds).data,
                ds.data_bits == done.len(),
                ds.data_bits <= 177 * (size - 1 - x),
                ds.raw@ == pack_bits(done, done.len() as int),
                all == spec_read_data(*self, data.version as int, data.mask),
                done + sweep_bits(*self, data.version as int, data.mask, x as int, up) == all,
            decreases x + 1,
        {
            if x == 6 {
                x -= 1;
            }
            let ghost at_start = done;
            let mut r: i32 = 0;
            while r < size
                invariant
                    0 <= r <= size,
                    1 <= x < size,
                    size == self.size,
                    21 <= self.size <= QUIRC_MAX_SIZE,
                    data.version <= QUIRC_MAX_VERSION,
                    ds.ptr == old(ds).ptr,
                    ds.data == old(ds).data,
                    ds.data_bits == done.len(),
                    ds.data_bits <= 177 * (size - 1 - x) + 2 * r,
                    ds.raw@ == pack_bits(done, done.len() as int),
                    done == at_start + column_bits(*self, data.version as int, data.mask, x as int, up, r as int),
                decreases size - r,
            {
                let y = if up {
                    size - 1 - r
                } else {
                    r
                };
                let ghost before = done;
                if reserved_cell(data.version, y as u32, x as u32) == 0 {
                    self.read_bit(data, ds, y as u32, x as u32);
                    proof {
                        done = done.push(cell_value(*self, data.mask, y as int, x as int));
                        lemma_pack_prefix(done, before, before.len() as int);
                    }
                }
                let ghost middle = done;
                if reserved_cell(data.version, y as u32, x as u32 - 1) == 0 {
                    self.read_bit(data, ds, y as u32, x as u32 - 1);
                    proof {
                        done = done.push(cell_value(*self, data.mask, y as int, x as int - 1));
                        lemma_pack_prefix(done, middle, middle.len() as int);
                    }
                }
                proof {
                    assert(done =~= before + pair_bits(*self, data.version as int, data.mask, y as int, x as int));
                    assert(done =~= at_start + column_bits(
                        *self,
                        data.version as int,
                        data.mask,
                        x as int,
                        up,
                        r as int + 1,
                    ));
                }
                r += 1;
            }
            proof {
                assert(done + sweep_bits(*self, data.version as int, data.mask, x as int - 2, !up) =~= all);
            }
            up = !up;
            x -= 2;
        }
        proof {
            assert(done =~= all);
        }
    }
}

/// The number of blocks that are one codeword longer than the small ones.
pub open spec fn large_count(version: int, level: int) -> int {
    let small = spec_rs_params(version, level);
    (VERSION_DATA_BYTES[version] - small.bs * small.ns) / (small.bs + 1)
}

/// The number of blocks of a symbol. The small blocks come first.
pub open spec fn block_count(version: int, level: int) -> int {
    large_count(version, level) + spec_rs_params(version, level).ns
}

/// The number of codewords of block `i`.
pub open spec fn block_size(version: int, level: int, i: int) -> int {
    if i < spec_rs_params(version, level).ns {
        spec_rs_params(version, level).bs as int
    } else {
        spec_rs_params(version, level).bs + 1
    }
}

/// The number of data words of block `i`.
pub open spec fn block_data_words(version: int, level: int, i: int) -> int {
    if i < spec_rs_params(version, level).ns {
        spec_rs_params(version, level).dw as int
    } else {
        spec_rs_params(version, level).dw + 1
    }
}

/// The number of data words of the blocks before block `i`.
pub open spec fn block_start(version: int, level: int, i: int) -> int
    decreases i,
{
    if i <= 0 {
        0
    } else {
        block_start(version, level, i - 1) + block_data_words(version, level, i - 1)
    }
}

/// Block `i` as the raw codewords hold it, in a room of 256 codewords.
/// The blocks are interleaved: word `j` of every block comes before word
/// `j + 1` of any, and the check words follow all data words.
pub open spec fn block_words(raw: Seq<u8>, version: int, level: int, i: int) -> Seq<u8> {
    let bc = block_count(version, level);
    let dw = block_data_words(version, level, i);
    let bs = block_size(version, level, i);
    let ecc_offset = spec_rs_params(version, level).dw * bc + large_count(version, level);
    Seq::new(
        256,
        |j: int|
            if j < dw {
                raw[j * bc + i]
            } else if j < bs {
                raw[ecc_offset + (j - dw) * bc + i]
            } else {
                0u8
            },
    )
}

/// Block `i` after correction.
pub open spec fn block_corrected(raw: Seq<u8>, version: int, level: int, i: int) -> Seq<u8> {
    spec_correct_block(
        block_words(raw, version, level, i),
        block_size(version, level, i),
        block_data_words(version, level, i),
    )
}

/// Whether correction makes block `i` a word of the code.
pub open spec fn block_ok(raw: Seq<u8>, version: int, level: int, i: int) -> bool {
    block_valid(
        block_corrected(raw, version, level, i),
        block_size(version, level, i),
        block_size(version, level, i) - block_data_words(version, level, i),
    )
}

/// The data `data` with the first `n` blocks written to it after
/// correction, each where its data words belong. The check words of a
/// block lie where the next block is written.
pub open spec fn placed_blocks(raw: Seq<u8>, data: Seq<u8>, version: int, level: int, n: int) -> Seq<u8>
    decreases n,
{
    if n <= 0 {
        data
    } else {
        let prev = placed_blocks(raw, data, version, level, n - 1);
        let block = block_corrected(raw, version, level, n - 1);
        let at = block_start(version, level, n - 1);
        Seq::new(
            prev.len(),
            |k: int|
                if at <= k < at + block_size(version, level, n - 1) {
                    block[k - at]
                } else {
                    prev[k]
                },
        )
    }
}

/// The first of the first `n` blocks that correction cannot mend, or `n`.
pub open spec fn first_bad_block(raw: Seq<u8>, version: int, level: int, n: int) -> int
    decreases n,
{
    if n <= 0 {
        0
    } else if first_bad_block(raw, version, level, n - 1) < n - 1 {
        first_bad_block(raw, version, level, n - 1)
    } else if block_ok(raw, version, level, n - 1) {
        n
    } else {
        n - 1
    }
}

proof fn lemma_first_bad_stays(raw: Seq<u8>, version: int, level: int, n: int, m: int)
    requires
        0 <= n <= m,
        first_bad_block(raw, version, level, n) < n,
    ensures
        first_bad_block(raw, version, level, m) == first_bad_block(raw, version, level, n),
    decreases m,
{
    if m > n {
        lemma_first_bad_stays(raw, version, level, n, m - 1);
    }
}

/// What the layout of the blocks gives: all codewords of all blocks lie
/// in the raw codewords of the version, and so do the data words of as
/// many blocks of the larger size.
#[verifier::opaque]
pub open spec fn layout_fits(version: int, level: int) -> bool {
    let small = spec_rs_params(version, level);
    let bc = block_count(version, level);
    let lb = large_count(version, level);
    &&& 0 <= lb
    &&& 0 < bc
    &&& small.bs * bc + lb <= VERSION_DATA_BYTES[version]
    &&& (small.dw + 1) * bc <= VERSION_DATA_BYTES[version]
    &&& small.dw * bc + lb + (small.bs - small.dw) * bc == small.bs * bc + lb
}

proof fn lemma_layout(bs: int, dw: int, ns: int, total: int, lb: int, bc: int)
    by (nonlinear_arith)
    requires
        0 < dw < bs,
        0 < ns,
        bs * ns <= total,
        lb == (total - bs * ns) / (bs + 1),
        bc == lb + ns,
    ensures
        0 <= lb,
        0 < bc,
        bs * bc + lb <= total,
        (dw + 1) * bc <= total,
        dw * bc + lb + (bs - dw) * bc == bs * bc + lb,
{
}

/// The layout of every version at every level fits.
pub proof fn lemma_layout_fits(version: int, level: int)
    requires
        1 <= version <= QUIRC_MAX_VERSION,
        0 <= level < 4,
    ensures
        layout_fits(version, level),
{
    reveal(layout_fits);
    lemma_rs_params_fit(version, level);
    let small = spec_rs_params(version, level);
    lemma_layout(
        small.bs as int,
        small.dw as int,
        small.ns as int,
        VERSION_DATA_BYTES[version] as int,
        large_count(version, level),
        block_count(version, level),
    );
}

/// Word `j` of block `i` lies among the first `rows * bc` raw codewords.
proof fn lemma_word_index(j: int, i: int, bc: int, rows: int)
    by (nonlinear_arith)
    requires
        0 <= j < rows,
        0 <= i < bc,
    ensures
        0 <= j * bc + i < rows * bc,
{
}

/// The data words of the first `i` blocks are fewer than those of as many
/// blocks of the larger size.
proof fn lemma_start_bound(version: int, level: int, i: int)
    requires
        1 <= version <= QUIRC_MAX_VERSION,
        0 <= level < 4,
        0 <= i <= block_count(version, level),
    ensures
        0 <= block_start(version, level, i) <= i * (spec_rs_params(version, level).dw + 1),
        block_start(version, level, i) <= VERSION_DATA_BYTES[version] <= 3706,
    decreases i,
{
    let dw = spec_rs_params(version, level).dw as int;
    let bc = block_count(version, level);
    lemma_rs_params_fit(version, level);
    lemma_layout_fits(version, level);
    reveal(layout_fits);
    if i > 0 {
        lemma_start_bound(version, level, i - 1);
        assert(i * (dw + 1) == (i - 1) * (dw + 1) + dw + 1) by (nonlinear_arith);
    }
    assert(i * (dw + 1) <= (dw + 1) * bc) by (nonlinear_arith)
        requires
            0 <= i <= bc,
            0 < dw,
    ;
}

/// Gathers block `i` from the raw codewords.
fn gather_block(ds: &Datastream, version: u32, level: u8, i: usize) -> (block: [u8; 256])
    requires
        1 <= version <= QUIRC_MAX_VERSION,
        level < 4,
        i < block_count(version as int, level as int),
    ensures
        block@ == block_words(ds.raw@, version as int, level as int, i as int),
{
    let ghost v = version as int;
    let ghost l = level as int;
    let ghost raw = ds.raw@;
    let small = rs_params(version as usize, level as usize);
    let total = VERSION_DATA_BYTES[version as usize] as usize;
    proof {
        lemma_rs_params_fit(v, l);
        lemma_layout_fits(v, l);
        reveal(layout_fits);
    }
    let bs = small.bs as usize;
    let dw = small.dw as usize;
    let ns = small.ns as usize;
    let lb_count = (total - bs * ns) / (bs + 1);
    let bc = lb_count + ns;
    let ecc_offset = dw * bc + lb_count;
    let block_dw = if i < ns {
        dw
    } else {
        dw + 1
    };
    let num_ec = bs - dw;
    let mut block = [0u8; 256];

    let mut j: usize = 0;
    while j < block_dw
        invariant
            j <= block_dw <= dw + 1 <= 153,
            i < bc,
            (dw + 1) * bc <= total <= 3706,
            forall|k: int| 0 <= k < j ==> #[trigger] block@[k] == raw[k * bc + i],
            forall|k: int| j <= k < 256 ==> #[trigger] block@[k] == 0,
            raw == ds.raw@,
        decreases block_dw - j,
    {
        proof {
            lemma_word_index(j as int, i as int, bc as int, dw as int + 1);
        }
        block[j] = ds.raw[j * bc + i];
        j += 1;
    }
    j = 0;
    while j < num_ec
        invariant
            j <= num_ec <= 30,
            block_dw <= 153,
            i < bc,
            ecc_offset + num_ec * bc <= total <= 3706,
            forall|k: int| 0 <= k < block_dw ==> #[trigger] block@[k] == raw[k * bc + i],
            forall|k: int|
                block_dw <= k < block_dw + j ==> #[trigger] block@[k] == raw[ecc_offset + (k - block_dw) * bc + i],
            forall|k: int| block_dw + j <= k < 256 ==> #[trigger] block@[k] == 0,
            raw == ds.raw@,
        decreases num_ec - j,
    {
        proof {
            lemma_word_index(j as int, i as int, bc as int, num_ec as int);
        }
        block[block_dw + j] = ds.raw[ecc_offset + j * bc + i];
        j += 1;
    }
    assert(block@ =~= block_words(raw, v, l, i as int));
    block
}

/// Writes the first `bs` codewords of `block` to `ds.data` from `at` on.
fn place_block(ds: &mut Datastream, block: &[u8; 256], at: usize, bs: usize)
    requires
        bs <= 256,
        at + bs <= QUIRC_MAX_PAYLOAD,
    ensures
        final(ds).raw == old(ds).raw,
        final(ds).ptr == old(ds).ptr,
        final(ds).data_bits == old(ds).data_bits,
        final(ds).data@ == Seq::new(
            old(ds).data@.len(),
            |k: int|
                if at <= k < at + bs {
                    block@[k - at]
                } else {
                    old(ds).data@[k]
                },
        ),
{
    let mut k: usize = 0;
    while k < bs
        invariant
            k <= bs <= 256,
            at + bs <= QUIRC_MAX_PAYLOAD,
            ds.raw == old(ds).raw,
            ds.ptr == old(ds).ptr,
            ds.data_bits == old(ds).data_bits,
            forall|q: int|
                0 <= q < QUIRC_MAX_PAYLOAD ==> #[trigger] ds.data@[q] == if at <= q < at + k {
                    block@[q - at]
                } else {
                    old(ds).data@[q]
                },
        decreases bs - k,
    {
        ds.data[at + k] = block[k];
        k += 1;
    }
    assert(ds.data@ =~= Seq::new(
        old(ds).data@.len(),
        |k: int|
            if at <= k < at + bs {
                block@[k - at]
            } else {
                old(ds).data@[k]
            },
    ));
}

/// Takes the blocks of codewords apart, corrects each and leaves their data
/// words in `ds.data`, block after block. Fails at the first block that
/// cannot be corrected.
pub fn codestream_ecc(data: &mut QuircData, ds: &mut Datastream) -> (err: QuircDecodeError)
    requires
        1 <= old(data).version <= QUIRC_MAX_VERSION,
        old(data).ecc_level < 4,
    ensures
        *final(data) == *old(data),
        final(ds).raw == old(ds).raw,
        final(ds).ptr == old(ds).ptr,
        ({
            let version = old(data).version as int;
            let level = old(data).ecc_level as int;
            let bc = block_count(version, level);
            let bad = first_bad_block(old(ds).raw@, version, level, bc);
            if bad < bc {
                &&& err == QuircDecodeError::QuircErrorDataEcc
                &&& final(ds).data@ == placed_blocks(old(ds).raw@, old(ds).data@, version, level, bad + 1)
                &&& final(ds).data_bits == old(ds).data_bits
            } else {
                &&& err == QuircDecodeError::QuircSuccess
                &&& final(ds).data@ == placed_blocks(old(ds).raw@, old(ds).data@, version, level, bc)
                &&& final(ds).data_bits == 8 * block_start(version, level, bc)
                &&& final(ds).data_bits <= 8 * 3706
            }
        }),
{
    let ghost version = data.version as int;
    let ghost level = data.ecc_level as int;
    let ghost raw = ds.raw@;
    let sb_ecc = rs_params(data.version as usize, data.ecc_level as usize);
    let total = VERSION_DATA_BYTES[data.version as usize];
    proof {
        lemma_rs_params_fit(version, level);
        lemma_layout_fits(version, level);
        reveal(layout_fits);
    }
    let lb_count = (total - sb_ecc.bs * sb_ecc.ns) / (sb_ecc.bs + 1);
    let bc = lb_count + sb_ecc.ns;
    let lb_ecc = QuircRsParams { bs: sb_ecc.bs + 1, dw: sb_ecc.dw + 1, ns: sb_ecc.ns };
    let mut dst_offset: usize = 0;

    let mut i: u32 = 0;
    while i < bc
        invariant
            i <= bc,
            version == data.version,
            level == data.ecc_level,
            1 <= version <= QUIRC_MAX_VERSION,
            0 <= level < 4,
            *data == *old(data),
            ds.raw == old(ds).raw,
            raw == ds.raw@,
            ds.ptr == old(ds).ptr,
            ds.data_bits == old(ds).data_bits,
            sb_ecc == spec_rs_params(version, level),
            lb_ecc == (QuircRsParams { bs: (sb_ecc.bs + 1) as u32, dw: (sb_ecc.dw + 1) as u32, ns: sb_ecc.ns }),
            0 < sb_ecc.dw < sb_ecc.bs <= 152,
            sb_ecc.bs - sb_ecc.dw <= 30,
            bc == block_count(version, level),
            dst_offset == block_start(version, level, i as int),
            first_bad_block(raw, version, level, i as int) == i,
            ds.data@ == placed_blocks(raw, old(ds).data@, version, level, i as int),
        decreases bc - i,
    {
        let ecc = if i < sb_ecc.ns {
            sb_ecc
        } else {
            lb_ecc
        };
        let mut block = gather_block(ds, data.version, data.ecc_level, i as usize);
        let err = correct_block(&mut block, &ecc);
        assert(block@ == block_corrected(raw, version, level, i as int));
        proof {
            lemma_start_bound(version, level, i as int);
        }
        place_block(ds, &block, dst_offset, ecc.bs as usize);
        assert(ds.data@ =~= placed_blocks(raw, old(ds).data@, version, level, i as int + 1));
        if err != QuircDecodeError::QuircSuccess {
            proof {
                lemma_first_bad_stays(raw, version, level, i as int + 1, bc as int);
            }
            return err;
        }
        dst_offset += ecc.dw as usize;
        i += 1;
    }
    proof {
        lemma_start_bound(version, level, bc as int);
    }
    ds.data_bits = (dst_offset * 8) as u32;
    QuircDecodeError::QuircSuccess
}

/// What a decoded record holds.
pub struct Decoded {
    pub version: u32,
    pub ecc_level: u8,
    pub mask: u8,
    pub data_type: u8,
    pub payload: Seq<u8>,
    pub payload_len: int,
    pub eci: u32,
}

/// What the record `data` holds.
pub open spec fn decoded_of(data: QuircData) -> Decoded {
    Decoded {
        version: data.version,
        ecc_level: data.ecc_level,
        mask: data.mask,
        data_type: data.data_type,
        payload: data.payload@,
        payload_len: data.payload_len as int,
        eci: data.eci,
    }
}

/// A room of zero bytes.
pub open spec fn blank_bytes() -> Seq<u8> {
    Seq::new(QUIRC_MAX_PAYLOAD as nat, |i: int| 0u8)
}

/// The version of a symbol with `size` modules on a side, or 0 for a size
/// below that of version 0.
pub open spec fn version_of_size(size: u32) -> u32 {
    if size >= 17 {
        ((size - 17) / 4) as u32
    } else {
        0
    }
}

/// The format word of a symbol after correction: that of the first copy
/// if it can be corrected, else that of the second.
pub open spec fn spec_format(code: QuircCode) -> Option<u16> {
    match spec_correct_format(raw_format(code, 0)) {
        Some(f) => Some(f),
        None => spec_correct_format(raw_format(code, 1)),
    }
}

/// The outcome of decoding the symbol `code` into a record that held
/// `before`. A size that is not of the form `4k + 17` leaves the record as
/// it was. In every other case the record is cleared and then filled as
/// far as decoding gets: with the version, then with the level and the
/// mask, then with the payload.
pub open spec fn spec_decode(code: QuircCode, before: Decoded) -> (QuircDecodeError, Decoded) {
    let version = version_of_size(code.size);
    let blank = Decoded {
        version: version,
        ecc_level: 0,
        mask: 0,
        data_type: 0,
        payload: blank_bytes(),
        payload_len: 0,
        eci: 0,
    };
    if code.size % 4 != 1 {
        (QuircDecodeError::QuircErrorInvalidGridSize, before)
    } else if version < 1 || version > QUIRC_MAX_VERSION {
        (QuircDecodeError::QuircErrorInvalidVersion, blank)
    } else if spec_format(code) is None {
        (QuircDecodeError::QuircErrorFormatEcc, blank)
    } else {
        let f = spec_format(code)->0;
        let level = format_ecc_level(f);
        let mask = format_mask(f);
        let set = Decoded { ecc_level: level, mask: mask, ..blank };
        let bits = spec_read_data(code, version as int, mask);
        let raw = pack_bits(bits, bits.len() as int);
        let bc = block_count(version as int, level as int);
        if first_bad_block(raw, version as int, level as int, bc) < bc {
            (QuircDecodeError::QuircErrorDataEcc, set)
        } else {
            let stream = placed_blocks(raw, blank_bytes(), version as int, level as int, bc);
            let total = 8 * block_start(version as int, level as int, bc);
            let r = spec_decode_payload(
                version as int,
                stream,
                total,
                Scan { payload: blank_bytes(), len: 0, ptr: 0, data_type: 0, eci: 0 },
            );
            (
                r.0,
                Decoded { data_type: r.1.data_type, payload: r.1.payload, payload_len: r.1.len, eci: r.1.eci, ..set },
            )
        }
    }
}

impl QuircCode {
    /// Decodes the symbol into `data`.
    pub fn decode(&self, data: &mut QuircData) -> (err: QuircDecodeError)
        ensures
            err == spec_decode(*self, decoded_of(*old(data))).0,
            decoded_of(*final(data)) == spec_decode(*self, decoded_of(*old(data))).1,
            err != QuircDecodeError::QuircErrorInvalidGridSize ==> final(data).payload_len <= QUIRC_MAX_PAYLOAD,
            err == QuircDecodeError::QuircSuccess ==> final(data).payload_len < QUIRC_MAX_PAYLOAD && final(data).payload@[final(data).payload_len as int]
            == 0,
    {
        if self.size % 4 != 1 {
            return QuircDecodeError::QuircErrorInvalidGridSize;
        }
        let version = if self.size >= 17 {
            (self.size - 17) / 4
        } else {
            0
        };
        *data = QuircData {
            version: version,
            ecc_level: 0,
            mask: 0,
            data_type: 0,
            payload: [0u8; QUIRC_MAX_PAYLOAD],
            payload_len: 0,
            eci: 0,
        };
        assert(data.payload@ =~= blank_bytes());
        if data.version < 1 || data.version as usize > QUIRC_MAX_VERSION {
            return QuircDecodeError::QuircErrorInvalidVersion;
        }
        let mut err = self.read_format(data, 0);
        if err != QuircDecodeError::QuircSuccess {
            err = self.read_format(data, 1);
        }
        if err != QuircDecodeError::QuircSuccess {
            return err;
        }
        let mut ds = Datastream::new();
        assert(ds.raw@ =~= pack_bits(Seq::<bool>::empty(), 0));
        assert(ds.data@ =~= blank_bytes());
        self.read_data(data, &mut ds);
        err = codestream_ecc(data, &mut ds);
        if err != QuircDecodeError::QuircSuccess {
            return err;
        }
        decode_payload(data, &mut ds)
    }
}

/// A symbol is decoded with success only if its format word, as
/// corrected, is a word of the format code and every block of its
/// codewords, as corrected, is a word of the block code.
pub proof fn lemma_decode_success_checked(code: QuircCode, before: Decoded)
    requires
        spec_decode(code, before).0 == QuircDecodeError::QuircSuccess,
    ensures
        code.size % 4 == 1,
        1 <= version_of_size(code.size) <= QUIRC_MAX_VERSION,
        spec_format(code) is Some,
        format_valid(spec_format(code)->0),
        ({
            let version = version_of_size(code.size) as int;
            let f = spec_format(code)->0;
            let bits = spec_read_data(code, version, format_mask(f));
            let raw = pack_bits(bits, bits.len() as int);
            forall|i: int|
                0 <= i < block_count(version, format_ecc_level(f) as int) ==> #[trigger] block_ok(
                    raw,
                    version,
                    format_ecc_level(f) as int,
                    i,
                )
        }),
{
    let version = version_of_size(code.size) as int;
    let f = spec_format(code)->0;
    let level = format_ecc_level(f) as int;
    let bits = spec_read_data(code, version, format_mask(f));
    let raw = pack_bits(bits, bits.len() as int);
    let bc = block_count(version, level);
    assert forall|i: int| 0 <= i < bc implies #[trigger] block_ok(raw, version, level, i) by {
        lemma_first_bad_is_first(raw, version, level, bc, i);
    }
}

/// Every block before the first bad one is good.
proof fn lemma_first_bad_is_first(raw: Seq<u8>, version: int, level: int, n: int, i: int)
    requires
        0 <= i < n,
        i < first_bad_block(raw, version, level, n),
    ensures
        block_ok(raw, version, level, i),
    decreases n,
{
    lemma_first_bad_bound(raw, version, level, n - 1);
    if i < n - 1 {
        lemma_first_bad_is_first(raw, version, level, n - 1, i);
    }
}

proof fn lemma_first_bad_bound(raw: Seq<u8>, version: int, level: int, n: int)
    ensures
        first_bad_block(raw, version, level, n) <= if n < 0 {
            0
        } else {
            n
        },
        0 <= first_bad_block(raw, version, level, n),
    decreases n,
{
    if n > 0 {
        lemma_first_bad_bound(raw, version, level, n - 1);
    }
}

} // verus!
