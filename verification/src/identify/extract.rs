//! From a grid to the module bitmap of its symbol.

use crate::constants::QUIRC_MAX_BITMAP;
use crate::decode::decoder::{bitmap_bit, QUIRC_MAX_SIZE};
use crate::ops::{Quirc, QuircCode, QuircPoint, Scene};
use vstd::prelude::*;

verus! {

/// The bitmap of the first `n` of the cells `black`: bit `i % 8` of byte
/// `i / 8`, counted from the least significant bit, is set if cell `i` is
/// black.
pub open spec fn cells_bitmap(black: Seq<bool>, n: int) -> Seq<u8>
    decreases n,
{
    if n <= 0 {
        Seq::new(QUIRC_MAX_BITMAP as nat, |i: int| 0u8)
    } else {
        let prev = cells_bitmap(black, n - 1);
        if black[n - 1] {
            prev.update((n - 1) / 8, prev[(n - 1) / 8] | (1u8 << (((n - 1) % 8) as u32)))
        } else {
            prev
        }
    }
}

impl Scene {
    /// Whether each of the points `samples` is a black pixel.
    pub open spec fn black_cells(self, samples: Seq<QuircPoint>) -> Seq<bool> {
        Seq::new(samples.len(), |i: int| self.vote(samples[i]) > 0)
    }

    /// Whether `code` is the symbol of the grid `index`, read at the
    /// points `samples`, one for each cell by rows, with the corners
    /// `corners`.
    pub open spec fn extracted(
        self,
        index: int,
        corners: [QuircPoint; 4],
        samples: Seq<QuircPoint>,
        code: QuircCode,
    ) -> bool {
        &&& code.corners == corners
        &&& code.size == self.grids[index].grid_size
        &&& code.cell_bitmap@ == cells_bitmap(self.black_cells(samples), samples.len() as int)
    }
}

proof fn lemma_set_bit(b: u8, s: u32, t: u32)
    requires
        s < 8,
        t < 8,
    ensures
        ((b | (1u8 << s)) >> t) & 1 == if t == s {
            1u8
        } else {
            (b >> t) & 1
        },
{
    assert(s < 8 && t < 8 ==> ((b | (1u8 << s)) >> t) & 1 == if t == s {
        1u8
    } else {
        (b >> t) & 1
    }) by (bit_vector);
}

proof fn lemma_zero_bit(t: u32)
    ensures
        (0u8 >> t) & 1 == 0,
{
    assert((0u8 >> t) & 1 == 0) by (bit_vector);
}

/// Bit `p` of the bitmap of the cells says whether cell `p` is black.
pub proof fn lemma_cells_bitmap(black: Seq<bool>, n: int, p: u32)
    requires
        0 <= n <= 8 * QUIRC_MAX_BITMAP,
        p < 8 * QUIRC_MAX_BITMAP,
    ensures
        cells_bitmap(black, n).len() == QUIRC_MAX_BITMAP,
        bitmap_bit(cells_bitmap(black, n), p) == if p < n && black[p as int] {
            1u8
        } else {
            0u8
        },
    decreases n,
{
    if n > 0 {
        lemma_cells_bitmap(black, n - 1, p);
        let prev = cells_bitmap(black, n - 1);
        let q = (n - 1) as u32;
        if black[n - 1] && q / 8 == p / 8 {
            lemma_set_bit(prev[(q / 8) as int], q % 8, p % 8);
        }
    } else {
        lemma_zero_bit(p % 8);
    }
}

/// Two symbols that are read from one grid at the same points are the
/// same, bit for bit.
pub proof fn lemma_extract_deterministic(
    scene: Scene,
    index: int,
    corners: [QuircPoint; 4],
    samples: Seq<QuircPoint>,
    first: QuircCode,
    second: QuircCode,
)
    requires
        scene.extracted(index, corners, samples, first),
        scene.extracted(index, corners, samples, second),
    ensures
        first == second,
{
    assert(first.cell_bitmap =~= second.cell_bitmap);
}

impl Quirc {
    /// Reads the symbol of the grid `index`. The caller gives the four
    /// corners of the symbol in the image and, for each cell of the grid
    /// by rows, the point of the image at its centre. A cell is black if
    /// that point is a black pixel. Returns `None` if there is no such
    /// grid.
    pub fn extract(&self, index: usize, corners: &[QuircPoint; 4], samples: &[QuircPoint]) -> (r: Option<QuircCode>)
        requires
            self.wf(),
            index < self.num_grids ==> self.grids[index as int].grid_size <= QUIRC_MAX_SIZE && samples@.len()
                == self.grids[index as int].grid_size * self.grids[index as int].grid_size,
        ensures
            match r {
                None => index >= self.num_grids,
                Some(code) => {
                    &&& index < self.num_grids
                    &&& self@.extracted(index as int, *corners, samples@, code)
                    &&& forall|p: u32|
                        p < samples@.len() ==> #[trigger] bitmap_bit(code.cell_bitmap@, p) == if self@.vote(
                            samples@[p as int],
                        ) > 0 {
                            1u8
                        } else {
                            0u8
                        }
                },
            },
    {
        if index >= self.num_grids {
            return None;
        }
        let size = self.grids[index].grid_size;
        assert(size * size <= 177 * 177) by (nonlinear_arith)
            requires
                size <= 177,
        ;
        let mut code = QuircCode { corners: *corners, size: size, cell_bitmap: [0u8; QUIRC_MAX_BITMAP] };
        let ghost black = self@.black_cells(samples@);
        assert(code.cell_bitmap@ =~= cells_bitmap(black, 0));
        let n = samples.len();
        let mut i: usize = 0;
        while i < n
            invariant
                i <= n,
                n == samples@.len(),
                n <= 177 * 177,
                self.wf(),
                code.corners == *corners,
                code.size == size,
                black == self@.black_cells(samples@),
                code.cell_bitmap@ == cells_bitmap(black, i as int),
            decreases n - i,
        {
            if self.read_point(&samples[i]) > 0 {
                code.cell_bitmap[i / 8] |= 1u8 << ((i % 8) as u32);
            }
            i += 1;
        }
        proof {
            assert forall|p: u32| p < samples@.len() implies #[trigger] bitmap_bit(code.cell_bitmap@, p)
                == if self@.vote(samples@[p as int]) > 0 {
                1u8
            } else {
                0u8
            } by {
                lemma_cells_bitmap(black, n as int, p);
            }
        }
        Some(code)
    }
}

} // verus!
