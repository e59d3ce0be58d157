//! The cells by which a grid is judged: where the format puts black and
//! where white, whatever the data. A grid fits the image well if the cells
//! that should be black are black and those that should be white are white.

use crate::decode::decoder::{apat_count, lemma_apat_count_stops};
use crate::identify::linear_algebra::trunc_div;
use crate::ops::{Quirc, QuircPoint, Scene};
use crate::version_db::{QUIRC_MAX_ALIGNMENT, QUIRC_MAX_VERSION, VERSION_APAT};
use vstd::prelude::*;

verus! {

/// A cell of a grid and the weight with which its colour counts: above
/// zero for a cell that should be black, below zero for one that should be
/// white.
#[derive(Copy, Clone, Debug, PartialEq, Eq)]
pub struct FitnessCell {
    pub x: i64,
    pub y: i64,
    pub weight: i64,
}

/// A cell with its weight.
pub open spec fn cell(x: int, y: int, weight: int) -> FitnessCell {
    FitnessCell { x: x as i64, y: y as i64, weight: weight as i64 }
}

/// The first `4 * n` cells of the square ring of cells at the distance
/// `radius` from the cell in column `cx` of row `cy`: one of each side of
/// the ring at a time, going round.
pub open spec fn ring_cells(cx: int, cy: int, radius: int, weight: int, n: int) -> Seq<FitnessCell>
    decreases n,
{
    if n <= 0 {
        Seq::empty()
    } else {
        let i = n - 1;
        ring_cells(cx, cy, radius, weight, n - 1) + seq![
            cell(cx - radius + i, cy - radius, weight),
            cell(cx - radius, cy + radius - i, weight),
            cell(cx + radius, cy - radius + i, weight),
            cell(cx + radius - i, cy + radius, weight),
        ]
    }
}

/// The cells of an alignment pattern around the cell in column `cx` of row
/// `cy`: a black cell in a white ring in a black ring.
pub open spec fn apat_cells(cx: int, cy: int) -> Seq<FitnessCell> {
    seq![cell(cx, cy, 1)] + ring_cells(cx, cy, 1, -1, 2) + ring_cells(cx, cy, 2, 1, 4)
}

/// The cells of a finder pattern whose top left cell is in column `x` of
/// row `y`: a black cell and a black ring around it, which make the stone,
/// in a white ring in a black ring.
pub open spec fn capstone_cells(x: int, y: int) -> Seq<FitnessCell> {
    seq![cell(x + 3, y + 3, 1)] + ring_cells(x + 3, y + 3, 1, 1, 2) + ring_cells(x + 3, y + 3, 2, -1, 4)
        + ring_cells(x + 3, y + 3, 3, 1, 6)
}

/// The first `n` cells of each of the two timing patterns, which run along
/// row 6 and along column 6 from cell 7 on, white first.
pub open spec fn timing_cells(n: int) -> Seq<FitnessCell>
    decreases n,
{
    if n <= 0 {
        Seq::empty()
    } else {
        let i = n - 1;
        let expect = if i % 2 == 1 {
            1int
        } else {
            -1int
        };
        timing_cells(n - 1) + seq![cell(i + 7, 6, expect), cell(6, i + 7, expect)]
    }
}

/// The cells of the alignment patterns that lie on the timing patterns,
/// for the alignment coordinates from the second to before the `n`-th.
pub open spec fn edge_apat_cells(version: int, n: int) -> Seq<FitnessCell>
    decreases n,
{
    if n <= 1 {
        Seq::empty()
    } else {
        let at = VERSION_APAT[version][n - 1] as int;
        edge_apat_cells(version, n - 1) + apat_cells(6, at) + apat_cells(at, 6)
    }
}

/// The cells of the alignment patterns in the column of the alignment
/// coordinate `i`, for the rows of the coordinates from the second to
/// before the `n`-th.
pub open spec fn apat_row_cells(version: int, i: int, n: int) -> Seq<FitnessCell>
    decreases n,
{
    if n <= 1 {
        Seq::empty()
    } else {
        apat_row_cells(version, i, n - 1) + apat_cells(
            VERSION_APAT[version][i] as int,
            VERSION_APAT[version][n - 1] as int,
        )
    }
}

/// The cells of the alignment patterns away from the timing patterns, for
/// the columns of the alignment coordinates from the second to before the
/// `n`-th, where the version has `count` coordinates.
pub open spec fn inner_apat_cells(version: int, count: int, n: int) -> Seq<FitnessCell>
    decreases n,
{
    if n <= 1 {
        Seq::empty()
    } else {
        inner_apat_cells(version, count, n - 1) + apat_row_cells(version, n - 1, count)
    }
}

/// All cells by which a grid of `grid_size` cells on a side is judged: the
/// timing patterns, the three finder patterns, and the alignment patterns
/// of the version of the size, if there is such a version.
pub open spec fn spec_fitness_cells(grid_size: u32) -> Seq<FitnessCell> {
    let version = trunc_div(grid_size - 17, 4);
    let count = apat_count(version, QUIRC_MAX_ALIGNMENT as int);
    let fixed = timing_cells(grid_size - 14) + capstone_cells(0, 0) + capstone_cells(grid_size - 7, 0)
        + capstone_cells(0, grid_size - 7);
    if version < 0 || version > QUIRC_MAX_VERSION {
        fixed
    } else {
        fixed + edge_apat_cells(version, count - 1) + inner_apat_cells(version, count, count)
    }
}

/// Whether every cell has a weight of 1 or -1, or of zero.
pub open spec fn unit_weights(cells: Seq<FitnessCell>) -> bool {
    forall|k: int| 0 <= k < cells.len() ==> -1 <= (#[trigger] cells[k]).weight <= 1
}

/// Appends the cells of a ring to `cells`.
fn fitness_ring(cells: &mut Vec<FitnessCell>, cx: i64, cy: i64, radius: i64, weight: i64)
    requires
        -0x2_0000_0000 <= cx <= 0x2_0000_0000,
        -0x2_0000_0000 <= cy <= 0x2_0000_0000,
        0 <= radius <= 3,
        -1 <= weight <= 1,
    ensures
        final(cells)@ == old(cells)@ + ring_cells(cx as int, cy as int, radius as int, weight as int, 2 * radius),
        unit_weights(old(cells)@) ==> unit_weights(final(cells)@),
{
    let mut i: i64 = 0;
    while i < radius * 2
        invariant
            0 <= i <= radius * 2,
            -0x2_0000_0000 <= cx <= 0x2_0000_0000,
            -0x2_0000_0000 <= cy <= 0x2_0000_0000,
            0 <= radius <= 3,
            -1 <= weight <= 1,
            cells@ == old(cells)@ + ring_cells(cx as int, cy as int, radius as int, weight as int, i as int),
            unit_weights(old(cells)@) ==> unit_weights(cells@),
        decreases radius * 2 - i,
    {
        cells.push(FitnessCell { x: cx - radius + i, y: cy - radius, weight: weight });
        cells.push(FitnessCell { x: cx - radius, y: cy + radius - i, weight: weight });
        cells.push(FitnessCell { x: cx + radius, y: cy - radius + i, weight: weight });
        cells.push(FitnessCell { x: cx + radius - i, y: cy + radius, weight: weight });
        proof {
            assert(cells@ =~= old(cells)@ + ring_cells(
                cx as int,
                cy as int,
                radius as int,
                weight as int,
                i as int + 1,
            ));
        }
        i += 1;
    }
}

/// Appends the cells of an alignment pattern to `cells`.
fn fitness_apat(cells: &mut Vec<FitnessCell>, cx: i64, cy: i64)
    requires
        0 <= cx <= 0xffff_ffff,
        0 <= cy <= 0xffff_ffff,
    ensures
        final(cells)@ == old(cells)@ + apat_cells(cx as int, cy as int),
        unit_weights(old(cells)@) ==> unit_weights(final(cells)@),
{
    cells.push(FitnessCell { x: cx, y: cy, weight: 1 });
    fitness_ring(cells, cx, cy, 1, -1);
    fitness_ring(cells, cx, cy, 2, 1);
    proof {
        assert(cells@ =~= old(cells)@ + apat_cells(cx as int, cy as int));
    }
}

/// Appends the cells of a finder pattern to `cells`.
fn fitness_capstone(cells: &mut Vec<FitnessCell>, x: i64, y: i64)
    requires
        -0x4000_0000 <= x <= 0xffff_ffff,
        -0x4000_0000 <= y <= 0xffff_ffff,
    ensures
        final(cells)@ == old(cells)@ + capstone_cells(x as int, y as int),
        unit_weights(old(cells)@) ==> unit_weights(final(cells)@),
{
    let cx = x + 3;
    let cy = y + 3;
    cells.push(FitnessCell { x: cx, y: cy, weight: 1 });
    fitness_ring(cells, cx, cy, 1, 1);
    fitness_ring(cells, cx, cy, 2, -1);
    fitness_ring(cells, cx, cy, 3, 1);
    proof {
        assert(cells@ =~= old(cells)@ + capstone_cells(x as int, y as int));
    }
}

/// Lists the cells by which a grid of `grid_size` cells on a side is
/// judged, each with its weight of 1 or -1.
pub fn fitness_cells(grid_size: u32) -> (cells: Vec<FitnessCell>)
    ensures
        cells@ == spec_fitness_cells(grid_size),
        unit_weights(cells@),
{
    let size = grid_size as i64;
    let mut cells: Vec<FitnessCell> = Vec::new();
    let timing: i64 = if size > 14 {
        size - 14
    } else {
        0
    };
    let mut i: i64 = 0;
    while i < timing
        invariant
            0 <= i <= timing <= 0xffff_ffff,
            cells@ == timing_cells(i as int),
            unit_weights(cells@),
        decreases timing - i,
    {
        let expect: i64 = if i % 2 == 1 {
            1
        } else {
            -1
        };
        cells.push(FitnessCell { x: i + 7, y: 6, weight: expect });
        cells.push(FitnessCell { x: 6, y: i + 7, weight: expect });
        proof {
            assert(cells@ =~= timing_cells(i as int + 1));
        }
        i += 1;
    }
    assert(cells@ == timing_cells(size as int - 14));
    fitness_capstone(&mut cells, 0, 0);
    fitness_capstone(&mut cells, size - 7, 0);
    fitness_capstone(&mut cells, 0, size - 7);
    let ghost fixed = cells@;

    // Sizes below 14 are those of no version, not even of version 0.
    if size < 14 || (size >= 17 && (size - 17) / 4 > QUIRC_MAX_VERSION as i64) {
        return cells;
    }
    let version: usize = if size >= 17 {
        ((size - 17) / 4) as usize
    } else {
        0
    };
    assert(version == trunc_div(size as int - 17, 4));
    let apat = VERSION_APAT[version];
    let mut ap_count: usize = 0;
    while ap_count < QUIRC_MAX_ALIGNMENT && apat[ap_count] != 0
        invariant
            ap_count <= QUIRC_MAX_ALIGNMENT,
            version <= QUIRC_MAX_VERSION,
            apat == VERSION_APAT[version as int],
            apat_count(version as int, ap_count as int) == ap_count,
        decreases QUIRC_MAX_ALIGNMENT - ap_count,
    {
        ap_count += 1;
    }
    proof {
        if ap_count < QUIRC_MAX_ALIGNMENT {
            lemma_apat_count_stops(version as int, ap_count as int, QUIRC_MAX_ALIGNMENT as int);
        }
    }
    let edge_end: usize = if ap_count > 1 {
        ap_count - 1
    } else {
        1
    };
    let mut a: usize = 1;
    while a < edge_end
        invariant
            1 <= a <= edge_end < QUIRC_MAX_ALIGNMENT,
            version <= QUIRC_MAX_VERSION,
            apat == VERSION_APAT[version as int],
            cells@ == fixed + edge_apat_cells(version as int, a as int),
            unit_weights(cells@),
        decreases edge_end - a,
    {
        let at = apat[a] as i64;
        fitness_apat(&mut cells, 6, at);
        fitness_apat(&mut cells, at, 6);
        proof {
            assert(cells@ =~= fixed + edge_apat_cells(version as int, a as int + 1));
        }
        a += 1;
    }
    let ghost edges = cells@;
    assert(edges == fixed + edge_apat_cells(version as int, ap_count as int - 1));

    let inner_end: usize = if ap_count > 1 {
        ap_count
    } else {
        1
    };
    a = 1;
    while a < inner_end
        invariant
            1 <= a <= inner_end <= QUIRC_MAX_ALIGNMENT,
            inner_end == if ap_count > 1 {
                ap_count
            } else {
                1
            },
            version <= QUIRC_MAX_VERSION,
            apat == VERSION_APAT[version as int],
            cells@ == edges + inner_apat_cells(version as int, ap_count as int, a as int),
            unit_weights(cells@),
        decreases inner_end - a,
    {
        let ghost row_start = cells@;
        let mut b: usize = 1;
        while b < ap_count
            invariant
                1 <= b <= ap_count,
                1 <= a < ap_count,
                ap_count <= QUIRC_MAX_ALIGNMENT,
                version <= QUIRC_MAX_VERSION,
                apat == VERSION_APAT[version as int],
                cells@ == row_start + apat_row_cells(version as int, a as int, b as int),
                unit_weights(cells@),
            decreases ap_count - b,
        {
            fitness_apat(&mut cells, apat[a] as i64, apat[b] as i64);
            proof {
                assert(cells@ =~= row_start + apat_row_cells(version as int, a as int, b as int + 1));
            }
            b += 1;
        }
        proof {
            assert(cells@ =~= edges + inner_apat_cells(version as int, ap_count as int, a as int + 1));
        }
        a += 1;
    }
    assert(cells@ == edges + inner_apat_cells(version as int, ap_count as int, ap_count as int));
    cells
}

/// The number of points at which the colour of a cell is sampled.
pub const FITNESS_SAMPLES: usize = 9;

impl Scene {
    /// The colours of the `n` sample points from `from` on, added up: 1 for
    /// each black point and -1 for each white one.
    pub open spec fn votes(self, points: Seq<QuircPoint>, from: int, n: int) -> int
        decreases n,
    {
        if n <= 0 {
            0
        } else {
            self.votes(points, from, n - 1) + self.vote(points[from + n - 1])
        }
    }

    /// How well the first `n` cells fit the image: the sampled colours of
    /// each cell, times its weight, added up. Cell `k` is sampled at the
    /// nine points from `9 * k` on.
    pub open spec fn fitness(self, cells: Seq<FitnessCell>, points: Seq<QuircPoint>, n: int) -> int
        decreases n,
    {
        if n <= 0 {
            0
        } else {
            self.fitness(cells, points, n - 1) + cells[n - 1].weight * self.votes(
                points,
                FITNESS_SAMPLES * (n - 1),
                FITNESS_SAMPLES as int,
            )
        }
    }
}

impl Quirc {
    /// Adds up the sampled colours of one cell, whose sample points are
    /// those from `from` on.
    pub fn fitness_cell(&self, points: &[QuircPoint], from: usize) -> (score: i64)
        requires
            self.wf(),
            from + FITNESS_SAMPLES <= points@.len(),
        ensures
            score == self@.votes(points@, from as int, FITNESS_SAMPLES as int),
            -9 <= score <= 9,
    {
        let len = points.len();
        let mut score: i64 = 0;
        let mut k: usize = 0;
        while k < FITNESS_SAMPLES
            invariant
                self.wf(),
                k <= FITNESS_SAMPLES,
                from + FITNESS_SAMPLES <= points@.len(),
                points@.len() == len,
                score == self@.votes(points@, from as int, k as int),
                -(k as int) <= score <= k,
            decreases FITNESS_SAMPLES - k,
        {
            let v = self.read_point(&points[from + k]);
            score = score + v as i64;
            k += 1;
        }
        score
    }

    /// How well a grid fits the image, judged by `cells` with weights of 1
    /// and -1: cell `k` is sampled at the nine points from `9 * k` on.
    pub fn fitness_all(&self, cells: &[FitnessCell], points: &[QuircPoint]) -> (score: i64)
        requires
            self.wf(),
            points@.len() == FITNESS_SAMPLES * cells@.len(),
            points@.len() <= i64::MAX,
            forall|k: int| 0 <= k < cells@.len() ==> -1 <= (#[trigger] cells@[k]).weight <= 1,
        ensures
            score == self@.fitness(cells@, points@, cells@.len() as int),
    {
        let len = points.len();
        let mut score: i64 = 0;
        let mut n: usize = 0;
        while n < cells.len()
            invariant
                self.wf(),
                n <= cells@.len(),
                points@.len() == len,
                points@.len() == FITNESS_SAMPLES * cells@.len(),
                points@.len() <= i64::MAX,
                forall|k: int| 0 <= k < cells@.len() ==> -1 <= (#[trigger] cells@[k]).weight <= 1,
                score == self@.fitness(cells@, points@, n as int),
                -9 * n <= score <= 9 * n,
            decreases cells@.len() - n,
        {
            assert(FITNESS_SAMPLES * n + FITNESS_SAMPLES <= FITNESS_SAMPLES * cells@.len()) by (nonlinear_arith)
                requires
                    n < cells@.len(),
            ;
            let votes = self.fitness_cell(points, FITNESS_SAMPLES * n);
            let weight = cells[n].weight;
            assert(-9 <= weight * votes <= 9) by (nonlinear_arith)
                requires
                    -1 <= weight <= 1,
                    -9 <= votes <= 9,
            ;
            score = score + weight * votes;
            n += 1;
        }
        score
    }
}

} // verus!
