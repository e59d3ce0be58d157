//! Grids: three finder patterns at the corners of a symbol, the timing
//! patterns between them, and the alignment pattern opposite the middle one.

use crate::identify::capstone::origin;
use crate::identify::floodfill::{span_inside, Span};
use crate::identify::linear_algebra::{lemma_products, line_intersect, near, spec_line_intersect, trunc_div};
use crate::ops::{
    in_image, lemma_pixel_index, same_colors, Quirc, QuircCapstone, QuircGrid, QuircPoint, Scene, QUIRC_MAX_GRIDS,
    QUIRC_PIXEL_REGION,
};
use vstd::prelude::*;

verus! {

/// How far the point `p` lies to the right of the line through `h0` with
/// the direction `hd`, times the length of `hd`. Points to the left of the
/// line score below zero.
pub open spec fn side_score(p: QuircPoint, h0: QuircPoint, hd: QuircPoint) -> int {
    (p.x - h0.x) * -hd.y + (p.y - h0.y) * hd.x
}

/// The one of the first `n` corners that lies farthest to the left of the
/// line through `h0` with the direction `hd`; among equals the first.
pub open spec fn leftmost_corner(corners: Seq<QuircPoint>, h0: QuircPoint, hd: QuircPoint, n: int) -> int
    decreases n,
{
    if n <= 1 {
        0
    } else {
        let best = leftmost_corner(corners, h0, hd, n - 1);
        if side_score(corners[n - 1], h0, hd) < side_score(corners[best], h0, hd) {
            n - 1
        } else {
            best
        }
    }
}

/// Four corners turned so that the corner `best` comes first.
pub open spec fn rotated(corners: Seq<QuircPoint>, best: int) -> [QuircPoint; 4] {
    [corners[best % 4], corners[(1 + best) % 4], corners[(2 + best) % 4], corners[(3 + best) % 4]]
}

/// A finder pattern turned so that its first corner is the one farthest
/// to the left of the line through `h0` with the direction `hd`.
pub open spec fn spec_rotate_capstone(cap: QuircCapstone, h0: QuircPoint, hd: QuircPoint) -> QuircCapstone {
    QuircCapstone { corners: rotated(cap.corners@, leftmost_corner(cap.corners@, h0, hd, 4)), ..cap }
}

proof fn lemma_leftmost_corner_bounds(corners: Seq<QuircPoint>, h0: QuircPoint, hd: QuircPoint, n: int)
    requires
        1 <= n,
    ensures
        0 <= leftmost_corner(corners, h0, hd, n) < n,
    decreases n,
{
    if n > 1 {
        lemma_leftmost_corner_bounds(corners, h0, hd, n - 1);
    }
}

/// Computes the score of a point against a line.
fn side_of(p: &QuircPoint, h0: &QuircPoint, hd: &QuircPoint) -> (score: i128)
    requires
        near(*p),
        near(*h0),
        near(*hd),
    ensures
        score == side_score(*p, *h0, *hd),
{
    let ghost k: int = 0x1_0000_0000;
    let dx = p.x as i128 - h0.x as i128;
    let dy = p.y as i128 - h0.y as i128;
    proof {
        lemma_products(dx as int, -hd.y as int, k, k);
        lemma_products(dy as int, hd.x as int, k, k);
        assert(k * k == 0x1_0000_0000_0000_0000);
    }
    dx * -(hd.y as i128) + dy * hd.x as i128
}

impl QuircCapstone {
    /// Turns the corners of the pattern so that the first is the one
    /// farthest to the left of the line through `h0` with the direction
    /// `hd`.
    pub fn rotate_capstone(&mut self, h0: &QuircPoint, hd: &QuircPoint)
        requires
            near(*h0),
            near(*hd),
            forall|j: int| 0 <= j < 4 ==> near(#[trigger] old(self).corners[j]),
        ensures
            *final(self) == spec_rotate_capstone(*old(self), *h0, *hd),
    {
        let mut best: usize = 0;
        let mut best_score = side_of(&self.corners[0], h0, hd);
        let mut j: usize = 1;
        while j < 4
            invariant
                1 <= j <= 4,
                *self == *old(self),
                near(*h0),
                near(*hd),
                forall|q: int| 0 <= q < 4 ==> near(#[trigger] self.corners[q]),
                best == leftmost_corner(self.corners@, *h0, *hd, j as int),
                best < j,
                best_score == side_score(self.corners[best as int], *h0, *hd),
            decreases 4 - j,
        {
            let score = side_of(&self.corners[j], h0, hd);
            if score < best_score {
                best = j;
                best_score = score;
            }
            j += 1;
        }
        let copy = [
            self.corners[best % 4],
            self.corners[(1 + best) % 4],
            self.corners[(2 + best) % 4],
            self.corners[(3 + best) % 4],
        ];
        self.corners = copy;
        proof {
            assert(self.corners =~= rotated(old(self).corners@, best as int));
        }
    }
}

/// A grid that is recorded and not measured yet, with the corners that
/// its three finder patterns had before they were turned for it: what it
/// takes to take the grid back.
#[derive(Copy, Clone, Debug, PartialEq, Eq)]
pub struct GridAttempt {
    pub index: usize,
    pub corners: [[QuircPoint; 4]; 3],
}

/// The corners of the three finder patterns `of_grid`.
pub open spec fn corners_of(caps: Seq<QuircCapstone>, of_grid: [u32; 3]) -> [[QuircPoint; 4]; 3] {
    [caps[of_grid[0] as int].corners, caps[of_grid[1] as int].corners, caps[of_grid[2] as int].corners]
}

/// The finder patterns with the first `n` of the three of a grid set free
/// and given the corners `before`.
pub open spec fn freed_capstones(
    caps: Seq<QuircCapstone>,
    of_grid: [u32; 3],
    before: [[QuircPoint; 4]; 3],
    n: int,
) -> Seq<QuircCapstone>
    decreases n,
{
    if n <= 0 {
        caps
    } else {
        let rest = freed_capstones(caps, of_grid, before, n - 1);
        rest.update(
            of_grid[n - 1] as int,
            QuircCapstone { qr_grid: -1i32, corners: before[n - 1], ..rest[of_grid[n - 1] as int] },
        )
    }
}

/// Setting finder patterns free changes nothing but the grid and the
/// corners of those that are set free.
proof fn lemma_freed_capstones(
    caps: Seq<QuircCapstone>,
    of_grid: [u32; 3],
    before: [[QuircPoint; 4]; 3],
    n: int,
    c: int,
)
    requires
        0 <= n <= 3,
        0 <= c < caps.len(),
        forall|k: int| 0 <= k < 3 ==> #[trigger] of_grid[k] < caps.len(),
    ensures
        freed_capstones(caps, of_grid, before, n).len() == caps.len(),
        freed_capstones(caps, of_grid, before, n)[c].ring == caps[c].ring,
        freed_capstones(caps, of_grid, before, n)[c].stone == caps[c].stone,
        freed_capstones(caps, of_grid, before, n)[c].center == caps[c].center,
        freed_capstones(caps, of_grid, before, n)[c].qr_grid == caps[c].qr_grid || freed_capstones(
            caps,
            of_grid,
            before,
            n,
        )[c].qr_grid == -1,
        freed_capstones(caps, of_grid, before, n)[c].corners == caps[c].corners || freed_capstones(
            caps,
            of_grid,
            before,
            n,
        )[c].corners == before[0] || freed_capstones(caps, of_grid, before, n)[c].corners == before[1]
            || freed_capstones(caps, of_grid, before, n)[c].corners == before[2],
        forall|k: int|
            0 <= k < n && #[trigger] of_grid[k] == c ==> freed_capstones(caps, of_grid, before, n)[c].qr_grid == -1,
    decreases n,
{
    if n > 0 {
        lemma_freed_capstones(caps, of_grid, before, n - 1, c);
        lemma_freed_capstones(caps, of_grid, before, n - 1, of_grid[n - 1] as int);
    }
}

/// The finder patterns with pattern `i` turned towards the line and
/// claimed by the grid `grid`.
pub open spec fn claim_capstone(
    caps: Seq<QuircCapstone>,
    i: int,
    h0: QuircPoint,
    hd: QuircPoint,
    grid: int,
) -> Seq<QuircCapstone> {
    caps.update(i, QuircCapstone { qr_grid: grid as i32, ..spec_rotate_capstone(caps[i], h0, hd) })
}

impl Scene {
    /// The scene after a grid is recorded for the finder patterns `a`, `b`
    /// and `c`, with `b` at the right angle, and the index of the grid, if
    /// there is room for it. The patterns `a` and `c` change places if `b`
    /// lies to the right of the line from `a` to `c`, so that the three go
    /// round clockwise. Each pattern is turned so that its first corner
    /// points away from that line, to the left, and is claimed by the grid.
    pub open spec fn record_qr_grid(self, a: int, b: int, c: int) -> (Scene, Option<int>) {
        let h0 = self.capstones[a].center;
        let hd0 = QuircPoint {
            x: (self.capstones[c].center.x - self.capstones[a].center.x) as isize,
            y: (self.capstones[c].center.y - self.capstones[a].center.y) as isize,
        };
        let swap = side_score(self.capstones[b].center, h0, hd0) > 0;
        let first = if swap {
            c
        } else {
            a
        };
        let last = if swap {
            a
        } else {
            c
        };
        let hd = if swap {
            QuircPoint { x: (-hd0.x) as isize, y: (-hd0.y) as isize }
        } else {
            hd0
        };
        let index = self.num_grids;
        let grid = QuircGrid {
            caps: [first as u32, b as u32, last as u32],
            align_region: -1i32,
            align: origin(),
            tpep: [origin(), origin(), origin()],
            hscan: 0i32,
            vscan: 0i32,
            grid_size: 0u32,
        };
        if self.num_grids >= QUIRC_MAX_GRIDS {
            (self, None)
        } else {
            (
                Scene {
                    grids: self.grids.update(index, grid),
                    num_grids: index + 1,
                    capstones: claim_capstone(
                        claim_capstone(claim_capstone(self.capstones, first, h0, hd, index), b, h0, hd, index),
                        last,
                        h0,
                        hd,
                        index,
                    ),
                    ..self
                },
                Some(index),
            )
        }
    }

    /// Whether a grid can be made of the finder patterns `a`, `b` and `c`:
    /// they exist, their centres are not too far from the image, and
    /// neither is the way from the first to the last.
    pub open spec fn can_group(self, a: int, b: int, c: int) -> bool {
        &&& 0 <= a < self.num_capstones
        &&& 0 <= b < self.num_capstones
        &&& 0 <= c < self.num_capstones
        &&& near(self.capstones[a].center)
        &&& near(self.capstones[b].center)
        &&& near(self.capstones[c].center)
        &&& -0x7fff_ffff <= self.capstones[c].center.x - self.capstones[a].center.x <= 0x7fff_ffff
        &&& -0x7fff_ffff <= self.capstones[c].center.y - self.capstones[a].center.y <= 0x7fff_ffff
    }
}

impl Quirc {
    /// Says whether a grid can be made of the finder patterns `a`, `b` and
    /// `c`.
    pub fn can_group(&self, a: usize, b: usize, c: usize) -> (ok: bool)
        requires
            self.wf(),
        ensures
            ok == self@.can_group(a as int, b as int, c as int),
    {
        if a >= self.num_capstones || b >= self.num_capstones || c >= self.num_capstones {
            return false;
        }
        let pa = self.capstones[a].center;
        let pb = self.capstones[b].center;
        let pc = self.capstones[c].center;
        if !is_near(&pa) || !is_near(&pb) || !is_near(&pc) {
            return false;
        }
        let dx = pc.x as i64 - pa.x as i64;
        let dy = pc.y as i64 - pa.y as i64;
        -0x7fff_ffff <= dx && dx <= 0x7fff_ffff && -0x7fff_ffff <= dy && dy <= 0x7fff_ffff
    }

    /// Records a grid for the finder patterns `a`, `b` and `c`, with `b`
    /// at the right angle, if there is room for one more, and returns its
    /// index with the corners that its finder patterns had before.
    pub fn record_qr_grid(&mut self, a: usize, b: usize, c: usize) -> (r: Option<GridAttempt>)
        requires
            old(self).wf(),
            old(self)@.linked(),
            old(self)@.can_group(a as int, b as int, c as int),
        ensures
            final(self).wf(),
            final(self)@.linked(),
            final(self)@ == old(self)@.record_qr_grid(a as int, b as int, c as int).0,
            match r {
                Some(attempt) => {
                    &&& old(self)@.record_qr_grid(a as int, b as int, c as int).1 == Some(attempt.index as int)
                    &&& attempt.index + 1 == final(self).num_grids
                    &&& attempt.corners == corners_of(
                        old(self)@.capstones,
                        final(self)@.grids[attempt.index as int].caps,
                    )
                    &&& forall|k: int, j: int|
                        0 <= k < 3 && 0 <= j < 4 ==> in_image(
                            #[trigger] attempt.corners[k][j],
                            final(self).w as int,
                            final(self).h as int,
                        )
                },
                None => old(self)@.record_qr_grid(a as int, b as int, c as int).1 is None,
            },
    {
        if self.num_grids >= QUIRC_MAX_GRIDS {
            return None;
        }
        let h0 = self.capstones[a].center;
        let mut hd = QuircPoint {
            x: self.capstones[c].center.x - self.capstones[a].center.x,
            y: self.capstones[c].center.y - self.capstones[a].center.y,
        };
        let mut first = a;
        let mut last = c;
        if side_of(&self.capstones[b].center, &h0, &hd) > 0 {
            first = c;
            last = a;
            hd = QuircPoint { x: -hd.x, y: -hd.y };
        }
        let index = self.num_grids;
        let corners = [self.capstones[first].corners, self.capstones[b].corners, self.capstones[last].corners];
        let zero = QuircPoint { x: 0, y: 0 };
        self.grids[index] = QuircGrid {
            caps: [first as u32, b as u32, last as u32],
            align_region: -1,
            align: zero,
            tpep: [zero, zero, zero],
            hscan: 0,
            vscan: 0,
            grid_size: 0,
        };
        self.num_grids += 1;
        self.claim(first, &h0, &hd, index);
        self.claim(b, &h0, &hd, index);
        self.claim(last, &h0, &hd, index);
        proof {
            let want = old(self)@.record_qr_grid(a as int, b as int, c as int).0;
            assert(self.grids@[index as int].caps =~= want.grids[index as int].caps);
            assert(self.grids@[index as int].tpep =~= want.grids[index as int].tpep);
            assert(self@.grids =~= want.grids);
            assert(corners =~= corners_of(old(self)@.capstones, self@.grids[index as int].caps));
            assert forall|k: int, j: int| 0 <= k < 3 && 0 <= j < 4 implies in_image(
                #[trigger] corners[k][j],
                self.w as int,
                self.h as int,
            ) by {
                let cap = self@.grids[index as int].caps[k] as int;
                assert(in_image(old(self)@.capstones[cap].corners[j], self.w as int, self.h as int));
            }
        }
        Some(GridAttempt { index: index, corners: corners })
    }

    /// Turns the finder pattern `i` towards a line and gives it to a grid.
    fn claim(&mut self, i: usize, h0: &QuircPoint, hd: &QuircPoint, grid: usize)
        requires
            old(self).wf(),
            old(self)@.linked(),
            i < old(self).num_capstones,
            grid < old(self).num_grids,
            old(self)@.claims(grid as int, i as int),
            near(*h0),
            near(*hd),
        ensures
            final(self).wf(),
            final(self)@.linked(),
            final(self)@ == (Scene {
                capstones: claim_capstone(old(self)@.capstones, i as int, *h0, *hd, grid as int),
                ..old(self)@
            }),
    {
        let mut cap = self.capstones[i];
        proof {
            assert forall|j: int| 0 <= j < 4 implies near(#[trigger] cap.corners[j]) by {
                assert(in_image(self@.capstones[i as int].corners[j], self.w as int, self.h as int));
            }
            lemma_leftmost_corner_bounds(cap.corners@, *h0, *hd, 4);
        }
        cap.rotate_capstone(h0, hd);
        cap.qr_grid = grid as i32;
        self.capstones[i] = cap;
        proof {
            let after = self@;
            assert forall|c: int, j: int| 0 <= c < after.num_capstones && 0 <= j < 4 implies in_image(
                #[trigger] after.capstones[c].corners[j],
                after.w,
                after.h,
            ) by {
                let before = old(self)@.capstones[c];
                assert(in_image(before.corners[0], after.w, after.h));
                assert(in_image(before.corners[1], after.w, after.h));
                assert(in_image(before.corners[2], after.w, after.h));
                assert(in_image(before.corners[3], after.w, after.h));
            }
        }
    }
}

/// Says whether both coordinates of a point are at most
/// `QUIRC_MAX_COORDINATE` in size.
pub fn is_near(p: &QuircPoint) -> (ok: bool)
    ensures
        ok == near(*p),
{
    -0x7fff_ffff <= p.x && p.x <= 0x7fff_ffff && -0x7fff_ffff <= p.y && p.y <= 0x7fff_ffff
}

/// The course of a scan from one pixel to another: the greater of the two
/// distances between them, along the dominant axis, the smaller one, and
/// the direction along each axis.
pub struct Course {
    /// The distance along the other axis.
    pub n: int,
    /// The distance along the dominant axis.
    pub d: int,
    /// Whether the dominant axis is that of the columns.
    pub dom_x: bool,
    pub dom_step: int,
    pub nondom_step: int,
}

/// The course from `start` to `end`.
pub open spec fn course(start: QuircPoint, end: QuircPoint) -> Course {
    let dx = end.x - start.x;
    let dy = end.y - start.y;
    let dom_x = (if dx < 0 {
        -dx
    } else {
        dx
    }) > (if dy < 0 {
        -dy
    } else {
        dy
    });
    let n = if dom_x {
        dy
    } else {
        dx
    };
    let d = if dom_x {
        dx
    } else {
        dy
    };
    Course {
        n: if n < 0 {
            -n
        } else {
            n
        },
        d: if d < 0 {
            -d
        } else {
            d
        },
        dom_x: dom_x,
        dom_step: if d < 0 {
            -1
        } else {
            1
        },
        nondom_step: if n < 0 {
            -1
        } else {
            1
        },
    }
}

/// The state of a scan along a line: where it stands, the error term of
/// the line, the length of the run of white pixels behind it, the number
/// of black pixels that came after two or more white ones, and whether it
/// has left the image.
pub struct Walk {
    pub x: int,
    pub y: int,
    pub a: int,
    pub run_length: int,
    pub count: int,
    pub stopped: bool,
}

impl Scene {
    /// 1 for a black pixel, -1 for a white one, 0 for a point outside the
    /// image.
    pub open spec fn vote(self, p: QuircPoint) -> int {
        if !in_image(p, self.w, self.h) {
            0
        } else if self.label(p.x as int, p.y as int) != 0 {
            1
        } else {
            -1
        }
    }

    /// The scan after one more pixel. A scan that stands outside the image
    /// stops for good.
    pub open spec fn walk_step(self, at: Walk, c: Course) -> Walk {
        let black = self.label(at.x, at.y) != 0;
        let a = at.a + c.n;
        let x = if c.dom_x {
            at.x + c.dom_step
        } else if a >= c.d {
            at.x + c.nondom_step
        } else {
            at.x
        };
        let y = if !c.dom_x {
            at.y + c.dom_step
        } else if a >= c.d {
            at.y + c.nondom_step
        } else {
            at.y
        };
        if at.stopped || !self.inside(at.x, at.y) {
            Walk { stopped: true, ..at }
        } else {
            Walk {
                x: x,
                y: y,
                a: if a >= c.d {
                    a - c.d
                } else {
                    a
                },
                run_length: if black {
                    0
                } else {
                    at.run_length + 1
                },
                count: if black && at.run_length >= 2 {
                    at.count + 1
                } else {
                    at.count
                },
                stopped: false,
            }
        }
    }

    /// The scan from `start` along the course `c` after `k` pixels.
    pub open spec fn walk(self, start: QuircPoint, c: Course, k: int) -> Walk
        decreases k,
    {
        if k <= 0 {
            Walk { x: start.x as int, y: start.y as int, a: 0, run_length: 0, count: 0, stopped: false }
        } else {
            self.walk_step(self.walk(start, c, k - 1), c)
        }
    }

    /// The number of changes from white to black along the line from `start`
    /// to `end`, both ends included, where only runs of two or more white
    /// pixels count; `None` if either end lies outside the image.
    pub open spec fn timing_scan(self, start: QuircPoint, end: QuircPoint) -> Option<int> {
        if !in_image(start, self.w, self.h) || !in_image(end, self.w, self.h) {
            None
        } else {
            Some(self.walk(start, course(start, end), course(start, end).d + 1).count)
        }
    }

    /// The scene after the timing patterns of the grid `index` are
    /// measured between the points `tpep`, and 0 if a scan was possible,
    /// else -1. The horizontal scan runs from the second point to the
    /// third, the vertical one from the second to the first; -1 stands for
    /// a scan with an end outside the image. The size of the grid is that
    /// of the version nearest to twice the greater count plus 13.
    pub open spec fn measure_timing_pattern(self, index: int, tpep: Seq<QuircPoint>) -> (Scene, int) {
        let hscan = match self.timing_scan(tpep[1], tpep[2]) {
            Some(count) => count,
            None => -1,
        };
        let vscan = match self.timing_scan(tpep[1], tpep[0]) {
            Some(count) => count,
            None => -1,
        };
        let scan = if vscan > hscan {
            vscan
        } else {
            hscan
        };
        let measured = QuircGrid {
            tpep: [tpep[0], tpep[1], tpep[2]],
            hscan: hscan as i32,
            vscan: vscan as i32,
            ..self.grids[index]
        };
        if scan < 0 {
            (Scene { grids: self.grids.update(index, measured), ..self }, -1)
        } else {
            (
                Scene {
                    grids: self.grids.update(
                        index,
                        QuircGrid { grid_size: (trunc_div(scan * 2 + 13 - 15, 4) * 4 + 17) as u32, ..measured },
                    ),
                    ..self
                },
                0,
            )
        }
    }

    /// The scene without its last grid, whose finder patterns are free
    /// again and have the corners `before`.
    pub open spec fn discard_grid(self, index: int, before: [[QuircPoint; 4]; 3]) -> Scene {
        Scene {
            capstones: freed_capstones(self.capstones, self.grids[index].caps, before, 3),
            num_grids: self.num_grids - 1,
            ..self
        }
    }

    /// The scene after the grid `index` is measured, and whether the grid
    /// stands. The timing patterns are measured; then the corner of the
    /// alignment pattern is estimated as the point where the line through
    /// the first two corners of the first finder pattern meets the line
    /// through the first and the last corner of the third. A grid for which
    /// no scan was possible or the lines do not meet is discarded, and its
    /// finder patterns get the corners `before`.
    pub open spec fn measure_grid(self, index: int, tpep: Seq<QuircPoint>, before: [[QuircPoint; 4]; 3]) -> (
        Scene,
        bool,
    ) {
        let (measured, rc) = self.measure_timing_pattern(index, tpep);
        let first = measured.capstones[measured.grids[index].caps[0] as int];
        let last = measured.capstones[measured.grids[index].caps[2] as int];
        let meet = spec_line_intersect(first.corners[0], first.corners[1], last.corners[0], last.corners[3]);
        if rc < 0 || meet is None {
            (measured.discard_grid(index, before), false)
        } else {
            (
                Scene {
                    grids: measured.grids.update(index, QuircGrid { align: meet->0, ..measured.grids[index] }),
                    ..measured
                },
                true,
            )
        }
    }
}

/// A grid that cannot be measured leaves no trace. When a grid is recorded
/// for three free finder patterns and then cannot be measured, it is taken
/// back: the finder patterns, the regions, the pixels and the number of
/// grids are what they were before the grid was recorded.
pub proof fn lemma_failed_grid_undone(scene: Scene, a: int, b: int, c: int, tpep: Seq<QuircPoint>)
    requires
        scene.wf(),
        scene.linked(),
        scene.can_group(a, b, c),
        scene.capstones[a].qr_grid < 0,
        scene.capstones[b].qr_grid < 0,
        scene.capstones[c].qr_grid < 0,
        scene.num_grids < QUIRC_MAX_GRIDS,
    ensures
        ({
            let (recorded, index) = scene.record_qr_grid(a, b, c);
            let before = corners_of(scene.capstones, recorded.grids[scene.num_grids].caps);
            let (after, ok) = recorded.measure_grid(scene.num_grids, tpep, before);
            &&& index == Some(scene.num_grids)
            &&& !ok ==> {
                &&& after.capstones == scene.capstones
                &&& after.num_capstones == scene.num_capstones
                &&& after.num_grids == scene.num_grids
                &&& after.regions == scene.regions
                &&& after.num_regions == scene.num_regions
                &&& after.pixels == scene.pixels
            }
        }),
{
    let (recorded, index) = scene.record_qr_grid(a, b, c);
    let g = scene.num_grids;
    let caps = recorded.grids[g].caps;
    let before = corners_of(scene.capstones, caps);
    let (after, ok) = recorded.measure_grid(g, tpep, before);
    if !ok {
        let (measured, rc) = recorded.measure_timing_pattern(g, tpep);
        assert(measured.grids[g].caps == caps);
        assert(measured.capstones == recorded.capstones);
        assert(after == measured.discard_grid(g, before));
        reveal_with_fuel(freed_capstones, 4);
        assert forall|k: int| 0 <= k < scene.capstones.len() implies after.capstones[k] == scene.capstones[k] by {
            if 0 <= k < scene.num_capstones {
                assert(-1 <= scene.capstones[k].qr_grid);
            }
        }
        assert(after.capstones =~= scene.capstones);
    }
}

proof fn lemma_walk_stopped(scene: Scene, start: QuircPoint, c: Course, from: int, to: int)
    requires
        0 <= from <= to,
        scene.walk(start, c, from).stopped,
    ensures
        scene.walk(start, c, to) == scene.walk(start, c, from),
    decreases to - from,
{
    if from < to {
        lemma_walk_stopped(scene, start, c, from, to - 1);
    }
}

impl Quirc {
    /// Reads the colour of a point: 1 for black, -1 for white, 0 for a
    /// point outside the image.
    pub fn read_point(&self, p: &QuircPoint) -> (v: i8)
        requires
            self.wf(),
        ensures
            v == self@.vote(*p),
    {
        if p.y < 0 || p.y as i128 >= self.h as i128 || p.x < 0 || p.x as i128 >= self.w as i128 {
            return 0;
        }
        proof {
            lemma_pixel_index(self.w as int, self.h as int, p.x as int, p.y as int);
        }
        if self.pixels[p.y as usize * self.w + p.x as usize] != 0 {
            1
        } else {
            -1
        }
    }

    /// Counts the changes from white to black along the line from `start` to
    /// `end`, where only runs of two or more white pixels count. Returns
    /// `None` if either end lies outside the image.
    pub fn timing_scan(&self, start: &QuircPoint, end: &QuircPoint) -> (r: Option<usize>)
        requires
            self.wf(),
        ensures
            match r {
                Some(count) => self@.timing_scan(*start, *end) == Some(count as int) && 3 * count <= 0x8000_0000,
                None => self@.timing_scan(*start, *end) is None,
            },
    {
        let w = self.w as i64;
        let h = self.h as i64;
        if start.x < 0 || start.y < 0 || start.x as i128 >= w as i128 || start.y as i128 >= h as i128 {
            return None;
        }
        if end.x < 0 || end.y < 0 || end.x as i128 >= w as i128 || end.y as i128 >= h as i128 {
            return None;
        }
        let dx = end.x as i64 - start.x as i64;
        let dy = end.y as i64 - start.y as i64;
        let adx = if dx < 0 {
            -dx
        } else {
            dx
        };
        let ady = if dy < 0 {
            -dy
        } else {
            dy
        };
        let dom_x = adx > ady;
        let n = if dom_x {
            ady
        } else {
            adx
        };
        let d = if dom_x {
            adx
        } else {
            ady
        };
        let dom_step: i64 = if (if dom_x {
            dx
        } else {
            dy
        }) < 0 {
            -1
        } else {
            1
        };
        let nondom_step: i64 = if (if dom_x {
            dy
        } else {
            dx
        }) < 0 {
            -1
        } else {
            1
        };
        let ghost c = course(*start, *end);
        let mut x = start.x as i64;
        let mut y = start.y as i64;
        let mut a: i64 = 0;
        let mut run_length: i64 = 0;
        let mut count: usize = 0;
        let mut stopped = false;
        let mut k: i64 = 0;
        while k <= d && !stopped
            invariant
                0 <= k <= d + 1,
                self.wf(),
                w == self.w,
                h == self.h,
                0 <= n <= d < 0x8000_0000,
                c == (Course { n: n as int, d: d as int, dom_x: dom_x, dom_step: dom_step as int, nondom_step: nondom_step as int }),
                -1 <= dom_step <= 1,
                -1 <= nondom_step <= 1,
                0 <= a <= d,
                start.x - k <= x <= start.x + k,
                start.y - k <= y <= start.y + k,
                0 <= start.x < 0x8000_0000,
                0 <= start.y < 0x8000_0000,
                0 <= run_length,
                3 * count + run_length <= k,
                stopped ==> k > 0,
                self@.walk(*start, c, if stopped {
                    k - 1
                } else {
                    k as int
                }) == (Walk {
                    x: x as int,
                    y: y as int,
                    a: a as int,
                    run_length: run_length as int,
                    count: count as int,
                    stopped: false,
                }),
                stopped ==> !self@.inside(x as int, y as int),
            decreases d + 1 - k + if stopped {
                0int
            } else {
                1int
            },
        {
            if y < 0 || y >= h || x < 0 || x >= w {
                stopped = true;
            } else {
                proof {
                    lemma_pixel_index(w as int, h as int, x as int, y as int);
                }
                if self.pixels[y as usize * self.w + x as usize] != 0 {
                    if run_length >= 2 {
                        count += 1;
                    }
                    run_length = 0;
                } else {
                    run_length += 1;
                }
                a += n;
                if dom_x {
                    x += dom_step;
                } else {
                    y += dom_step;
                }
                if a >= d {
                    if dom_x {
                        y += nondom_step;
                    } else {
                        x += nondom_step;
                    }
                    a -= d;
                }
            }
            k += 1;
        }
        proof {
            if stopped {
                assert(self@.walk(*start, c, k as int).stopped);
                lemma_walk_stopped(self@, *start, c, k as int, d as int + 1);
            }
        }
        Some(count)
    }
}

impl Quirc {
    /// Measures the timing patterns of the grid `index` between the points
    /// `tpep` and sets the size of the grid from them. Returns -1, and
    /// leaves the size, if no scan was possible, else 0.
    pub fn measure_timing_pattern(&mut self, index: usize, tpep: &[QuircPoint; 3]) -> (rc: i32)
        requires
            old(self).wf(),
            index < old(self).num_grids,
        ensures
            final(self).wf(),
            final(self)@ == old(self)@.measure_timing_pattern(index as int, tpep@).0,
            rc == old(self)@.measure_timing_pattern(index as int, tpep@).1,
            rc == 0 ==> final(self).grids[index as int].grid_size >= 17 && final(self).grids[index as int].grid_size
                % 4 == 1,
    {
        let mut qr = self.grids[index];
        qr.tpep = [tpep[0], tpep[1], tpep[2]];
        qr.hscan = match self.timing_scan(&tpep[1], &tpep[2]) {
            Some(count) => count as i32,
            None => -1,
        };
        qr.vscan = match self.timing_scan(&tpep[1], &tpep[0]) {
            Some(count) => count as i32,
            None => -1,
        };
        let mut scan = qr.hscan;
        if qr.vscan > scan {
            scan = qr.vscan;
        }
        if scan < 0 {
            self.grids[index] = qr;
            proof {
                let want = old(self)@.measure_timing_pattern(index as int, tpep@).0;
                assert(qr.tpep =~= want.grids[index as int].tpep);
                assert(self@.grids =~= want.grids);
            }
            return -1;
        }
        let size = scan * 2 + 13;
        let ver = if size >= 15 {
            (size - 15) / 4
        } else {
            0
        };
        qr.grid_size = (ver * 4 + 17) as u32;
        self.grids[index] = qr;
        proof {
            let want = old(self)@.measure_timing_pattern(index as int, tpep@).0;
            assert(qr.tpep =~= want.grids[index as int].tpep);
            assert(self@.grids =~= want.grids);
        }
        0
    }

    /// Takes back the last grid: frees its finder patterns and gives them
    /// the corners `before`.
    fn discard_grid(&mut self, index: usize, before: &[[QuircPoint; 4]; 3])
        requires
            old(self).wf(),
            old(self)@.linked(),
            index + 1 == old(self).num_grids,
            forall|k: int, j: int|
                0 <= k < 3 && 0 <= j < 4 ==> in_image(#[trigger] before[k][j], old(self).w as int, old(self).h as int),
        ensures
            final(self).wf(),
            final(self)@.linked(),
            final(self)@ == old(self)@.discard_grid(index as int, *before),
    {
        let caps = self.grids[index].caps;
        let mut i: usize = 0;
        while i < 3
            invariant
                i <= 3,
                self.wf(),
                index + 1 == self.num_grids,
                caps == old(self).grids[index as int].caps,
                forall|k: int| 0 <= k < 3 ==> #[trigger] caps[k] < self.num_capstones,
                self@ == (Scene { capstones: self@.capstones, ..old(self)@ }),
                self@.capstones == freed_capstones(old(self)@.capstones, caps, *before, i as int),
            decreases 3 - i,
        {
            let mut cap = self.capstones[caps[i] as usize];
            cap.qr_grid = -1;
            cap.corners = before[i];
            self.capstones[caps[i] as usize] = cap;
            i += 1;
        }
        self.num_grids -= 1;
        proof {
            let after = self@;
            assert forall|c: int| 0 <= c < after.num_capstones implies {
                &&& (#[trigger] after.capstones[c]).ring == old(self)@.capstones[c].ring
                &&& after.capstones[c].stone == old(self)@.capstones[c].stone
                &&& -1 <= after.capstones[c].qr_grid < after.num_grids
                &&& after.capstones[c].qr_grid >= 0 ==> after.claims(after.capstones[c].qr_grid as int, c)
                &&& forall|j: int| 0 <= j < 4 ==> in_image(#[trigger] after.capstones[c].corners[j], after.w, after.h)
            } by {
                let was = old(self)@.capstones[c];
                assert(-1 <= was.qr_grid < old(self)@.num_grids);
                lemma_freed_capstones(old(self)@.capstones, caps, *before, 3, c);
                if was.qr_grid == index as i32 {
                    assert(old(self)@.claims(index as int, c));
                }
                assert forall|j: int| 0 <= j < 4 implies in_image(
                    #[trigger] after.capstones[c].corners[j],
                    after.w,
                    after.h,
                ) by {
                    assert(in_image(was.corners[j], after.w, after.h));
                    assert(in_image(before[0][j], after.w, after.h));
                    assert(in_image(before[1][j], after.w, after.h));
                    assert(in_image(before[2][j], after.w, after.h));
                }
            }
        }
    }

    /// Measures the grid of `attempt`, the last one, between the points
    /// `tpep`: the timing patterns give its size, and two edges of its
    /// finder patterns a first estimate of the corner of its alignment
    /// pattern. Returns whether the grid stands; a grid that cannot be
    /// measured is taken back, and its finder patterns are as they were
    /// before it was recorded.
    pub fn measure_grid(&mut self, attempt: &GridAttempt, tpep: &[QuircPoint; 3]) -> (ok: bool)
        requires
            old(self).wf(),
            old(self)@.linked(),
            attempt.index + 1 == old(self).num_grids,
            forall|k: int, j: int|
                0 <= k < 3 && 0 <= j < 4 ==> in_image(
                    #[trigger] attempt.corners[k][j],
                    old(self).w as int,
                    old(self).h as int,
                ),
        ensures
            final(self).wf(),
            final(self)@.linked(),
            final(self)@ == old(self)@.measure_grid(attempt.index as int, tpep@, attempt.corners).0,
            ok == old(self)@.measure_grid(attempt.index as int, tpep@, attempt.corners).1,
            ok ==> final(self).num_grids == old(self).num_grids,
    {
        let index = attempt.index;
        let rc = self.measure_timing_pattern(index, tpep);
        let caps = self.grids[index].caps;
        let first = self.capstones[caps[0] as usize];
        let last = self.capstones[caps[2] as usize];
        proof {
            assert forall|j: int| 0 <= j < 4 implies near(#[trigger] first.corners[j]) && near(
                #[trigger] last.corners[j],
            ) by {
                assert(in_image(self@.capstones[caps[0] as int].corners[j], self.w as int, self.h as int));
                assert(in_image(self@.capstones[caps[2] as int].corners[j], self.w as int, self.h as int));
            }
        }
        let meet = line_intersect(&first.corners[0], &first.corners[1], &last.corners[0], &last.corners[3]);
        if rc < 0 {
            self.discard_grid(index, &attempt.corners);
            return false;
        }
        match meet {
            None => {
                self.discard_grid(index, &attempt.corners);
                false
            },
            Some(point) => {
                self.grids[index].align = point;
                proof {
                    let want = old(self)@.measure_grid(index as int, tpep@, attempt.corners).0;
                    assert(self@.grids =~= want.grids);
                }
                true
            },
        }
    }
}

/// Twice the area of the triangle of the points `a`, `b` and `c`: the
/// area of one module, if `a` and `c` lie one module from `b` along the
/// two edges of the grid.
pub open spec fn area_estimate(a: QuircPoint, b: QuircPoint, c: QuircPoint) -> int {
    let area = (a.x - b.x) * -(c.y - b.y) + (a.y - b.y) * (c.x - b.x);
    if area < 0 {
        -area
    } else {
        area
    }
}

/// The step along the columns in the direction `dir` of the spiral.
pub open spec fn spiral_dx(dir: int) -> int {
    if dir == 0 {
        1
    } else if dir == 2 {
        -1
    } else {
        0
    }
}

/// The step along the rows in the direction `dir` of the spiral.
pub open spec fn spiral_dy(dir: int) -> int {
    if dir == 1 {
        -1
    } else if dir == 3 {
        1
    } else {
        0
    }
}

/// A length that no leg of the spiral for an area `est` reaches.
pub open spec fn spiral_limit(est: int) -> int {
    10 * est + 1
}

/// A leg whose square is below a hundred times the area is below the limit.
pub proof fn lemma_spiral_limit(step_size: int, est: int)
    by (nonlinear_arith)
    requires
        1 <= step_size,
        step_size * step_size < est * 100,
    ensures
        step_size < spiral_limit(est),
{
}

/// The point where the leftmost point so far and one more point lies
/// farther to the left of a line with the direction `hd`.
pub open spec fn more_left(best: (int, QuircPoint), hd: QuircPoint, x: int, y: int) -> (int, QuircPoint) {
    if -hd.y * x + hd.x * y < best.0 {
        (-hd.y * x + hd.x * y, QuircPoint { x: x as isize, y: y as isize })
    } else {
        best
    }
}

/// The leftmost of `start` and the two ends of each of the first `n`
/// spans; among equals the earliest.
pub open spec fn leftmost(spans: Seq<Span>, hd: QuircPoint, start: (int, QuircPoint), n: int) -> (int, QuircPoint)
    decreases n,
{
    if n <= 0 {
        start
    } else {
        let s = spans[n - 1];
        more_left(
            more_left(leftmost(spans, hd, start, n - 1), hd, s.left as int, s.y as int),
            hd,
            s.right as int,
            s.y as int,
        )
    }
}

impl Scene {
    /// The search for the alignment pattern: a spiral from the point in
    /// column `x` of row `y` whose legs grow by one pixel with every
    /// second turn, for as long as the square of a leg is below a hundred
    /// times the area `est`. The region of each point on the way is asked
    /// for; the first that has between half and twice `est` pixels is the
    /// pattern. The state is the direction of the leg, its length and the
    /// number of points of it that are done.
    pub open spec fn spiral(self, x: int, y: int, dir: int, step_size: int, k: int, est: int) -> (
        Scene,
        Option<int>,
    )
        decreases
            2 * (spiral_limit(est) - step_size) + if dir % 2 == 0 {
                1int
            } else {
                0int
            },
            step_size - k,
    {
        let (probed, code) = self.region_code(x, y);
        let turn = (dir + 1) % 4;
        if step_size < 1 || dir < 0 || step_size * step_size >= est * 100 {
            (self, None)
        } else if k >= step_size {
            proof {
                lemma_spiral_limit(step_size, est);
            }
            self.spiral(
                x,
                y,
                turn,
                if turn % 2 == 0 {
                    step_size + 1
                } else {
                    step_size
                },
                0,
                est,
            )
        } else if code is Some && est / 2 <= probed.regions[code->0].count <= est * 2 {
            (probed, code)
        } else {
            probed.spiral(x + spiral_dx(dir), y + spiral_dy(dir), dir, step_size, k + 1, est)
        }
    }

    /// The direction of the line from the first finder pattern of the grid
    /// `index` to its last.
    pub open spec fn grid_line(self, index: int) -> QuircPoint {
        let first = self.capstones[self.grids[index].caps[0] as int].center;
        let last = self.capstones[self.grids[index].caps[2] as int].center;
        QuircPoint { x: (last.x - first.x) as isize, y: (last.y - first.y) as isize }
    }

    /// Whether the direction of the line of the grid `index` can be
    /// computed: the centres of its first and last finder pattern are not
    /// too far from the image, nor from each other.
    pub open spec fn has_grid_line(self, index: int) -> bool {
        let first = self.capstones[self.grids[index].caps[0] as int].center;
        let last = self.capstones[self.grids[index].caps[2] as int].center;
        &&& near(first)
        &&& near(last)
        &&& -0x7fff_ffff <= last.x - first.x <= 0x7fff_ffff
        &&& -0x7fff_ffff <= last.y - first.y <= 0x7fff_ffff
    }

    /// The scene after the alignment pattern of the grid `index` is
    /// looked for. The points `a` and `c` lie one module from the
    /// estimated corner of the pattern, along the two edges of the grid:
    /// the three give the area of a module. Nothing is done for a grid of
    /// 21 modules, which has no alignment pattern. If the search from the
    /// estimated corner finds the pattern, the corner becomes the point of
    /// the pattern that lies farthest to the left of the line of the grid,
    /// among its seed and the ends of its spans.
    pub open spec fn find_alignment_pattern(self, index: int, a: QuircPoint, c: QuircPoint) -> Scene {
        let grid = self.grids[index];
        let est = area_estimate(a, grid.align, c);
        let (searched, found) = self.spiral(grid.align.x as int, grid.align.y as int, 0, 1, 0, est);
        let seed = searched.regions[found->0].seed;
        let hd = self.grid_line(index);
        let fill = searched.corners_fill(found->0);
        let best = leftmost(fill.spans, hd, (-hd.y * seed.x + hd.x * seed.y, seed), fill.spans.len() as int);
        if grid.grid_size <= 21 {
            self
        } else if found is None {
            searched
        } else {
            Scene {
                pixels: fill.pixels,
                grids: searched.grids.update(
                    index,
                    QuircGrid { align_region: found->0 as i32, align: best.1, ..grid },
                ),
                ..searched
            }
        }
    }
}

/// A bound on the legs of the spiral for points that are not too far from
/// the image.
proof fn lemma_leg_bound(step_size: int, est: int)
    by (nonlinear_arith)
    requires
        1 <= step_size,
        0 <= est <= 0x2_0000_0000_0000_0000,
        step_size * step_size < est * 100,
    ensures
        step_size < 0x20_0000_0000,
{
}

impl Quirc {
    /// Walks the spiral from the point in column `x` of row `y` and
    /// returns the first region on it that has between half and twice
    /// `est` pixels.
    #[verifier::rlimit(50)]
    fn search_spiral(&mut self, x: isize, y: isize, est: i128) -> (found: Option<usize>)
        requires
            old(self).wf(),
            old(self)@.linked(),
            -0x7fff_ffff <= x <= 0x7fff_ffff,
            -0x7fff_ffff <= y <= 0x7fff_ffff,
            0 <= est <= 0x2_0000_0000_0000_0000,
        ensures
            final(self).wf(),
            final(self)@.linked(),
            final(self)@ == old(self)@.spiral(x as int, y as int, 0, 1, 0, est as int).0,
            match found {
                Some(code) => old(self)@.spiral(x as int, y as int, 0, 1, 0, est as int).1 == Some(code as int)
                    && QUIRC_PIXEL_REGION <= code < final(self).num_regions,
                None => old(self)@.spiral(x as int, y as int, 0, 1, 0, est as int).1 is None,
            },
            final(self)@.capstones == old(self)@.capstones,
            final(self)@.grids == old(self)@.grids,
            final(self).num_grids == old(self).num_grids,
            final(self).num_capstones == old(self).num_capstones,
            same_colors(old(self).pixels@, final(self).pixels@),
    {
        let ghost start = self@;
        let ghost goal = start.spiral(x as int, y as int, 0, 1, 0, est as int);
        let mut bx: i128 = x as i128;
        let mut by: i128 = y as i128;
        let mut step_size: i128 = 1;
        let mut dir: usize = 0;
        let mut legs: i128 = 0;
        let mut square: i128 = 1;
        while square < est * 100
            invariant
                square == step_size * step_size,
                self.wf(),
                self@.linked(),
                1 <= step_size <= 0x20_0000_0000,
                0 <= dir < 4,
                0 <= est <= 0x2_0000_0000_0000_0000,
                legs == 2 * (step_size - 1) + dir % 2,
                -0x7fff_ffff - legs * 0x20_0000_0000 <= bx <= 0x7fff_ffff + legs * 0x20_0000_0000,
                -0x7fff_ffff - legs * 0x20_0000_0000 <= by <= 0x7fff_ffff + legs * 0x20_0000_0000,
                self@.capstones == start.capstones,
                self@.grids == start.grids,
                self.num_grids == start.num_grids,
                self.num_capstones == start.num_capstones,
                same_colors(old(self).pixels@, self.pixels@),
                start == old(self)@,
                goal == start.spiral(x as int, y as int, 0, 1, 0, est as int),
                self@.spiral(bx as int, by as int, dir as int, step_size as int, 0, est as int) == goal,
            decreases
                2 * (0x20_0000_0000 - step_size) + if dir % 2 == 0 {
                    1int
                } else {
                    0int
                },
        {
            proof {
                lemma_leg_bound(step_size as int, est as int);
            }
            let mut k: i128 = 0;
            while k < step_size
                invariant
                    0 <= k <= step_size,
                    self.wf(),
                    self@.linked(),
                    1 <= step_size < 0x20_0000_0000,
                    step_size * step_size < est * 100,
                    0 <= dir < 4,
                    0 <= est <= 0x2_0000_0000_0000_0000,
                    0 <= legs <= 0x40_0000_0000,
                    -0x7fff_ffff - legs * 0x20_0000_0000 - k <= bx <= 0x7fff_ffff + legs * 0x20_0000_0000 + k,
                    -0x7fff_ffff - legs * 0x20_0000_0000 - k <= by <= 0x7fff_ffff + legs * 0x20_0000_0000 + k,
                    self@.capstones == start.capstones,
                    self@.grids == start.grids,
                    self.num_grids == start.num_grids,
                    self.num_capstones == start.num_capstones,
                    same_colors(old(self).pixels@, self.pixels@),
                    start == old(self)@,
                    goal == start.spiral(x as int, y as int, 0, 1, 0, est as int),
                    self@.spiral(bx as int, by as int, dir as int, step_size as int, k as int, est as int) == goal,
                decreases step_size - k,
            {
                let ghost here = self@;
                let code = if bx < 0 || by < 0 || bx >= self.w as i128 || by >= self.h as i128 {
                    None
                } else {
                    self.region_code(bx as usize, by as usize)
                };
                proof {
                    assert(self@ == here.region_code(bx as int, by as int).0);
                }
                match code {
                    Some(region) => {
                        let count = self.regions[region].count as i128;
                        if count >= est / 2 && count <= est * 2 {
                            return Some(region);
                        }
                    },
                    None => {},
                }
                if dir == 0 {
                    bx += 1;
                } else if dir == 1 {
                    by -= 1;
                } else if dir == 2 {
                    bx -= 1;
                } else {
                    by += 1;
                }
                k += 1;
            }
            dir = (dir + 1) % 4;
            if dir % 2 == 0 {
                step_size += 1;
                proof {
                    lemma_products(step_size as int, step_size as int, 0x20_0000_0000, 0x20_0000_0000);
                    assert(0x20_0000_0000 * 0x20_0000_0000 == 0x400_0000_0000_0000_0000int);
                }
                square = step_size * step_size;
            }
            legs += 1;
        }
        None
    }

    /// Says whether the direction of the line of the grid `index` can be
    /// computed.
    pub fn has_grid_line(&self, index: usize) -> (ok: bool)
        requires
            self.wf(),
            self@.linked(),
            index < self.num_grids,
        ensures
            ok == self@.has_grid_line(index as int),
    {
        let first = self.capstones[self.grids[index].caps[0] as usize].center;
        let last = self.capstones[self.grids[index].caps[2] as usize].center;
        if !is_near(&first) || !is_near(&last) {
            return false;
        }
        let dx = last.x as i64 - first.x as i64;
        let dy = last.y as i64 - first.y as i64;
        -0x7fff_ffff <= dx && dx <= 0x7fff_ffff && -0x7fff_ffff <= dy && dy <= 0x7fff_ffff
    }

    /// Looks for the alignment pattern of the grid `index` around the
    /// estimated corner, and moves the corner onto the pattern if it is
    /// found. The points `a` and `c` lie one module from the estimated
    /// corner along the two edges of the grid.
    pub fn find_alignment_pattern(&mut self, index: usize, a: &QuircPoint, c: &QuircPoint)
        requires
            old(self).wf(),
            old(self)@.linked(),
            index < old(self).num_grids,
            old(self)@.has_grid_line(index as int),
            near(*a),
            near(*c),
            near(old(self).grids[index as int].align),
        ensures
            final(self).wf(),
            final(self)@.linked(),
            final(self)@ == old(self)@.find_alignment_pattern(index as int, *a, *c),
            final(self).num_grids == old(self).num_grids,
    {
        let grid = self.grids[index];
        if grid.grid_size <= 21 {
            return ;
        }
        let b = grid.align;
        let ghost k: int = 0x1_0000_0000;
        let ax = a.x as i128 - b.x as i128;
        let ay = a.y as i128 - b.y as i128;
        let cx = c.x as i128 - b.x as i128;
        let cy = c.y as i128 - b.y as i128;
        proof {
            lemma_products(ax as int, -cy as int, k, k);
            lemma_products(ay as int, cx as int, k, k);
            assert(k * k == 0x1_0000_0000_0000_0000);
        }
        let area = ax * -cy + ay * cx;
        let est = if area < 0 {
            -area
        } else {
            area
        };
        let first = self.capstones[grid.caps[0] as usize].center;
        let last = self.capstones[grid.caps[2] as usize].center;
        let hd = QuircPoint { x: last.x - first.x, y: last.y - first.y };
        let ghost before = self@;
        let found = self.search_spiral(b.x, b.y, est);
        let code = match found {
            Some(code) => code,
            None => {
                return ;
            },
        };
        let seed = self.regions[code].seed;
        let (_, spans) = self.refill_region(code);
        proof {
            lemma_products(-hd.y as int, seed.x as int, k, k);
            lemma_products(hd.x as int, seed.y as int, k, k);
        }
        let mut score: i128 = -(hd.y as i128) * seed.x as i128 + hd.x as i128 * seed.y as i128;
        let mut align = seed;
        let ghost first_best = (score as int, seed);
        let mut i: usize = 0;
        while i < spans.len()
            invariant
                i <= spans@.len(),
                self.w <= 0x7fff_ffff,
                self.h <= 0x7fff_ffff,
                near(hd),
                forall|q: int| 0 <= q < spans@.len() ==> span_inside(#[trigger] spans@[q], self.w as int, self.h as int),
                (score as int, align) == leftmost(spans@, hd, first_best, i as int),
            decreases spans@.len() - i,
        {
            let s = spans[i];
            let ghost k: int = 0x1_0000_0000;
            proof {
                lemma_products(-hd.y as int, s.left as int, k, k);
                lemma_products(-hd.y as int, s.right as int, k, k);
                lemma_products(hd.x as int, s.y as int, k, k);
                assert(k * k == 0x1_0000_0000_0000_0000);
            }
            let d: i128 = -(hd.y as i128) * s.left as i128 + hd.x as i128 * s.y as i128;
            if d < score {
                score = d;
                align = QuircPoint { x: s.left as isize, y: s.y as isize };
            }
            let d: i128 = -(hd.y as i128) * s.right as i128 + hd.x as i128 * s.y as i128;
            if d < score {
                score = d;
                align = QuircPoint { x: s.right as isize, y: s.y as isize };
            }
            i += 1;
        }
        self.grids[index].align_region = code as i32;
        self.grids[index].align = align;
        proof {
            let want = before.find_alignment_pattern(index as int, *a, *c);
            assert(self@.grids =~= want.grids);
        }
    }
}

} // verus!
