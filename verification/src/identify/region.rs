//! Regions: connected sets of black pixels with a label of their own.

use crate::identify::floodfill::{
    count_label, lemma_count_label_bound, lemma_fill, span_inside, span_total, spec_fill, Fill, Span,
};
use crate::identify::linear_algebra::lemma_products;
use crate::ops::{
    in_image, lemma_pixel_index, same_colors, Quirc, QuircPoint, QuircRegion, Scene, QUIRC_MAX_REGIONS, QUIRC_PIXEL_BLACK,
    QUIRC_PIXEL_REGION, QUIRC_PIXEL_WHITE,
};
use vstd::prelude::*;

verus! {

impl Scene {
    /// The scene after the region of the pixel in column `x` of row `y` is
    /// asked for, and the region. A pixel that has a region gives it. A
    /// black pixel that has none starts a new region, if there is a label
    /// left: the region is what filling from the pixel reaches, and its
    /// count is the number of pixels in the spans that were filled.
    pub open spec fn region_code(self, x: int, y: int) -> (Scene, Option<int>) {
        let pixel = self.label(x, y);
        let fill = spec_fill(
            Fill { pixels: self.pixels, spans: Seq::empty() },
            self.w,
            self.h,
            x,
            y,
            pixel,
            self.num_regions as u16,
            0,
        );
        if !self.inside(x, y) {
            (self, None)
        } else if pixel >= QUIRC_PIXEL_REGION {
            (self, Some(pixel as int))
        } else if pixel == QUIRC_PIXEL_WHITE {
            (self, None)
        } else if self.num_regions >= QUIRC_MAX_REGIONS {
            (self, None)
        } else {
            (
                Scene {
                    pixels: fill.pixels,
                    num_regions: self.num_regions + 1,
                    regions: self.regions.update(
                        self.num_regions,
                        QuircRegion {
                            seed: QuircPoint { x: x as isize, y: y as isize },
                            count: span_total(fill.spans) as u32,
                            capstone: -1i32,
                        },
                    ),
                    ..self
                },
                Some(self.num_regions),
            )
        }
    }
}

/// The best of a point and the best so far: the point if it is farther
/// from `reference`, by the square of the distance.
pub open spec fn farther(best: (int, QuircPoint), reference: QuircPoint, x: int, y: int) -> (int, QuircPoint) {
    let dx = x - reference.x;
    let dy = y - reference.y;
    if dx * dx + dy * dy > best.0 {
        (dx * dx + dy * dy, QuircPoint { x: x as isize, y: y as isize })
    } else {
        best
    }
}

/// The farthest from `reference` among `start` and the two ends of each of
/// the first `n` spans; among equals the earliest.
pub open spec fn farthest(spans: Seq<Span>, reference: QuircPoint, start: (int, QuircPoint), n: int) -> (
    int,
    QuircPoint,
)
    decreases n,
{
    if n <= 0 {
        start
    } else {
        let s = spans[n - 1];
        farther(
            farther(farthest(spans, reference, start, n - 1), reference, s.left as int, s.y as int),
            reference,
            s.right as int,
            s.y as int,
        )
    }
}

/// For each of four directions, the point that lies farthest in it, and
/// how far.
pub struct Extremes {
    pub scores: Seq<int>,
    pub corners: Seq<QuircPoint>,
}

/// How far a point lies along `dir`, to the right of it, against it and
/// to the left of it.
pub open spec fn projections(dir: QuircPoint, x: int, y: int) -> Seq<int> {
    let up = x * dir.x + y * dir.y;
    let right = x * -dir.y + y * dir.x;
    seq![up, right, -up, -right]
}

/// The extremes with one more point taken in.
pub open spec fn extremes_with(e: Extremes, dir: QuircPoint, x: int, y: int) -> Extremes {
    let p = projections(dir, x, y);
    Extremes {
        scores: Seq::new(
            4,
            |j: int|
                if p[j] > e.scores[j] {
                    p[j]
                } else {
                    e.scores[j]
                },
        ),
        corners: Seq::new(
            4,
            |j: int|
                if p[j] > e.scores[j] {
                    QuircPoint { x: x as isize, y: y as isize }
                } else {
                    e.corners[j]
                },
        ),
    }
}

/// The extremes of `start` and the two ends of each of the first `n` spans.
pub open spec fn extremes(spans: Seq<Span>, dir: QuircPoint, start: Extremes, n: int) -> Extremes
    decreases n,
{
    if n <= 0 {
        start
    } else {
        let s = spans[n - 1];
        extremes_with(
            extremes_with(extremes(spans, dir, start, n - 1), dir, s.left as int, s.y as int),
            dir,
            s.right as int,
            s.y as int,
        )
    }
}

/// The extremes of the single point `seed`.
pub open spec fn extremes_of(dir: QuircPoint, seed: QuircPoint) -> Extremes {
    Extremes {
        scores: projections(dir, seed.x as int, seed.y as int),
        corners: seq![seed, seed, seed, seed],
    }
}

impl Scene {
    /// The region `rcode` filled with black from its seed.
    pub open spec fn blackened(self, rcode: int) -> Fill {
        let seed = self.regions[rcode].seed;
        spec_fill(
            Fill { pixels: self.pixels, spans: Seq::empty() },
            self.w,
            self.h,
            seed.x as int,
            seed.y as int,
            rcode as u16,
            QUIRC_PIXEL_BLACK,
            0,
        )
    }

    /// The labels after the corners of the region `rcode` are found: the
    /// region is filled with black from its seed and then, from its seed
    /// again, black is filled with the label of the region.
    pub open spec fn corners_fill(self, rcode: int) -> Fill {
        let seed = self.regions[rcode].seed;
        spec_fill(
            Fill { pixels: self.blackened(rcode).pixels, spans: Seq::empty() },
            self.w,
            self.h,
            seed.x as int,
            seed.y as int,
            QUIRC_PIXEL_BLACK,
            rcode as u16,
            0,
        )
    }

    /// The corner of the region `rcode` that is farthest from `reference`,
    /// among the ends of the spans of the region.
    pub open spec fn far_corner(self, rcode: int, reference: QuircPoint, corner: QuircPoint) -> QuircPoint {
        let spans = self.blackened(rcode).spans;
        farthest(spans, reference, (-1, corner), spans.len() as int).1
    }

    /// The four corners of the region `rcode`: the ends of its spans that
    /// lie farthest along the direction from `reference` to the far
    /// corner, to the right of it, against it and to the left of it.
    pub open spec fn region_corners(self, rcode: int, reference: QuircPoint, corner: QuircPoint) -> Seq<QuircPoint> {
        let seed = self.regions[rcode].seed;
        let far = self.far_corner(rcode, reference, corner);
        let dir = QuircPoint { x: (far.x - reference.x) as isize, y: (far.y - reference.y) as isize };
        let fill = self.corners_fill(rcode);
        extremes(fill.spans, dir, extremes_of(dir, seed), fill.spans.len() as int).corners
    }
}

proof fn lemma_farthest_inside(spans: Seq<Span>, reference: QuircPoint, start: (int, QuircPoint), n: int, w: int, h: int)
    requires
        0 <= n <= spans.len(),
        0 <= w <= 0x7fff_ffff,
        0 <= h <= 0x7fff_ffff,
        forall|k: int| 0 <= k < n ==> span_inside(#[trigger] spans[k], w, h),
    ensures
        farthest(spans, reference, start, n) == start || in_image(farthest(spans, reference, start, n).1, w, h),
        farthest(spans, reference, start, n).0 >= start.0,
        n > 0 ==> farthest(spans, reference, start, n).0 >= 0,
    decreases n,
{
    if n > 0 {
        let s = spans[n - 1];
        let dx = s.left - reference.x;
        let dy = s.y - reference.y;
        assert(dx * dx + dy * dy >= 0) by (nonlinear_arith);
        let dx2 = s.right - reference.x;
        assert(dx2 * dx2 + dy * dy >= 0) by (nonlinear_arith);
        lemma_farthest_inside(spans, reference, start, n - 1, w, h);
    }
}

proof fn lemma_extremes_inside(spans: Seq<Span>, dir: QuircPoint, start: Extremes, n: int, w: int, h: int)
    requires
        0 <= n <= spans.len(),
        0 <= w <= 0x7fff_ffff,
        0 <= h <= 0x7fff_ffff,
        forall|k: int| 0 <= k < n ==> span_inside(#[trigger] spans[k], w, h),
        start.corners.len() == 4,
        start.scores.len() == 4,
        forall|j: int| 0 <= j < 4 ==> in_image(#[trigger] start.corners[j], w, h),
    ensures
        extremes(spans, dir, start, n).corners.len() == 4,
        extremes(spans, dir, start, n).scores.len() == 4,
        forall|j: int| 0 <= j < 4 ==> in_image(#[trigger] extremes(spans, dir, start, n).corners[j], w, h),
    decreases n,
{
    if n > 0 {
        lemma_extremes_inside(spans, dir, start, n - 1, w, h);
    }
}

impl Quirc {
    /// Finds the region of the pixel in column `x` of row `y`, and makes
    /// one if the pixel is black and has none. Returns `None` for a pixel
    /// outside the image, for a white pixel, and when no label is left.
    pub fn region_code(&mut self, x: usize, y: usize) -> (r: Option<usize>)
        requires
            old(self).wf(),
            old(self)@.linked(),
        ensures
            final(self).wf(),
            final(self)@.linked(),
            final(self)@ == old(self)@.region_code(x as int, y as int).0,
            match r {
                Some(code) => old(self)@.region_code(x as int, y as int).1 == Some(code as int)
                    && QUIRC_PIXEL_REGION <= code < final(self).num_regions,
                None => old(self)@.region_code(x as int, y as int).1 is None,
            },
            final(self).num_capstones == old(self).num_capstones,
            final(self).num_grids == old(self).num_grids,
            final(self).num_regions >= old(self).num_regions,
            same_colors(old(self).pixels@, final(self).pixels@),
    {
        if x >= self.w || y >= self.h {
            return None;
        }
        proof {
            lemma_pixel_index(self.w as int, self.h as int, x as int, y as int);
        }
        let pixel = self.pixels[y * self.w + x];
        if pixel >= QUIRC_PIXEL_REGION {
            return Some(pixel as usize);
        }
        if pixel == QUIRC_PIXEL_WHITE {
            return None;
        }
        if self.num_regions >= QUIRC_MAX_REGIONS {
            return None;
        }
        let region = self.num_regions;
        let ghost before = self@;
        let ghost start = Fill { pixels: self.pixels@, spans: Seq::empty() };
        let mut spans: Vec<Span> = Vec::new();
        self.flood_fill_seed(x, y, pixel, region as u16, &mut spans, 0);
        let ghost fill = Fill { pixels: self.pixels@, spans: spans@ };
        proof {
            lemma_fill(start, self.w as int, self.h as int, x as int, y as int, pixel, region as u16, 0);
            lemma_count_label_bound(start.pixels, pixel, start.pixels.len() as int);
            lemma_count_label_bound(fill.pixels, pixel, start.pixels.len() as int);
            assert(span_total(start.spans) == 0);
            lemma_span_total_nonneg(fill.spans);
        }
        let mut count: u32 = 0;
        let mut i: usize = 0;
        while i < spans.len()
            invariant
                i <= spans@.len(),
                count == span_total(spans@.subrange(0, i as int)),
                0 < span_total(spans@) <= 0xffff_ffff,
                forall|k: int| 0 <= k < spans@.len() ==> (#[trigger] spans@[k]).left <= spans@[k].right,
            decreases spans@.len() - i,
        {
            proof {
                assert(spans@.subrange(0, i as int + 1).drop_last() =~= spans@.subrange(0, i as int));
                lemma_span_total_prefix(spans@, i as int + 1);
            }
            count = count + (spans[i].right - spans[i].left + 1) as u32;
            i += 1;
        }
        assert(spans@.subrange(0, spans@.len() as int) =~= spans@);
        proof {
            assert forall|q: int| 0 <= q < start.pixels.len() implies ((#[trigger] start.pixels[q] != 0) == (
            fill.pixels[q] != 0)) by {
                assert(fill.pixels[q] == start.pixels[q] || (start.pixels[q] == pixel && fill.pixels[q]
                    == region as u16));
            }
        }
        self.regions[region] = QuircRegion {
            seed: QuircPoint { x: x as isize, y: y as isize },
            count: count,
            capstone: -1,
        };
        self.num_regions += 1;
        proof {
            let after = self@;
            assert forall|r: int| QUIRC_PIXEL_REGION <= r < after.num_regions implies {
                &&& after.inside((#[trigger] after.regions[r]).seed.x as int, after.regions[r].seed.y as int)
                &&& after.label(after.regions[r].seed.x as int, after.regions[r].seed.y as int) == r
                &&& after.regions[r].count > 0
                &&& -1 <= after.regions[r].capstone < after.num_capstones
            } by {
                if r < region {
                    let seed = before.regions[r].seed;
                    lemma_pixel_index(self.w as int, self.h as int, seed.x as int, seed.y as int);
                    assert(fill.pixels[seed.y * self.w + seed.x] == start.pixels[seed.y * self.w + seed.x]);
                }
            }
        }
        Some(region)
    }
}

/// Whether the scores and the first four corners are those of `e`.
pub open spec fn holds_extremes(scores: [i128; 4], corners: Seq<QuircPoint>, e: Extremes) -> bool {
    &&& e.scores.len() == 4
    &&& e.corners.len() == 4
    &&& corners.len() >= 4
    &&& forall|j: int| 0 <= j < 4 ==> #[trigger] scores@[j] == e.scores[j]
    &&& forall|j: int| 0 <= j < 4 ==> #[trigger] corners[j] == e.corners[j]
}

/// A vector between two points of the image.
pub open spec fn short(dir: QuircPoint) -> bool {
    -0x7fff_ffff <= dir.x <= 0x7fff_ffff && -0x7fff_ffff <= dir.y <= 0x7fff_ffff
}

/// Takes the point in column `x` of row `y` into the extremes.
fn take_extreme(scores: &mut [i128; 4], corners: &mut [QuircPoint], dir: QuircPoint, x: usize, y: usize)
    requires
        old(corners)@.len() >= 4,
        short(dir),
        x <= 0x7fff_ffff,
        y <= 0x7fff_ffff,
    ensures
        final(corners)@.len() == old(corners)@.len(),
        forall|j: int| 4 <= j < old(corners)@.len() ==> final(corners)@[j] == old(corners)@[j],
        forall|e: Extremes|
            holds_extremes(*old(scores), old(corners)@, e) ==> holds_extremes(
                *final(scores),
                final(corners)@,
                extremes_with(e, dir, x as int, y as int),
            ),
{
    let ghost k: int = 0x8000_0000;
    proof {
        lemma_products(x as int, dir.x as int, k, k);
        lemma_products(y as int, dir.y as int, k, k);
        lemma_products(x as int, -dir.y as int, k, k);
        lemma_products(y as int, dir.x as int, k, k);
        assert(k * k == 0x4000_0000_0000_0000);
    }
    let up: i128 = x as i128 * dir.x as i128 + y as i128 * dir.y as i128;
    let right: i128 = x as i128 * -(dir.y as i128) + y as i128 * dir.x as i128;
    let candidates: [i128; 4] = [up, right, -up, -right];
    let point = QuircPoint { x: x as isize, y: y as isize };
    assert(candidates@ =~= projections(dir, x as int, y as int).map_values(|v: int| v as i128));
    let mut j: usize = 0;
    while j < 4
        invariant
            j <= 4,
            corners@.len() == old(corners)@.len(),
            corners@.len() >= 4,
            forall|q: int| 4 <= q < corners@.len() ==> corners@[q] == old(corners)@[q],
            forall|q: int| j <= q < 4 ==> scores@[q] == old(scores)@[q] && corners@[q] == old(corners)@[q],
            forall|q: int|
                0 <= q < j ==> #[trigger] scores@[q] == if candidates@[q] > old(scores)@[q] {
                    candidates@[q]
                } else {
                    old(scores)@[q]
                },
            forall|q: int|
                0 <= q < j ==> #[trigger] corners@[q] == if candidates@[q] > old(scores)@[q] {
                    point
                } else {
                    old(corners)@[q]
                },
        decreases 4 - j,
    {
        if candidates[j] > scores[j] {
            scores[j] = candidates[j];
            corners[j] = point;
        }
        j += 1;
    }
    assert forall|e: Extremes| holds_extremes(*old(scores), old(corners)@, e) implies holds_extremes(
        *scores,
        corners@,
        extremes_with(e, dir, x as int, y as int),
    ) by {
        let p = projections(dir, x as int, y as int);
        assert(forall|q: int| 0 <= q < 4 ==> candidates@[q] == p[q]);
    }
}

impl Quirc {
    /// Relabels the region `rcode` black and then labels it again, both
    /// times by filling from its seed, and returns the spans of the first
    /// and of the second filling.
    pub fn refill_region(&mut self, rcode: usize) -> (spans: (Vec<Span>, Vec<Span>))
        requires
            old(self).wf(),
            old(self)@.linked(),
            QUIRC_PIXEL_REGION <= rcode < old(self).num_regions,
        ensures
            final(self).wf(),
            final(self)@.linked(),
            final(self)@ == (Scene { pixels: old(self)@.corners_fill(rcode as int).pixels, ..old(self)@ }),
            spans.0@ == old(self)@.blackened(rcode as int).spans,
            spans.1@ == old(self)@.corners_fill(rcode as int).spans,
            spans.0@.len() > 0,
            forall|k: int|
                0 <= k < spans.0@.len() ==> span_inside(#[trigger] spans.0@[k], old(self).w as int, old(self).h as int),
            forall|k: int|
                0 <= k < spans.1@.len() ==> span_inside(#[trigger] spans.1@[k], old(self).w as int, old(self).h as int),
            same_colors(old(self).pixels@, final(self).pixels@),
    {
        let ghost before = self@;
        let w = self.w;
        let h = self.h;
        let seed = self.regions[rcode].seed;
        let seed_x = seed.x as usize;
        let seed_y = seed.y as usize;
        let label = rcode as u16;
        proof {
            lemma_pixel_index(w as int, h as int, seed.x as int, seed.y as int);
        }

        let ghost start = Fill { pixels: self.pixels@, spans: Seq::empty() };
        let mut first: Vec<Span> = Vec::new();
        self.flood_fill_seed(seed_x, seed_y, label, QUIRC_PIXEL_BLACK, &mut first, 0);
        let ghost blackened = Fill { pixels: self.pixels@, spans: first@ };
        proof {
            lemma_fill(start, w as int, h as int, seed.x as int, seed.y as int, label, QUIRC_PIXEL_BLACK, 0);
        }

        let ghost restart = Fill { pixels: self.pixels@, spans: Seq::empty() };
        let mut second: Vec<Span> = Vec::new();
        self.flood_fill_seed(seed_x, seed_y, QUIRC_PIXEL_BLACK, label, &mut second, 0);
        let ghost fill = Fill { pixels: self.pixels@, spans: second@ };
        proof {
            lemma_fill(restart, w as int, h as int, seed.x as int, seed.y as int, QUIRC_PIXEL_BLACK, label, 0);
            assert(fill == before.corners_fill(rcode as int));
            let after = self@;
            assert forall|r: int| QUIRC_PIXEL_REGION <= r < after.num_regions implies {
                &&& after.inside((#[trigger] after.regions[r]).seed.x as int, after.regions[r].seed.y as int)
                &&& after.label(after.regions[r].seed.x as int, after.regions[r].seed.y as int) == r
                &&& after.regions[r].count > 0
                &&& -1 <= after.regions[r].capstone < after.num_capstones
            } by {
                let other = before.regions[r].seed;
                lemma_pixel_index(w as int, h as int, other.x as int, other.y as int);
                let at = other.y * w + other.x;
                assert(blackened.pixels[at] == start.pixels[at] || (start.pixels[at] == label && blackened.pixels[at]
                    == QUIRC_PIXEL_BLACK));
                assert(fill.pixels[at] == restart.pixels[at] || (restart.pixels[at] == QUIRC_PIXEL_BLACK
                    && fill.pixels[at] == label));
            }
            assert forall|q: int| 0 <= q < start.pixels.len() implies ((#[trigger] start.pixels[q] != 0) == (
            fill.pixels[q] != 0)) by {
                assert(blackened.pixels[q] == start.pixels[q] || (start.pixels[q] == label && blackened.pixels[q]
                    == QUIRC_PIXEL_BLACK));
                assert(fill.pixels[q] == restart.pixels[q] || (restart.pixels[q] == QUIRC_PIXEL_BLACK
                    && fill.pixels[q] == label));
            }
            assert forall|q: int| 0 <= q < after.pixels.len() implies #[trigger] after.pixels[q]
                < after.num_regions by {
                assert(blackened.pixels[q] == start.pixels[q] || (start.pixels[q] == label && blackened.pixels[q]
                    == QUIRC_PIXEL_BLACK));
                assert(fill.pixels[q] == restart.pixels[q] || (restart.pixels[q] == QUIRC_PIXEL_BLACK
                    && fill.pixels[q] == label));
            }
        }
        (first, second)
    }

    /// Finds the four corners of the region `rcode` as seen from
    /// `reference`, and writes them to the first four entries of `corners`.
    /// The region is relabelled black and then labelled again on the way.
    pub fn find_region_corners(&mut self, rcode: usize, reference: QuircPoint, corners: &mut [QuircPoint])
        requires
            old(self).wf(),
            old(self)@.linked(),
            QUIRC_PIXEL_REGION <= rcode < old(self).num_regions,
            in_image(reference, old(self).w as int, old(self).h as int),
            old(corners)@.len() >= 4,
        ensures
            final(self).wf(),
            final(self)@.linked(),
            final(self)@ == (Scene { pixels: old(self)@.corners_fill(rcode as int).pixels, ..old(self)@ }),
            final(corners)@.len() == old(corners)@.len(),
            forall|j: int| 4 <= j < old(corners)@.len() ==> final(corners)@[j] == old(corners)@[j],
            forall|j: int|
                0 <= j < 4 ==> #[trigger] final(corners)@[j] == old(self)@.region_corners(
                    rcode as int,
                    reference,
                    old(corners)@[0],
                )[j],
            forall|j: int|
                0 <= j < 4 ==> in_image(#[trigger] final(corners)@[j], old(self).w as int, old(self).h as int),
            same_colors(old(self).pixels@, final(self).pixels@),
    {
        let ghost before = self@;
        let w = self.w;
        let h = self.h;
        let seed = self.regions[rcode].seed;
        let (first, second) = self.refill_region(rcode);

        let mut best: i128 = -1;
        let mut far = corners[0];
        let mut i: usize = 0;
        while i < first.len()
            invariant
                i <= first@.len(),
                w <= 0x7fff_ffff,
                h <= 0x7fff_ffff,
                in_image(reference, w as int, h as int),
                forall|k: int| 0 <= k < first@.len() ==> span_inside(#[trigger] first@[k], w as int, h as int),
                old(corners)@.len() >= 4,
                (best as int, far) == farthest(first@, reference, (-1, old(corners)@[0]), i as int),
            decreases first@.len() - i,
        {
            let s = first[i];
            let ghost k: int = 0x8000_0000;
            let dy: i128 = s.y as i128 - reference.y as i128;
            let dx: i128 = s.left as i128 - reference.x as i128;
            proof {
                lemma_products(dx as int, dx as int, k, k);
                lemma_products(dy as int, dy as int, k, k);
                assert(k * k == 0x4000_0000_0000_0000);
            }
            let d: i128 = dx * dx + dy * dy;
            if d > best {
                best = d;
                far = QuircPoint { x: s.left as isize, y: s.y as isize };
            }
            let dx: i128 = s.right as i128 - reference.x as i128;
            proof {
                lemma_products(dx as int, dx as int, k, k);
            }
            let d: i128 = dx * dx + dy * dy;
            if d > best {
                best = d;
                far = QuircPoint { x: s.right as isize, y: s.y as isize };
            }
            i += 1;
        }
        proof {
            lemma_farthest_inside(
                first@,
                reference,
                (-1, old(corners)@[0]),
                first@.len() as int,
                w as int,
                h as int,
            );
            assert(far == before.far_corner(rcode as int, reference, old(corners)@[0]));
        }

        let dir = QuircPoint { x: far.x - reference.x, y: far.y - reference.y };
        let ghost k: int = 0x8000_0000;
        proof {
            lemma_products(seed.x as int, dir.x as int, k, k);
            lemma_products(seed.y as int, dir.y as int, k, k);
            lemma_products(seed.x as int, -dir.y as int, k, k);
            lemma_products(seed.y as int, dir.x as int, k, k);
            assert(k * k == 0x4000_0000_0000_0000);
        }
        let up: i128 = seed.x as i128 * dir.x as i128 + seed.y as i128 * dir.y as i128;
        let right: i128 = seed.x as i128 * -(dir.y as i128) + seed.y as i128 * dir.x as i128;
        let mut scores: [i128; 4] = [up, right, -up, -right];
        corners[0] = seed;
        corners[1] = seed;
        corners[2] = seed;
        corners[3] = seed;
        proof {
            assert(holds_extremes(scores, corners@, extremes_of(dir, seed)));
        }

        i = 0;
        while i < second.len()
            invariant
                i <= second@.len(),
                w <= 0x7fff_ffff,
                h <= 0x7fff_ffff,
                short(dir),
                corners@.len() == old(corners)@.len(),
                forall|j: int| 4 <= j < old(corners)@.len() ==> corners@[j] == old(corners)@[j],
                forall|k: int| 0 <= k < second@.len() ==> span_inside(#[trigger] second@[k], w as int, h as int),
                holds_extremes(scores, corners@, extremes(second@, dir, extremes_of(dir, seed), i as int)),
            decreases second@.len() - i,
        {
            let s = second[i];
            take_extreme(&mut scores, corners, dir, s.left, s.y);
            take_extreme(&mut scores, corners, dir, s.right, s.y);
            i += 1;
        }
        proof {
            lemma_extremes_inside(second@, dir, extremes_of(dir, seed), second@.len() as int, w as int, h as int);
        }
    }
}

/// The pixels in the first `n` spans are at most those in all of them.
pub proof fn lemma_span_total_prefix(spans: Seq<Span>, n: int)
    requires
        0 <= n <= spans.len(),
        forall|k: int| 0 <= k < spans.len() ==> (#[trigger] spans[k]).left <= spans[k].right,
    ensures
        0 <= span_total(spans.subrange(0, n)) <= span_total(spans),
    decreases spans.len() - n,
{
    if n < spans.len() {
        lemma_span_total_prefix(spans, n + 1);
        assert(spans.subrange(0, n + 1).drop_last() =~= spans.subrange(0, n));
        lemma_span_total_nonneg(spans.subrange(0, n));
    } else {
        assert(spans.subrange(0, n) =~= spans);
        lemma_span_total_nonneg(spans);
    }
}

proof fn lemma_span_total_nonneg(spans: Seq<Span>)
    requires
        forall|k: int| 0 <= k < spans.len() ==> (#[trigger] spans[k]).left <= spans[k].right,
    ensures
        spans.len() <= span_total(spans),
    decreases spans.len(),
{
    if spans.len() > 0 {
        lemma_span_total_nonneg(spans.drop_last());
    }
}

/// The square of the distance between a point and `reference`.
pub open spec fn distance_squared(reference: QuircPoint, x: int, y: int) -> int {
    (x - reference.x) * (x - reference.x) + (y - reference.y) * (y - reference.y)
}

/// No end of a span is farther from `reference` than the farthest point,
/// which is `start` or an end of a span.
pub proof fn lemma_farthest_is_farthest(
    spans: Seq<Span>,
    reference: QuircPoint,
    start: (int, QuircPoint),
    n: int,
    k: int,
)
    requires
        0 <= k < n <= spans.len(),
    ensures
        start.0 <= farthest(spans, reference, start, n).0,
        distance_squared(reference, spans[k].left as int, spans[k].y as int) <= farthest(
            spans,
            reference,
            start,
            n,
        ).0,
        distance_squared(reference, spans[k].right as int, spans[k].y as int) <= farthest(
            spans,
            reference,
            start,
            n,
        ).0,
    decreases n,
{
    lemma_farthest_grows(spans, reference, start, n - 1);
    if k < n - 1 {
        lemma_farthest_is_farthest(spans, reference, start, n - 1, k);
    }
}

proof fn lemma_farthest_grows(spans: Seq<Span>, reference: QuircPoint, start: (int, QuircPoint), n: int)
    ensures
        start.0 <= farthest(spans, reference, start, n).0,
    decreases n,
{
    if n > 0 {
        lemma_farthest_grows(spans, reference, start, n - 1);
    }
}

/// No end of a span lies farther in any of the four directions than the
/// corner of that direction, and neither does any corner of `start`.
pub proof fn lemma_extremes_are_extreme(spans: Seq<Span>, dir: QuircPoint, start: Extremes, n: int, k: int, j: int)
    requires
        0 <= k < n <= spans.len(),
        0 <= j < 4,
        start.scores.len() == 4,
        start.corners.len() == 4,
    ensures
        start.scores[j] <= extremes(spans, dir, start, n).scores[j],
        projections(dir, spans[k].left as int, spans[k].y as int)[j] <= extremes(spans, dir, start, n).scores[j],
        projections(dir, spans[k].right as int, spans[k].y as int)[j] <= extremes(spans, dir, start, n).scores[j],
    decreases n,
{
    lemma_extremes_inside_lengths(spans, dir, start, n - 1);
    lemma_extremes_grow(spans, dir, start, n - 1, j);
    if k < n - 1 {
        lemma_extremes_are_extreme(spans, dir, start, n - 1, k, j);
    }
}

proof fn lemma_extremes_grow(spans: Seq<Span>, dir: QuircPoint, start: Extremes, n: int, j: int)
    requires
        0 <= j < 4,
        start.scores.len() == 4,
        start.corners.len() == 4,
    ensures
        start.scores[j] <= extremes(spans, dir, start, n).scores[j],
    decreases n,
{
    if n > 0 {
        lemma_extremes_grow(spans, dir, start, n - 1, j);
        lemma_extremes_inside_lengths(spans, dir, start, n - 1);
    }
}

proof fn lemma_extremes_inside_lengths(spans: Seq<Span>, dir: QuircPoint, start: Extremes, n: int)
    requires
        start.scores.len() == 4,
        start.corners.len() == 4,
    ensures
        extremes(spans, dir, start, n).scores.len() == 4,
        extremes(spans, dir, start, n).corners.len() == 4,
    decreases n,
{
    if n > 0 {
        lemma_extremes_inside_lengths(spans, dir, start, n - 1);
    }
}

/// Each corner lies as far in its direction as the extremes say.
pub proof fn lemma_extremes_scores(spans: Seq<Span>, dir: QuircPoint, seed: QuircPoint, n: int, j: int)
    requires
        0 <= n <= spans.len(),
        0 <= j < 4,
        forall|k: int| 0 <= k < n ==> (#[trigger] spans[k]).left <= 0x7fff_ffff && spans[k].right <= 0x7fff_ffff
            && spans[k].y <= 0x7fff_ffff,
    ensures
        extremes(spans, dir, extremes_of(dir, seed), n).scores[j] == projections(
            dir,
            extremes(spans, dir, extremes_of(dir, seed), n).corners[j].x as int,
            extremes(spans, dir, extremes_of(dir, seed), n).corners[j].y as int,
        )[j],
    decreases n,
{
    if n > 0 {
        lemma_extremes_scores(spans, dir, seed, n - 1, j);
        lemma_extremes_inside_lengths(spans, dir, extremes_of(dir, seed), n - 1);
    }
}

/// If no pixel bears the label `to` and `after` is `before` with some
/// pixels relabelled from `from` to `to`, then the pixels that bear `to`
/// are as many as `from` has lost.
pub proof fn lemma_relabelled_count(before: Seq<u16>, after: Seq<u16>, from: u16, to: u16, n: int)
    requires
        from != to,
        0 <= n <= before.len(),
        after.len() == before.len(),
        forall|i: int| 0 <= i < before.len() ==> #[trigger] before[i] != to,
        forall|i: int|
            0 <= i < before.len() ==> #[trigger] after[i] == before[i] || (before[i] == from && after[i] == to),
    ensures
        count_label(after, to, n) == count_label(before, from, n) - count_label(after, from, n),
    decreases n,
{
    if n > 0 {
        lemma_relabelled_count(before, after, from, to, n - 1);
        assert(after[n - 1] == before[n - 1] || (before[n - 1] == from && after[n - 1] == to));
        assert(before[n - 1] != to);
    }
}

/// The count of a new region is the number of pixels that bear its label.
pub proof fn lemma_region_count(scene: Scene, x: int, y: int)
    requires
        scene.wf(),
        scene.linked(),
        scene.inside(x, y),
        scene.label(x, y) == QUIRC_PIXEL_BLACK,
        scene.num_regions < QUIRC_MAX_REGIONS,
    ensures
        scene.region_code(x, y).1 == Some(scene.num_regions),
        scene.region_code(x, y).0.regions[scene.num_regions].count == count_label(
            scene.region_code(x, y).0.pixels,
            scene.num_regions as u16,
            scene.pixels.len() as int,
        ),
{
    let start = Fill { pixels: scene.pixels, spans: Seq::empty() };
    let label = scene.num_regions as u16;
    let fill = spec_fill(start, scene.w, scene.h, x, y, QUIRC_PIXEL_BLACK, label, 0);
    lemma_fill(start, scene.w, scene.h, x, y, QUIRC_PIXEL_BLACK, label, 0);
    lemma_relabelled_count(start.pixels, fill.pixels, QUIRC_PIXEL_BLACK, label, start.pixels.len() as int);
    lemma_count_label_bound(start.pixels, QUIRC_PIXEL_BLACK, start.pixels.len() as int);
    lemma_count_label_bound(fill.pixels, QUIRC_PIXEL_BLACK, start.pixels.len() as int);
    lemma_count_label_bound(fill.pixels, label, start.pixels.len() as int);
    assert(span_total(start.spans) == 0);
}

} // verus!
