//! Filling a region of pixels of one label with another label, span by
//! span.

use crate::identify::thresholding::lemma_row_base;
use crate::ops::{lemma_pixel_index, lemma_pixel_unique, Quirc, Scene, QUIRC_MAX_DIMENSION};
use vstd::prelude::*;

verus! {

/// The depth at which filling stops going further.
pub const FLOOD_FILL_MAX_DEPTH: usize = 4096;

/// A run of pixels in one row: the columns from `left` to `right` of row `y`.
#[derive(Copy, Clone, Debug, PartialEq, Eq)]
pub struct Span {
    pub y: usize,
    pub left: usize,
    pub right: usize,
}

/// The labels of an image and the spans that were filled in it so far.
pub struct Fill {
    pub pixels: Seq<u16>,
    pub spans: Seq<Span>,
}

/// The first column of the run of pixels labelled `from` that ends just
/// before column `x` of the row that starts at `base`; `x` if there is none.
pub open spec fn run_left(pixels: Seq<u16>, base: int, x: int, from: u16) -> int
    decreases x,
{
    if x > 0 && pixels[base + x - 1] == from {
        run_left(pixels, base, x - 1, from)
    } else {
        x
    }
}

/// The last column of the run of pixels labelled `from` that starts just
/// after column `x` of the row of width `w` that starts at `base`; `x` if
/// there is none.
pub open spec fn run_right(pixels: Seq<u16>, base: int, w: int, x: int, from: u16) -> int
    decreases w - x,
{
    if x < w - 1 && pixels[base + x + 1] == from {
        run_right(pixels, base, w, x + 1, from)
    } else {
        x
    }
}

/// The labels with those from index `first` to index `last` set to `to`.
pub open spec fn fill_span(pixels: Seq<u16>, first: int, last: int, to: u16) -> Seq<u16> {
    Seq::new(
        pixels.len(),
        |i: int|
            if first <= i <= last {
                to
            } else {
                pixels[i]
            },
    )
}

/// Filling from the pixel in column `x` of row `y`. The span of the pixel
/// is what lies between the runs of `from` to its left and to its right.
/// It is filled and recorded. Then filling goes on from every pixel above
/// the span that is labelled `from`, from left to right, and then from
/// every such pixel below it, one level deeper. At the depth
/// `FLOOD_FILL_MAX_DEPTH` nothing is filled.
pub open spec fn spec_fill(f: Fill, w: int, h: int, x: int, y: int, from: u16, to: u16, depth: int) -> Fill
    decreases FLOOD_FILL_MAX_DEPTH - depth, 0int,
{
    if depth >= FLOOD_FILL_MAX_DEPTH {
        f
    } else {
        let base = y * w;
        let left = run_left(f.pixels, base, x, from);
        let right = run_right(f.pixels, base, w, x, from);
        let filled = Fill {
            pixels: fill_span(f.pixels, base + left, base + right, to),
            spans: f.spans.push(Span { y: y as usize, left: left as usize, right: right as usize }),
        };
        let above = if y > 0 {
            spec_fill_row(filled, w, h, y - 1, left, right + 1, from, to, depth + 1)
        } else {
            filled
        };
        if y < h - 1 {
            spec_fill_row(above, w, h, y + 1, left, right + 1, from, to, depth + 1)
        } else {
            above
        }
    }
}

/// Filling from every pixel of row `y` in the columns from `i` to before
/// `end` that is labelled `from` when its turn comes.
pub open spec fn spec_fill_row(
    f: Fill,
    w: int,
    h: int,
    y: int,
    i: int,
    end: int,
    from: u16,
    to: u16,
    depth: int,
) -> Fill
    decreases FLOOD_FILL_MAX_DEPTH - depth, 1 + end - i,
{
    if i >= end {
        f
    } else if f.pixels[y * w + i] == from {
        spec_fill_row(spec_fill(f, w, h, i, y, from, to, depth), w, h, y, i + 1, end, from, to, depth)
    } else {
        spec_fill_row(f, w, h, y, i + 1, end, from, to, depth)
    }
}

proof fn lemma_run_left_bounds(pixels: Seq<u16>, base: int, x: int, from: u16)
    requires
        0 <= x,
    ensures
        0 <= run_left(pixels, base, x, from) <= x,
    decreases x,
{
    if x > 0 && pixels[base + x - 1] == from {
        lemma_run_left_bounds(pixels, base, x - 1, from);
    }
}

proof fn lemma_run_right_bounds(pixels: Seq<u16>, base: int, w: int, x: int, from: u16)
    requires
        x < w,
    ensures
        x <= run_right(pixels, base, w, x, from) < w,
    decreases w - x,
{
    if x < w - 1 && pixels[base + x + 1] == from {
        lemma_run_right_bounds(pixels, base, w, x + 1, from);
    }
}

/// The number of pixels in all the spans.
pub open spec fn span_total(spans: Seq<Span>) -> int
    decreases spans.len(),
{
    if spans.len() == 0 {
        0
    } else {
        span_total(spans.drop_last()) + (spans.last().right - spans.last().left + 1)
    }
}

/// The number of labels equal to `v` among the first `n`.
pub open spec fn count_label(pixels: Seq<u16>, v: u16, n: int) -> int
    decreases n,
{
    if n <= 0 {
        0
    } else {
        count_label(pixels, v, n - 1) + if pixels[n - 1] == v {
            1int
        } else {
            0int
        }
    }
}

/// Whether the span lies in an image of width `w` and height `h`.
pub open spec fn span_inside(s: Span, w: int, h: int) -> bool {
    s.left <= s.right < w && s.y < h
}

/// What filling does, whatever its course: `r` is `f` with some pixels
/// relabelled from `from` to `to` and some spans added, all of them in the
/// image, and the added spans hold as many pixels as were relabelled.
pub open spec fn fill_extends(f: Fill, r: Fill, w: int, h: int, from: u16, to: u16) -> bool {
    &&& r.pixels.len() == f.pixels.len()
    &&& forall|i: int|
        0 <= i < f.pixels.len() ==> #[trigger] r.pixels[i] == f.pixels[i] || (f.pixels[i] == from && r.pixels[i]
            == to)
    &&& f.spans.len() <= r.spans.len()
    &&& forall|k: int| 0 <= k < f.spans.len() ==> #[trigger] r.spans[k] == f.spans[k]
    &&& forall|k: int| f.spans.len() <= k < r.spans.len() ==> span_inside(#[trigger] r.spans[k], w, h)
    &&& span_total(r.spans) - span_total(f.spans) == count_label(f.pixels, from, f.pixels.len() as int)
        - count_label(r.pixels, from, f.pixels.len() as int)
}

proof fn lemma_fill_extends_trans(a: Fill, b: Fill, c: Fill, w: int, h: int, from: u16, to: u16)
    requires
        from != to,
        fill_extends(a, b, w, h, from, to),
        fill_extends(b, c, w, h, from, to),
    ensures
        fill_extends(a, c, w, h, from, to),
{
    assert forall|i: int| 0 <= i < a.pixels.len() implies #[trigger] c.pixels[i] == a.pixels[i] || (a.pixels[i]
        == from && c.pixels[i] == to) by {
        assert(b.pixels[i] == a.pixels[i] || (a.pixels[i] == from && b.pixels[i] == to));
        assert(c.pixels[i] == b.pixels[i] || (b.pixels[i] == from && c.pixels[i] == to));
    }
    assert forall|k: int| 0 <= k < a.spans.len() implies #[trigger] c.spans[k] == a.spans[k] by {
        assert(b.spans[k] == a.spans[k]);
    }
    assert forall|k: int| a.spans.len() <= k < c.spans.len() implies span_inside(#[trigger] c.spans[k], w, h) by {
        if k < b.spans.len() {
            assert(c.spans[k] == b.spans[k]);
        }
    }
}

/// All pixels between the run to the left and the pixel are labelled `from`.
proof fn lemma_run_left_all(pixels: Seq<u16>, base: int, x: int, from: u16, k: int)
    requires
        0 <= x,
        run_left(pixels, base, x, from) <= k < x,
    ensures
        pixels[base + k] == from,
    decreases x,
{
    if x > 0 && pixels[base + x - 1] == from {
        if k < x - 1 {
            lemma_run_left_all(pixels, base, x - 1, from, k);
        }
    }
}

/// All pixels between the pixel and the run to the right are labelled `from`.
proof fn lemma_run_right_all(pixels: Seq<u16>, base: int, w: int, x: int, from: u16, k: int)
    requires
        x < w,
        x < k <= run_right(pixels, base, w, x, from),
    ensures
        pixels[base + k] == from,
    decreases w - x,
{
    if x < w - 1 && pixels[base + x + 1] == from {
        if k > x + 1 {
            lemma_run_right_all(pixels, base, w, x + 1, from, k);
        }
    }
}

/// Filling a span of pixels labelled `from` takes as many from their count.
proof fn lemma_fill_span_count(pixels: Seq<u16>, first: int, last: int, from: u16, to: u16, n: int)
    requires
        from != to,
        0 <= first <= last < pixels.len(),
        0 <= n <= pixels.len(),
        forall|k: int| first <= k <= last ==> pixels[k] == from,
    ensures
        count_label(fill_span(pixels, first, last, to), from, n) == count_label(pixels, from, n) - (if n <= first {
            0
        } else if n <= last {
            n - first
        } else {
            last - first + 1
        }),
    decreases n,
{
    if n > 0 {
        lemma_fill_span_count(pixels, first, last, from, to, n - 1);
    }
}

/// What filling from a pixel labelled `from` does.
pub proof fn lemma_fill(f: Fill, w: int, h: int, x: int, y: int, from: u16, to: u16, depth: int)
    requires
        from != to,
        0 <= x < w <= QUIRC_MAX_DIMENSION,
        0 <= y < h <= QUIRC_MAX_DIMENSION,
        f.pixels.len() == w * h,
        f.pixels[y * w + x] == from,
    ensures
        fill_extends(f, spec_fill(f, w, h, x, y, from, to, depth), w, h, from, to),
        depth < FLOOD_FILL_MAX_DEPTH ==> spec_fill(f, w, h, x, y, from, to, depth).pixels[y * w + x] == to,
        depth < FLOOD_FILL_MAX_DEPTH ==> spec_fill(f, w, h, x, y, from, to, depth).spans.len() > f.spans.len(),
    decreases FLOOD_FILL_MAX_DEPTH - depth, 0int,
{
    if depth < FLOOD_FILL_MAX_DEPTH {
        let base = y * w;
        lemma_pixel_index(w, h, x, y);
        lemma_row_base(w, h, y);
        let left = run_left(f.pixels, base, x, from);
        let right = run_right(f.pixels, base, w, x, from);
        lemma_run_left_bounds(f.pixels, base, x, from);
        lemma_run_right_bounds(f.pixels, base, w, x, from);
        let span = Span { y: y as usize, left: left as usize, right: right as usize };
        let filled = Fill {
            pixels: fill_span(f.pixels, base + left, base + right, to),
            spans: f.spans.push(span),
        };
        assert forall|k: int| base + left <= k <= base + right implies f.pixels[k] == from by {
            if k < base + x {
                lemma_run_left_all(f.pixels, base, x, from, k - base);
            } else if k > base + x {
                lemma_run_right_all(f.pixels, base, w, x, from, k - base);
            }
        }
        lemma_fill_span_count(f.pixels, base + left, base + right, from, to, f.pixels.len() as int);
        assert(filled.spans.drop_last() =~= f.spans);
        assert(fill_extends(f, filled, w, h, from, to));
        let above = if y > 0 {
            spec_fill_row(filled, w, h, y - 1, left, right + 1, from, to, depth + 1)
        } else {
            filled
        };
        if y > 0 {
            lemma_fill_row(filled, w, h, y - 1, left, right + 1, from, to, depth + 1);
        }
        lemma_fill_extends_trans(f, filled, above, w, h, from, to);
        let below = if y < h - 1 {
            spec_fill_row(above, w, h, y + 1, left, right + 1, from, to, depth + 1)
        } else {
            above
        };
        if y < h - 1 {
            lemma_fill_row(above, w, h, y + 1, left, right + 1, from, to, depth + 1);
        }
        lemma_fill_extends_trans(f, above, below, w, h, from, to);
        assert(filled.pixels[y * w + x] == to);
        assert(above.pixels[y * w + x] == to);
    } else {
        assert(fill_extends(f, f, w, h, from, to));
    }
}

/// What filling from the pixels of a row does.
pub proof fn lemma_fill_row(f: Fill, w: int, h: int, y: int, i: int, end: int, from: u16, to: u16, depth: int)
    requires
        from != to,
        0 <= i,
        end <= w <= QUIRC_MAX_DIMENSION,
        0 <= y < h <= QUIRC_MAX_DIMENSION,
        f.pixels.len() == w * h,
    ensures
        fill_extends(f, spec_fill_row(f, w, h, y, i, end, from, to, depth), w, h, from, to),
    decreases FLOOD_FILL_MAX_DEPTH - depth, 1 + end - i,
{
    if i < end {
        if f.pixels[y * w + i] == from {
            let next = spec_fill(f, w, h, i, y, from, to, depth);
            lemma_fill(f, w, h, i, y, from, to, depth);
            lemma_fill_row(next, w, h, y, i + 1, end, from, to, depth);
            lemma_fill_extends_trans(
                f,
                next,
                spec_fill_row(next, w, h, y, i + 1, end, from, to, depth),
                w,
                h,
                from,
                to,
            );
        } else {
            lemma_fill_row(f, w, h, y, i + 1, end, from, to, depth);
        }
    } else {
        assert(fill_extends(f, f, w, h, from, to));
    }
}

/// The spans that were added hold at most as many pixels as there are.
pub proof fn lemma_count_label_bound(pixels: Seq<u16>, v: u16, n: int)
    requires
        0 <= n,
    ensures
        0 <= count_label(pixels, v, n) <= n,
    decreases n,
{
    if n > 0 {
        lemma_count_label_bound(pixels, v, n - 1);
    }
}

/// The label of the pixel in column `x` of row `y` of an image of width `w`.
pub open spec fn pixel_at(pixels: Seq<u16>, w: int, x: int, y: int) -> u16 {
    pixels[y * w + x]
}

/// Whether filling from the pixel in column `x` of row `y` is cut short
/// somewhere by the limit on the depth.
pub open spec fn fill_cut(f: Fill, w: int, h: int, x: int, y: int, from: u16, to: u16, depth: int) -> bool
    decreases FLOOD_FILL_MAX_DEPTH - depth, 0int,
{
    if depth >= FLOOD_FILL_MAX_DEPTH {
        true
    } else {
        let base = y * w;
        let left = run_left(f.pixels, base, x, from);
        let right = run_right(f.pixels, base, w, x, from);
        let filled = Fill {
            pixels: fill_span(f.pixels, base + left, base + right, to),
            spans: f.spans.push(Span { y: y as usize, left: left as usize, right: right as usize }),
        };
        let above = if y > 0 {
            spec_fill_row(filled, w, h, y - 1, left, right + 1, from, to, depth + 1)
        } else {
            filled
        };
        (y > 0 && row_cut(filled, w, h, y - 1, left, right + 1, from, to, depth + 1)) || (y < h - 1 && row_cut(
            above,
            w,
            h,
            y + 1,
            left,
            right + 1,
            from,
            to,
            depth + 1,
        ))
    }
}

/// Whether filling from the pixels of a row is cut short somewhere by the
/// limit on the depth.
pub open spec fn row_cut(f: Fill, w: int, h: int, y: int, i: int, end: int, from: u16, to: u16, depth: int) -> bool
    decreases FLOOD_FILL_MAX_DEPTH - depth, 1 + end - i,
{
    if i >= end {
        false
    } else if f.pixels[y * w + i] == from {
        fill_cut(f, w, h, i, y, from, to, depth) || row_cut(
            spec_fill(f, w, h, i, y, from, to, depth),
            w,
            h,
            y,
            i + 1,
            end,
            from,
            to,
            depth,
        )
    } else {
        row_cut(f, w, h, y, i + 1, end, from, to, depth)
    }
}

/// Whether the filling that took `before` to `after` went as far as it
/// could: with every pixel that it has filled, it has filled each of the
/// four neighbours that was labelled `from` in `given`.
pub open spec fn fill_complete(
    given: Seq<u16>,
    before: Seq<u16>,
    after: Seq<u16>,
    w: int,
    h: int,
    from: u16,
    to: u16,
) -> bool {
    forall|x: int, y: int, dx: int, dy: int|
        #![trigger pixel_at(after, w, x, y), pixel_at(given, w, x + dx, y + dy)]
        0 <= x < w && 0 <= y < h && 0 <= x + dx < w && 0 <= y + dy < h && ((dx == 0 && (dy == 1 || dy == -1)) || (dy
            == 0 && (dx == 1 || dx == -1))) && pixel_at(before, w, x, y) == from && pixel_at(after, w, x, y) == to
            && pixel_at(given, w, x + dx, y + dy) == from ==> pixel_at(after, w, x + dx, y + dy) == to
}

/// Whether `now` is `given` with some pixels relabelled from `from` to `to`.
pub open spec fn paints(given: Seq<u16>, now: Seq<u16>, from: u16, to: u16) -> bool {
    &&& now.len() == given.len()
    &&& forall|i: int| 0 <= i < given.len() ==> #[trigger] now[i] == given[i] || (given[i] == from && now[i] == to)
}

proof fn lemma_paints_on(given: Seq<u16>, f: Fill, r: Fill, w: int, h: int, from: u16, to: u16)
    requires
        from != to,
        paints(given, f.pixels, from, to),
        fill_extends(f, r, w, h, from, to),
    ensures
        paints(given, r.pixels, from, to),
{
    assert forall|i: int| 0 <= i < given.len() implies #[trigger] r.pixels[i] == given[i] || (given[i] == from
        && r.pixels[i] == to) by {
        assert(f.pixels[i] == given[i] || (given[i] == from && f.pixels[i] == to));
        assert(r.pixels[i] == f.pixels[i] || (f.pixels[i] == from && r.pixels[i] == to));
    }
}

/// The pixel before the run to the left is not labelled `from`.
proof fn lemma_run_left_ends(pixels: Seq<u16>, base: int, x: int, from: u16)
    requires
        0 <= x,
    ensures
        run_left(pixels, base, x, from) == 0 || pixels[base + run_left(pixels, base, x, from) - 1] != from,
    decreases x,
{
    if x > 0 && pixels[base + x - 1] == from {
        lemma_run_left_ends(pixels, base, x - 1, from);
    }
}

/// The pixel after the run to the right is not labelled `from`.
proof fn lemma_run_right_ends(pixels: Seq<u16>, base: int, w: int, x: int, from: u16)
    requires
        x < w,
    ensures
        run_right(pixels, base, w, x, from) == w - 1 || pixels[base + run_right(pixels, base, w, x, from) + 1]
            != from,
    decreases w - x,
{
    if x < w - 1 && pixels[base + x + 1] == from {
        lemma_run_right_ends(pixels, base, w, x + 1, from);
    }
}

/// A pixel keeps a label other than `from`, and one that was filled stays
/// filled.
proof fn lemma_stays(f: Fill, r: Fill, w: int, h: int, from: u16, to: u16, x: int, y: int)
    requires
        from != to,
        0 <= x < w,
        0 <= y < h,
        f.pixels.len() == w * h,
        fill_extends(f, r, w, h, from, to),
    ensures
        pixel_at(f.pixels, w, x, y) != from ==> pixel_at(r.pixels, w, x, y) == pixel_at(f.pixels, w, x, y),
        pixel_at(f.pixels, w, x, y) == from ==> pixel_at(r.pixels, w, x, y) == from || pixel_at(r.pixels, w, x, y)
            == to,
{
    lemma_pixel_index(w, h, x, y);
    let i = y * w + x;
    assert(r.pixels[i] == f.pixels[i] || (f.pixels[i] == from && r.pixels[i] == to));
}

/// Filling that is not cut short goes as far as it can: with every pixel
/// that it fills, it fills each of the four neighbours that was labelled
/// `from` to begin with. So it fills at least all that is connected to
/// the seed through pixels labelled `from`.
pub proof fn lemma_fill_complete(
    given: Seq<u16>,
    f: Fill,
    w: int,
    h: int,
    x: int,
    y: int,
    from: u16,
    to: u16,
    depth: int,
)
    requires
        from != to,
        0 <= x < w <= QUIRC_MAX_DIMENSION,
        0 <= y < h <= QUIRC_MAX_DIMENSION,
        f.pixels.len() == w * h,
        f.pixels[y * w + x] == from,
        paints(given, f.pixels, from, to),
        !fill_cut(f, w, h, x, y, from, to, depth),
    ensures
        fill_complete(given, f.pixels, spec_fill(f, w, h, x, y, from, to, depth).pixels, w, h, from, to),
    decreases FLOOD_FILL_MAX_DEPTH - depth, 0int,
{
    let base = y * w;
    lemma_pixel_index(w, h, x, y);
    lemma_row_base(w, h, y);
    let left = run_left(f.pixels, base, x, from);
    let right = run_right(f.pixels, base, w, x, from);
    lemma_run_left_bounds(f.pixels, base, x, from);
    lemma_run_right_bounds(f.pixels, base, w, x, from);
    lemma_run_left_ends(f.pixels, base, x, from);
    lemma_run_right_ends(f.pixels, base, w, x, from);
    let filled = Fill {
        pixels: fill_span(f.pixels, base + left, base + right, to),
        spans: f.spans.push(Span { y: y as usize, left: left as usize, right: right as usize }),
    };
    let above = if y > 0 {
        spec_fill_row(filled, w, h, y - 1, left, right + 1, from, to, depth + 1)
    } else {
        filled
    };
    let r = spec_fill(f, w, h, x, y, from, to, depth);

    // What is known of each stage.
    lemma_fill(f, w, h, x, y, from, to, depth);
    assert forall|k: int| base + left <= k <= base + right implies f.pixels[k] == from by {
        if k < base + x {
            lemma_run_left_all(f.pixels, base, x, from, k - base);
        } else if k > base + x {
            lemma_run_right_all(f.pixels, base, w, x, from, k - base);
        }
    }
    lemma_fill_span_count(f.pixels, base + left, base + right, from, to, f.pixels.len() as int);
    assert(filled.spans.drop_last() =~= f.spans);
    assert(fill_extends(f, filled, w, h, from, to));
    lemma_paints_on(given, f, filled, w, h, from, to);
    if y > 0 {
        lemma_row_base(w, h, y - 1);
        lemma_fill_row(filled, w, h, y - 1, left, right + 1, from, to, depth + 1);
        lemma_row_complete(given, filled, w, h, y - 1, left, right + 1, from, to, depth + 1);
    } else {
        assert(fill_extends(filled, filled, w, h, from, to));
    }
    lemma_paints_on(given, filled, above, w, h, from, to);
    if y < h - 1 {
        lemma_row_base(w, h, y + 1);
        lemma_fill_row(above, w, h, y + 1, left, right + 1, from, to, depth + 1);
        lemma_row_complete(given, above, w, h, y + 1, left, right + 1, from, to, depth + 1);
    } else {
        assert(fill_extends(above, above, w, h, from, to));
    }

    assert forall|px: int, py: int, dx: int, dy: int|
        #![trigger pixel_at(r.pixels, w, px, py), pixel_at(given, w, px + dx, py + dy)]
        0 <= px < w && 0 <= py < h && 0 <= px + dx < w && 0 <= py + dy < h && ((dx == 0 && (dy == 1 || dy == -1))
            || (dy == 0 && (dx == 1 || dx == -1))) && pixel_at(f.pixels, w, px, py) == from && pixel_at(
            r.pixels,
            w,
            px,
            py,
        ) == to && pixel_at(given, w, px + dx, py + dy) == from implies pixel_at(r.pixels, w, px + dx, py + dy)
        == to by {
        let qx = px + dx;
        let qy = py + dy;
        lemma_pixel_index(w, h, px, py);
        lemma_pixel_index(w, h, qx, qy);
        lemma_row_base(w, h, py);
        lemma_row_base(w, h, qy);
        let p = py * w + px;
        let q = qy * w + qx;
        assert(f.pixels[q] == given[q] || (given[q] == from && f.pixels[q] == to));
        lemma_stays(f, filled, w, h, from, to, qx, qy);
        lemma_stays(filled, above, w, h, from, to, qx, qy);
        lemma_stays(above, r, w, h, from, to, qx, qy);
        lemma_stays(f, filled, w, h, from, to, px, py);
        lemma_stays(filled, above, w, h, from, to, px, py);
        lemma_stays(above, r, w, h, from, to, px, py);
        if f.pixels[q] == from {
            if filled.pixels[p] == to {
                // The pixel is one of the span.
                assert(base + left <= p <= base + right);
                lemma_pixel_unique(w, px, py, p - base, y);
                if dy == 0 {
                    assert(q == base + qx);
                    assert(left <= qx <= right);
                } else if dy == -1 {
                    assert(qy == y - 1);
                    assert(pixel_at(above.pixels, w, qx, qy) != from);
                } else {
                    assert(qy == y + 1);
                    assert(pixel_at(r.pixels, w, qx, qy) != from);
                }
            } else if above.pixels[p] == to {
                assert(pixel_at(filled.pixels, w, px, py) == from);
                assert(pixel_at(above.pixels, w, px, py) == to);
                assert(pixel_at(given, w, px + dx, py + dy) == from);
                assert(pixel_at(above.pixels, w, px + dx, py + dy) == to);
            } else {
                assert(pixel_at(above.pixels, w, px, py) == from);
                assert(pixel_at(r.pixels, w, px, py) == to);
                assert(pixel_at(given, w, px + dx, py + dy) == from);
            }
        }
    }
}

/// Filling from the pixels of a row that is not cut short goes as far as
/// it can, and leaves none of these pixels labelled `from`.
pub proof fn lemma_row_complete(
    given: Seq<u16>,
    f: Fill,
    w: int,
    h: int,
    y: int,
    i: int,
    end: int,
    from: u16,
    to: u16,
    depth: int,
)
    requires
        from != to,
        0 <= i,
        end <= w <= QUIRC_MAX_DIMENSION,
        0 <= y < h <= QUIRC_MAX_DIMENSION,
        f.pixels.len() == w * h,
        paints(given, f.pixels, from, to),
        !row_cut(f, w, h, y, i, end, from, to, depth),
    ensures
        fill_complete(given, f.pixels, spec_fill_row(f, w, h, y, i, end, from, to, depth).pixels, w, h, from, to),
        forall|k: int|
            i <= k < end ==> #[trigger] pixel_at(spec_fill_row(f, w, h, y, i, end, from, to, depth).pixels, w, k, y)
                != from,
    decreases FLOOD_FILL_MAX_DEPTH - depth, 1 + end - i,
{
    let r = spec_fill_row(f, w, h, y, i, end, from, to, depth);
    if i < end {
        lemma_pixel_index(w, h, i, y);
        let next = if f.pixels[y * w + i] == from {
            spec_fill(f, w, h, i, y, from, to, depth)
        } else {
            f
        };
        if f.pixels[y * w + i] == from {
            lemma_fill(f, w, h, i, y, from, to, depth);
            lemma_fill_complete(given, f, w, h, i, y, from, to, depth);
        } else {
            assert(fill_extends(f, f, w, h, from, to));
        }
        lemma_paints_on(given, f, next, w, h, from, to);
        lemma_fill_row(next, w, h, y, i + 1, end, from, to, depth);
        lemma_row_complete(given, next, w, h, y, i + 1, end, from, to, depth);
        assert forall|k: int| i <= k < end implies #[trigger] pixel_at(r.pixels, w, k, y) != from by {
            if k == i {
                if f.pixels[y * w + i] == from {
                    assert(!fill_cut(f, w, h, i, y, from, to, depth));
                    assert(depth < FLOOD_FILL_MAX_DEPTH);
                    assert(pixel_at(next.pixels, w, i, y) == to);
                }
                lemma_stays(next, r, w, h, from, to, i, y);
            }
        }
        assert forall|px: int, py: int, dx: int, dy: int|
            #![trigger pixel_at(r.pixels, w, px, py), pixel_at(given, w, px + dx, py + dy)]
            0 <= px < w && 0 <= py < h && 0 <= px + dx < w && 0 <= py + dy < h && ((dx == 0 && (dy == 1 || dy
                == -1)) || (dy == 0 && (dx == 1 || dx == -1))) && pixel_at(f.pixels, w, px, py) == from
                && pixel_at(r.pixels, w, px, py) == to && pixel_at(given, w, px + dx, py + dy)
                == from implies pixel_at(r.pixels, w, px + dx, py + dy) == to by {
            lemma_stays(f, next, w, h, from, to, px, py);
            lemma_stays(next, r, w, h, from, to, px, py);
            lemma_stays(f, next, w, h, from, to, px + dx, py + dy);
            lemma_stays(next, r, w, h, from, to, px + dx, py + dy);
            if pixel_at(next.pixels, w, px, py) == to {
                assert(pixel_at(given, w, px + dx, py + dy) == from);
                assert(pixel_at(next.pixels, w, px + dx, py + dy) == to);
            } else {
                assert(pixel_at(next.pixels, w, px, py) == from);
                assert(pixel_at(r.pixels, w, px, py) == to);
                assert(pixel_at(given, w, px + dx, py + dy) == from);
            }
        }
    }
}

impl Quirc {
    /// The labels and the spans `spans` as one value.
    pub open spec fn fill_state(&self, spans: Seq<Span>) -> Fill {
        Fill { pixels: self.pixels@, spans: spans }
    }

    /// Fills the span of the pixel in column `x` of row `y` and what is
    /// connected to it through pixels labelled `from` with the label `to`,
    /// and appends the spans that it fills to `spans`.
    pub fn flood_fill_seed(&mut self, x: usize, y: usize, from: u16, to: u16, spans: &mut Vec<Span>, depth: usize)
        requires
            old(self).wf(),
            x < old(self).w,
            y < old(self).h,
        ensures
            final(self).wf(),
            final(self)@ == (Scene { pixels: final(self).pixels@, ..old(self)@ }),
            final(self).fill_state(final(spans)@) == spec_fill(
                old(self).fill_state(old(spans)@),
                old(self).w as int,
                old(self).h as int,
                x as int,
                y as int,
                from,
                to,
                depth as int,
            ),
        decreases FLOOD_FILL_MAX_DEPTH - depth,
    {
        if depth >= FLOOD_FILL_MAX_DEPTH {
            return ;
        }
        let w = self.w;
        let h = self.h;
        proof {
            lemma_row_base(w as int, h as int, y as int);
        }
        let base = y * w;
        let ghost start = self.fill_state(spans@);

        let mut left = x;
        while left > 0 && self.pixels[base + left - 1] == from
            invariant
                left <= x < w,
                base + w <= self.pixels@.len(),
                self.wf(),
                w == self.w,
                h == self.h,
                self.pixels@ == start.pixels,
                run_left(start.pixels, base as int, left as int, from) == run_left(
                    start.pixels,
                    base as int,
                    x as int,
                    from,
                ),
            decreases left,
        {
            left -= 1;
        }
        let mut right = x;
        while right < w - 1 && self.pixels[base + right + 1] == from
            invariant
                x <= right < w,
                base + w <= self.pixels@.len(),
                self.wf(),
                w == self.w,
                h == self.h,
                self.pixels@ == start.pixels,
                run_right(start.pixels, base as int, w as int, right as int, from) == run_right(
                    start.pixels,
                    base as int,
                    w as int,
                    x as int,
                    from,
                ),
            decreases w - right,
        {
            right += 1;
        }

        let mut i = left;
        while i <= right
            invariant
                left <= i <= right + 1,
                right < w,
                w == self.w,
                h == self.h,
                base + w <= self.pixels@.len(),
                self.wf(),
                self@ == (Scene { pixels: self.pixels@, ..old(self)@ }),
                self.pixels@ == fill_span(start.pixels, base + left, base + i - 1, to),
            decreases right + 1 - i,
        {
            self.pixels[base + i] = to;
            proof {
                assert(self.pixels@ =~= fill_span(start.pixels, base + left, base + i, to));
            }
            i += 1;
        }
        spans.push(Span { y: y, left: left, right: right });
        let ghost filled = self.fill_state(spans@);

        if y > 0 {
            proof {
                lemma_row_base(w as int, h as int, y as int - 1);
            }
            let above = (y - 1) * w;
            i = left;
            while i <= right
                invariant
                    left <= i <= right + 1,
                    right < w,
                    0 < y < h,
                    w == self.w,
                    h == self.h,
                    above == (y - 1) * w,
                    above + w <= self.pixels@.len(),
                    depth < FLOOD_FILL_MAX_DEPTH,
                    self.wf(),
                    self@ == (Scene { pixels: self.pixels@, ..old(self)@ }),
                    spec_fill_row(
                        self.fill_state(spans@),
                        w as int,
                        h as int,
                        y - 1,
                        i as int,
                        right + 1,
                        from,
                        to,
                        depth + 1,
                    ) == spec_fill_row(filled, w as int, h as int, y - 1, left as int, right + 1, from, to, depth + 1),
                decreases right + 1 - i,
            {
                if self.pixels[above + i] == from {
                    self.flood_fill_seed(i, y - 1, from, to, spans, depth + 1);
                }
                i += 1;
            }
        }
        let ghost done_above = self.fill_state(spans@);
        if y < h - 1 {
            proof {
                lemma_row_base(w as int, h as int, y as int + 1);
            }
            let below = (y + 1) * w;
            i = left;
            while i <= right
                invariant
                    left <= i <= right + 1,
                    right < w,
                    y + 1 < h,
                    w == self.w,
                    h == self.h,
                    below == (y + 1) * w,
                    below + w <= self.pixels@.len(),
                    depth < FLOOD_FILL_MAX_DEPTH,
                    self.wf(),
                    self@ == (Scene { pixels: self.pixels@, ..old(self)@ }),
                    spec_fill_row(
                        self.fill_state(spans@),
                        w as int,
                        h as int,
                        y + 1,
                        i as int,
                        right + 1,
                        from,
                        to,
                        depth + 1,
                    ) == spec_fill_row(
                        done_above,
                        w as int,
                        h as int,
                        y + 1,
                        left as int,
                        right + 1,
                        from,
                        to,
                        depth + 1,
                    ),
                decreases right + 1 - i,
            {
                if self.pixels[below + i] == from {
                    self.flood_fill_seed(i, y + 1, from, to, spans, depth + 1);
                }
                i += 1;
            }
        }
    }
}

} // verus!
