//! From grayscale to black and white: each pixel is compared with the
//! brightness around it in its row.

use crate::ops::{Quirc, Scene, QUIRC_PIXEL_BLACK, QUIRC_PIXEL_WHITE};
use vstd::prelude::*;

verus! {

pub const THRESHOLD_S_MIN: usize = 1;

pub const THRESHOLD_S_DEN: usize = 8;

pub const THRESHOLD_T: usize = 5;

/// The labels that stand for an image before it is thresholded: the
/// brightness of each pixel.
pub open spec fn image_labels(image: Seq<u8>) -> Seq<u16> {
    Seq::new(image.len(), |i: int| image[i] as u16)
}

/// The length of the window over which the brightness is averaged: an
/// eighth of the width, and at least one.
pub open spec fn threshold_window(w: int) -> int {
    if w / 8 < 1 {
        1
    } else {
        w / 8
    }
}

/// A moving average after one more sample: the old average loses one part
/// in `s`, and the sample is added.
pub open spec fn smooth(avg: int, s: int, sample: int) -> int {
    avg * (s - 1) / s + sample
}

/// The state of the two moving averages that sweep over a row from its
/// two ends, and the sum of both at each pixel that they have passed.
pub struct Sweep {
    pub avg_w: int,
    pub avg_u: int,
    pub sums: Seq<u64>,
}

/// The pixel that the first average passes at step `x` of row `y`. It goes
/// from left to right in odd rows and from right to left in even rows; the
/// second average goes the other way.
pub open spec fn sweep_at(w: int, y: int, x: int) -> int {
    if y % 2 == 1 {
        x
    } else {
        w - 1 - x
    }
}

/// The sweep over row `y` after `n` steps. The averages go on from row to
/// row; the sums start at zero in every row.
pub open spec fn row_sweep(pixels: Seq<u16>, w: int, y: int, s: int, start_w: int, start_u: int, n: int) -> Sweep
    decreases n,
{
    if n <= 0 {
        Sweep { avg_w: start_w, avg_u: start_u, sums: Seq::new(w as nat, |i: int| 0u64) }
    } else {
        let prev = row_sweep(pixels, w, y, s, start_w, start_u, n - 1);
        let wi = sweep_at(w, y, n - 1);
        let ui = w - 1 - wi;
        let avg_w = smooth(prev.avg_w, s, pixels[y * w + wi] as int);
        let avg_u = smooth(prev.avg_u, s, pixels[y * w + ui] as int);
        let sums = prev.sums.update(wi, (prev.sums[wi] + avg_w) as u64);
        Sweep { avg_w: avg_w, avg_u: avg_u, sums: sums.update(ui, (sums[ui] + avg_u) as u64) }
    }
}

/// The label of a pixel of brightness `value` where the two averages sum
/// to `sum`: black if it is darker than 95 percent of their mean.
pub open spec fn thresholded(value: u16, sum: u64, s: int) -> u16 {
    if value < sum * (100 - THRESHOLD_T) / (200 * s) {
        QUIRC_PIXEL_BLACK
    } else {
        QUIRC_PIXEL_WHITE
    }
}

/// The labels with the first `rows` rows thresholded, and the two
/// averages at the end of the last of them.
pub open spec fn threshold_rows(pixels: Seq<u16>, w: int, s: int, rows: int) -> (Seq<u16>, int, int)
    decreases rows,
{
    if rows <= 0 {
        (pixels, 0, 0)
    } else {
        let (prev, start_w, start_u) = threshold_rows(pixels, w, s, rows - 1);
        let y = rows - 1;
        let sweep = row_sweep(prev, w, y, s, start_w, start_u, w);
        (
            Seq::new(
                prev.len(),
                |i: int|
                    if y * w <= i < y * w + w {
                        thresholded(prev[i], sweep.sums[i - y * w], s)
                    } else {
                        prev[i]
                    },
            ),
            sweep.avg_w,
            sweep.avg_u,
        )
    }
}

/// The labels of an image of width `w` and height `h` after thresholding.
pub open spec fn spec_threshold(pixels: Seq<u16>, w: int, h: int) -> Seq<u16> {
    threshold_rows(pixels, w, threshold_window(w), h).0
}

proof fn lemma_smooth_bound(avg: int, s: int, sample: int)
    by (nonlinear_arith)
    requires
        0 <= avg <= 255 * s,
        1 <= s,
        0 <= sample <= 255,
    ensures
        0 <= avg * (s - 1) <= 255 * s * s,
        0 <= smooth(avg, s, sample) <= 255 * s,
{
}

proof fn lemma_window_square(s: int)
    by (nonlinear_arith)
    requires
        1 <= s <= 0x1000_0000,
    ensures
        255 * s * s <= 0xff00_0000_0000_0000,
{
}

pub proof fn lemma_row_base(w: int, h: int, y: int)
    by (nonlinear_arith)
    requires
        0 <= w,
        0 <= y < h,
    ensures
        0 <= y * w,
        y * w + w <= w * h,
        (y + 1) * w == y * w + w,
{
}

impl Quirc {
    /// Takes the image as the labels: each label becomes the brightness of
    /// its pixel.
    pub fn pixels_setup(&mut self)
        requires
            old(self).wf(),
        ensures
            final(self).wf(),
            final(self)@ == (Scene { pixels: image_labels(old(self)@.image), ..old(self)@ }),
    {
        let n = self.pixels.len();
        let mut i: usize = 0;
        while i < n
            invariant
                i <= n,
                n == self.pixels@.len(),
                n == self.image@.len(),
                self.wf(),
                self@ == (Scene { pixels: self.pixels@, ..old(self)@ }),
                forall|k: int| 0 <= k < i ==> #[trigger] self.pixels@[k] == self.image@[k] as u16,
            decreases n - i,
        {
            self.pixels[i] = self.image[i] as u16;
            i += 1;
        }
        assert(self.pixels@ =~= image_labels(old(self)@.image));
    }

    /// Replaces the brightness of each pixel by black or white.
    pub fn threshold(&mut self)
        requires
            old(self).wf(),
            forall|i: int| 0 <= i < old(self).pixels@.len() ==> #[trigger] old(self).pixels@[i] <= 255,
        ensures
            final(self).wf(),
            final(self)@ == (Scene {
                pixels: spec_threshold(old(self)@.pixels, old(self).w as int, old(self).h as int),
                ..old(self)@
            }),
            forall|i: int|
                0 <= i < final(self).pixels@.len() ==> #[trigger] final(self).pixels@[i] <= QUIRC_PIXEL_BLACK,
    {
        let w = self.w;
        let h = self.h;
        let mut avg_w: u64 = 0;
        let mut avg_u: u64 = 0;
        let mut threshold_s: u64 = (w / THRESHOLD_S_DEN) as u64;
        if threshold_s < THRESHOLD_S_MIN as u64 {
            threshold_s = THRESHOLD_S_MIN as u64;
        }
        let ghost s = threshold_window(w as int);
        let ghost start = self.pixels@;
        proof {
            lemma_window_square(s);
        }

        let mut base: usize = 0;
        let mut y: usize = 0;
        while y < h
            invariant
                y <= h,
                w == self.w,
                h == self.h,
                self.wf(),
                threshold_s == s,
                s == threshold_window(w as int),
                1 <= s <= 0x1000_0000,
                255 * s * s <= 0xff00_0000_0000_0000,
                0 <= avg_w <= 255 * s,
                0 <= avg_u <= 255 * s,
                start == old(self)@.pixels,
                self@ == (Scene { pixels: self.pixels@, ..old(self)@ }),
                (self.pixels@, avg_w as int, avg_u as int) == threshold_rows(start, w as int, s, y as int),
                base == y * w,
                base <= self.pixels@.len(),
                forall|i: int| 0 <= i < base ==> #[trigger] self.pixels@[i] <= QUIRC_PIXEL_BLACK,
                forall|i: int| base <= i < self.pixels@.len() ==> #[trigger] self.pixels@[i] <= 255,
            decreases h - y,
        {
            proof {
                lemma_row_base(w as int, h as int, y as int);
            }
            let ghost before = self.pixels@;
            let ghost start_w = avg_w as int;
            let ghost start_u = avg_u as int;
            let ghost cap: int = 255 * s;

            let mut x: usize = 0;
            while x < w
                invariant
                    x <= w,
                    w == self.w,
                    self.row_average@.len() == w,
                    forall|k: int| 0 <= k < x ==> #[trigger] self.row_average@[k] == 0,
                    self.pixels@ == before,
                    self@ == (Scene { pixels: self.pixels@, ..old(self)@ }),
                    self.wf(),
                decreases w - x,
            {
                self.row_average[x] = 0;
                x += 1;
            }
            assert(self.row_average@ =~= Seq::new(w as nat, |i: int| 0u64));

            x = 0;
            while x < w
                invariant
                    x <= w,
                    w == self.w,
                    y < h,
                    h == self.h,
                    base == y * w,
                    base + w <= self.pixels@.len(),
                    self.wf(),
                    threshold_s == s,
                    1 <= s <= 0x1000_0000,
                    255 * s * s <= 0xff00_0000_0000_0000,
                    0 <= avg_w <= 255 * s,
                    0 <= avg_u <= 255 * s,
                    self.pixels@ == before,
                    self@ == (Scene { pixels: self.pixels@, ..old(self)@ }),
                    forall|i: int| base <= i < base + w ==> #[trigger] before[i] <= 255,
                    self.row_average@.len() == w,
                    (Sweep { avg_w: avg_w as int, avg_u: avg_u as int, sums: self.row_average@ }) == row_sweep(
                        before,
                        w as int,
                        y as int,
                        s,
                        start_w,
                        start_u,
                        x as int,
                    ),
                    cap == 255 * s,
                    forall|i: int|
                        0 <= i < w ==> (#[trigger] self.row_average@[i]) <= (if i < x {
                            cap
                        } else {
                            0int
                        }) + (if i >= w - x {
                            cap
                        } else {
                            0int
                        }),
                decreases w - x,
            {
                let wi = if y % 2 == 1 {
                    x
                } else {
                    w - 1 - x
                };
                let ui = w - 1 - wi;
                proof {
                    lemma_smooth_bound(avg_w as int, s, self.pixels@[base + wi] as int);
                    lemma_smooth_bound(avg_u as int, s, self.pixels@[base + ui] as int);
                }
                avg_w = (avg_w * (threshold_s - 1)) / threshold_s + self.pixels[base + wi] as u64;
                avg_u = (avg_u * (threshold_s - 1)) / threshold_s + self.pixels[base + ui] as u64;
                self.row_average[wi] = self.row_average[wi] + avg_w;
                self.row_average[ui] = self.row_average[ui] + avg_u;
                x += 1;
            }

            let ghost sweep = row_sweep(before, w as int, y as int, s, start_w, start_u, w as int);
            x = 0;
            while x < w
                invariant
                    x <= w,
                    w == self.w,
                    y < h,
                    h == self.h,
                    base == y * w,
                    base + w <= self.pixels@.len(),
                    self.pixels@.len() == before.len(),
                    self.wf(),
                    threshold_s == s,
                    1 <= s <= 0x1000_0000,
                    self@ == (Scene { pixels: self.pixels@, ..old(self)@ }),
                    self.row_average@ == sweep.sums,
                    self.row_average@.len() == w,
                    forall|i: int| 0 <= i < w ==> (#[trigger] self.row_average@[i]) <= 510 * s,
                    forall|i: int|
                        0 <= i < before.len() ==> #[trigger] self.pixels@[i] == if base <= i < base + x {
                            thresholded(before[i], sweep.sums[i - base], s)
                        } else {
                            before[i]
                        },
                decreases w - x,
            {
                if (self.pixels[base + x] as u64) < self.row_average[x] * ((100 - THRESHOLD_T) as u64) / (200
                    * threshold_s) {
                    self.pixels[base + x] = QUIRC_PIXEL_BLACK;
                } else {
                    self.pixels[base + x] = QUIRC_PIXEL_WHITE;
                }
                x += 1;
            }
            proof {
                assert(self.pixels@ =~= threshold_rows(start, w as int, s, y as int + 1).0);
            }
            base += w;
            y += 1;
        }
        proof {
            assert(h * w == w * h) by (nonlinear_arith);
        }
    }
}

} // verus!
