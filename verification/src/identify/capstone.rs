//! Finder patterns: a black square in a white ring in a black ring, whose
//! widths along any line through the centre are as 1:1:3:1:1.

use crate::identify::thresholding::{image_labels, lemma_row_base, spec_threshold};
use crate::ops::{
    same_colors, Quirc, QuircCapstone, QuircPoint, QuircRegion, Scene, QUIRC_MAX_CAPSTONES,
    QUIRC_PIXEL_REGION,
};
use vstd::prelude::*;

verus! {

/// The corners of a finder pattern from a sequence of four points.
pub open spec fn corner_array(c: Seq<QuircPoint>) -> [QuircPoint; 4] {
    [c[0], c[1], c[2], c[3]]
}

/// The origin of the image.
pub open spec fn origin() -> QuircPoint {
    QuircPoint { x: 0, y: 0 }
}

impl Scene {
    /// The scene after the finder pattern with the ring `ring` and the
    /// stone `stone` is recorded, if there is room for it: the corners of
    /// the ring are found as seen from the seed of the stone, both regions
    /// are claimed by the pattern, and the pattern belongs to no grid. Its
    /// centre is left at the origin for the caller to set.
    pub open spec fn record_capstone(self, ring: int, stone: int) -> Scene {
        let n = self.num_capstones;
        let corners = self.region_corners(ring, self.regions[stone].seed, origin());
        if n >= QUIRC_MAX_CAPSTONES {
            self
        } else {
            Scene {
                pixels: self.corners_fill(ring).pixels,
                regions: self.regions.update(
                    stone,
                    QuircRegion { capstone: n as i32, ..self.regions[stone] },
                ).update(ring, QuircRegion { capstone: n as i32, ..self.regions[ring] }),
                capstones: self.capstones.update(
                    n,
                    QuircCapstone {
                        ring: ring as u32,
                        stone: stone as u32,
                        corners: corner_array(corners),
                        center: origin(),
                        qr_grid: -1i32,
                    },
                ),
                num_capstones: n + 1,
                ..self
            }
        }
    }
}

impl Quirc {
    /// Records a finder pattern, if there is room for one more.
    pub fn record_capstone(&mut self, ring: usize, stone: usize)
        requires
            old(self).wf(),
            old(self)@.linked(),
            QUIRC_PIXEL_REGION <= ring < old(self).num_regions,
            QUIRC_PIXEL_REGION <= stone < old(self).num_regions,
        ensures
            final(self).wf(),
            final(self)@.linked(),
            final(self)@ == old(self)@.record_capstone(ring as int, stone as int),
            same_colors(old(self).pixels@, final(self).pixels@),
    {
        if self.num_capstones >= QUIRC_MAX_CAPSTONES {
            return ;
        }
        let index = self.num_capstones;
        let zero = QuircPoint { x: 0, y: 0 };
        let mut corners = [zero; 4];
        let stone_seed = self.regions[stone].seed;
        self.find_region_corners(ring, stone_seed, &mut corners);
        self.regions[stone].capstone = index as i32;
        self.regions[ring].capstone = index as i32;
        self.capstones[index] = QuircCapstone {
            ring: ring as u32,
            stone: stone as u32,
            corners: corners,
            center: zero,
            qr_grid: -1,
        };
        self.num_capstones += 1;
        proof {
            let want = old(self)@.record_capstone(ring as int, stone as int);
            assert(corners =~= corner_array(
                old(self)@.region_corners(ring as int, old(self)@.regions[stone as int].seed, origin()),
            ));
            assert(self@.regions =~= want.regions);
            assert(self@.capstones =~= want.capstones);
        }
    }
}

/// The state of the scan of a row for finder patterns.
pub struct RunState {
    /// Whether the last pixel was black.
    pub last_color: bool,
    /// The length of the run of pixels of one colour that the scan is in.
    pub run_length: int,
    /// The number of runs that have ended.
    pub run_count: int,
    /// The lengths of the last five runs that have ended.
    pub pb: Seq<int>,
}

/// The state of the scan before the first pixel of a row.
pub open spec fn run_start() -> RunState {
    RunState { last_color: false, run_length: 0, run_count: 0, pb: seq![0int, 0int, 0int, 0int, 0int] }
}

/// Whether five runs are as 1:1:3:1:1, each within three quarters of the
/// mean of the four short ones.
pub open spec fn finder_ratio_ok(pb: Seq<int>) -> bool {
    let avg = (pb[0] + pb[1] + pb[3] + pb[4]) / 4;
    let err = avg * 3 / 4;
    &&& avg - err <= pb[0] <= avg + err
    &&& avg - err <= pb[1] <= avg + err
    &&& 3 * avg - err <= pb[2] <= 3 * avg + err
    &&& avg - err <= pb[3] <= avg + err
    &&& avg - err <= pb[4] <= avg + err
}

impl Scene {
    /// The scene after the runs `pb` that end before column `x` of row `y`
    /// are tested for a finder pattern. The regions at the far end of the
    /// last run, of the middle run and of the first run are asked for, in
    /// this order. They make a finder pattern if the first and the last
    /// are the same region, the ring, and the middle one is another, the
    /// stone; if neither belongs to a finder pattern yet; and if the stone
    /// has between 10 and 70 percent of the pixels of the ring.
    pub open spec fn test_capstone(self, x: int, y: int, pb: Seq<int>) -> Scene {
        let (s1, ring_right) = self.region_code(x - pb[4], y);
        let (s2, stone) = s1.region_code(x - pb[4] - pb[3] - pb[2], y);
        let (s3, ring_left) = s2.region_code(x - pb[4] - pb[3] - pb[2] - pb[1] - pb[0], y);
        if ring_right is None {
            s1
        } else if stone is None {
            s2
        } else if ring_left is None {
            s3
        } else if ring_left != ring_right || ring_left == stone {
            s3
        } else if s3.regions[stone->0].capstone >= 0 || s3.regions[ring_left->0].capstone >= 0 {
            s3
        } else if s3.regions[stone->0].count * 100 / (s3.regions[ring_left->0].count as int) < 10
            || s3.regions[stone->0].count * 100 / (s3.regions[ring_left->0].count as int) > 70 {
            s3
        } else {
            s3.record_capstone(ring_left->0, stone->0)
        }
    }

    /// The scene and the state of the scan after the pixel in column `x`
    /// of row `y`. Where the colour turns, a run has ended; where the
    /// fifth or a later run ends at a white pixel and the last five are
    /// as those of a finder pattern, they are tested for one.
    pub open spec fn scan_step(self, y: int, x: int, st: RunState) -> (Scene, RunState) {
        let color = self.label(x, y) != 0;
        let turned = x != 0 && color != st.last_color;
        let pb = if turned {
            seq![st.pb[1], st.pb[2], st.pb[3], st.pb[4], st.run_length]
        } else {
            st.pb
        };
        let run_count = if turned {
            st.run_count + 1
        } else {
            st.run_count
        };
        (
            if turned && !color && run_count >= 5 && finder_ratio_ok(pb) {
                self.test_capstone(x, y, pb)
            } else {
                self
            },
            RunState {
                last_color: color,
                run_length: if turned {
                    1
                } else {
                    st.run_length + 1
                },
                run_count: run_count,
                pb: pb,
            },
        )
    }

    /// The scene and the state of the scan after the first `n` pixels of
    /// row `y`.
    pub open spec fn finder_scan_to(self, y: int, n: int) -> (Scene, RunState)
        decreases n,
    {
        if n <= 0 {
            (self, run_start())
        } else {
            let (scene, st) = self.finder_scan_to(y, n - 1);
            scene.scan_step(y, n - 1, st)
        }
    }

    /// The scene after row `y` is scanned for finder patterns.
    pub open spec fn finder_scan(self, y: int) -> Scene {
        self.finder_scan_to(y, self.w).0
    }

    /// The scene after the first `n` rows are scanned for finder patterns.
    pub open spec fn finder_scan_rows(self, n: int) -> Scene
        decreases n,
    {
        if n <= 0 {
            self
        } else {
            self.finder_scan_rows(n - 1).finder_scan(n - 1)
        }
    }
}

impl Quirc {
    /// Tests the five runs `pb` that end before column `x` of row `y` for
    /// a finder pattern, and records it if they make one.
    pub fn test_capstone(&mut self, x: usize, y: usize, pb: &[usize])
        requires
            old(self).wf(),
            old(self)@.linked(),
            pb@.len() >= 5,
            pb@[0] + pb@[1] + pb@[2] + pb@[3] + pb@[4] <= x,
        ensures
            final(self).wf(),
            final(self)@.linked(),
            final(self)@ == old(self)@.test_capstone(x as int, y as int, pb@.map_values(|v: usize| v as int)),
            final(self).w == old(self).w,
            final(self).h == old(self).h,
            final(self).num_grids == old(self).num_grids,
            same_colors(old(self).pixels@, final(self).pixels@),
    {
        let ring_right = match self.region_code(x - pb[4], y) {
            Some(code) => code,
            None => {
                return ;
            },
        };
        let stone = match self.region_code(x - pb[4] - pb[3] - pb[2], y) {
            Some(code) => code,
            None => {
                return ;
            },
        };
        let ring_left = match self.region_code(x - pb[4] - pb[3] - pb[2] - pb[1] - pb[0], y) {
            Some(code) => code,
            None => {
                return ;
            },
        };
        if ring_left != ring_right {
            return ;
        }
        if ring_left == stone {
            return ;
        }
        let stone_reg = self.regions[stone];
        let ring_reg = self.regions[ring_left];
        if stone_reg.capstone >= 0 || ring_reg.capstone >= 0 {
            return ;
        }
        let ratio = stone_reg.count as u64 * 100 / ring_reg.count as u64;
        if ratio < 10 || ratio > 70 {
            return ;
        }
        self.record_capstone(ring_left, stone);
    }
}

impl Scene {
    /// The scene after the image is thresholded and every row is scanned
    /// for finder patterns, from the top.
    pub open spec fn find_capstones(self) -> Scene {
        (Scene { pixels: spec_threshold(image_labels(self.image), self.w, self.h), ..self }).finder_scan_rows(
            self.h,
        )
    }
}

impl Quirc {
    /// Scans row `y` for finder patterns and records those it finds.
    pub fn finder_scan(&mut self, y: usize)
        requires
            old(self).wf(),
            old(self)@.linked(),
            y < old(self).h,
        ensures
            final(self).wf(),
            final(self)@.linked(),
            final(self)@ == old(self)@.finder_scan(y as int),
            final(self).w == old(self).w,
            final(self).h == old(self).h,
            final(self).num_grids == old(self).num_grids,
            same_colors(old(self).pixels@, final(self).pixels@),
    {
        let w = self.w;
        proof {
            lemma_row_base(w as int, self.h as int, y as int);
        }
        let base = y * w;
        let mut last_color = false;
        let mut run_length: usize = 0;
        let mut run_count: usize = 0;
        let mut pb = [0usize; 5];
        let ghost mut st = run_start();
        proof {
            assert(pb@.map_values(|v: usize| v as int) =~= st.pb);
        }

        let mut x: usize = 0;
        while x < w
            invariant
                x <= w,
                w == self.w,
                self.h == old(self).h,
                w == old(self).w,
                y < self.h,
                base == y * w,
                base + w <= self.pixels@.len(),
                self.wf(),
                self@.linked(),
                self.num_grids == old(self).num_grids,
                same_colors(old(self).pixels@, self.pixels@),
                old(self)@.finder_scan_to(y as int, x as int) == (self@, st),
                st.last_color == last_color,
                st.run_length == run_length,
                st.run_count == run_count,
                st.pb == pb@.map_values(|v: usize| v as int),
                run_count <= x,
                pb@[0] + pb@[1] + pb@[2] + pb@[3] + pb@[4] + run_length <= x,
            decreases w - x,
        {
            let ghost here = self@;
            let color = self.pixels[base + x] != 0;
            let turned = x != 0 && color != last_color;
            if turned {
                pb = [pb[1], pb[2], pb[3], pb[4], run_length];
                run_length = 0;
                run_count += 1;
                proof {
                    assert(pb@.map_values(|v: usize| v as int) =~= seq![
                        st.pb[1],
                        st.pb[2],
                        st.pb[3],
                        st.pb[4],
                        st.run_length,
                    ]);
                }
                if !color && run_count >= 5 {
                    let avg = (pb[0] + pb[1] + pb[3] + pb[4]) / 4;
                    let err = avg * 3 / 4;
                    let ok = avg - err <= pb[0] && pb[0] <= avg + err && avg - err <= pb[1] && pb[1] <= avg + err && 3
                        * avg - err <= pb[2] && pb[2] <= 3 * avg + err && avg - err <= pb[3] && pb[3] <= avg + err
                        && avg - err <= pb[4] && pb[4] <= avg + err;
                    proof {
                        assert(ok == finder_ratio_ok(pb@.map_values(|v: usize| v as int)));
                    }
                    if ok {
                        self.test_capstone(x, y, &pb);
                    }
                }
            }
            run_length += 1;
            last_color = color;
            proof {
                let next = here.scan_step(y as int, x as int, st);
                assert(self@ == next.0);
                st = next.1;
            }
            x += 1;
        }
    }

    /// Thresholds the image and scans it for finder patterns. The centre
    /// of each pattern that is found is left at the origin: it is for the
    /// caller to set, from the corners of the pattern. No grid is made, and
    /// in an image without rows nothing is found.
    pub fn find_capstones(&mut self)
        requires
            old(self).wf(),
            old(self).num_regions == QUIRC_PIXEL_REGION,
            old(self).num_capstones == 0,
            old(self).num_grids == 0,
        ensures
            final(self).wf(),
            final(self)@.linked(),
            final(self)@ == old(self)@.find_capstones(),
            final(self).num_grids == 0,
            old(self).h == 0 ==> final(self).num_capstones == 0,
    {
        self.pixels_setup();
        self.threshold();
        let h = self.h;
        let ghost start = self@;
        let mut y: usize = 0;
        while y < h
            invariant
                y <= h,
                h == self.h,
                self.wf(),
                self@.linked(),
                self.num_grids == 0,
                start.h == h,
                h == 0 ==> self.num_capstones == 0,
                self@ == start.finder_scan_rows(y as int),
            decreases h - y,
        {
            self.finder_scan(y);
            y += 1;
        }
    }
}

} // verus!
