//! The values that pass between the caller, the detector and the decoder.

use crate::constants::{QUIRC_MAX_BITMAP, QUIRC_MAX_PAYLOAD};
use vstd::prelude::*;

verus! {

/// The largest number of regions, the labels 0 and 1 included.
pub const QUIRC_MAX_REGIONS: usize = 256;

/// The largest number of finder patterns.
pub const QUIRC_MAX_CAPSTONES: usize = 32;

/// The largest number of symbols in one image.
pub const QUIRC_MAX_GRIDS: usize = 8;

/// The largest width and the largest height of an image.
pub const QUIRC_MAX_DIMENSION: usize = 0x7fff_ffff;

/// The largest number of pixels of an image.
pub const QUIRC_MAX_PIXELS: usize = 0xffff_ffff;

/// The label of a white pixel.
pub const QUIRC_PIXEL_WHITE: u16 = 0;

/// The label of a black pixel that belongs to no region yet.
pub const QUIRC_PIXEL_BLACK: u16 = 1;

/// The first label that stands for a region.
pub const QUIRC_PIXEL_REGION: u16 = 2;

/// A location in the image, in pixels.
#[derive(Copy, Clone, Debug, Hash, PartialEq, Eq, PartialOrd, Ord, Structural)]
pub struct QuircPoint {
    pub x: isize,
    pub y: isize,
}

/// The module bitmap of one symbol found in an image.
#[derive(Copy, Clone, Debug, Hash, PartialEq, Eq, PartialOrd, Ord)]
pub struct QuircCode {
    /// The four corners of the symbol in the image, clockwise from the top left.
    pub corners: [QuircPoint; 4],
    /// The number of modules on each side.
    pub size: u32,
    /// One bit for each module, by rows. The module in column `x` of row `y`
    /// has the index `i = y * size + x`; it is black when bit `i & 7` of byte
    /// `i >> 3` is set.
    pub cell_bitmap: [u8; QUIRC_MAX_BITMAP],
}

/// The decoded contents of one symbol.
#[derive(Copy, Clone, Debug, Hash, PartialEq, Eq, PartialOrd, Ord)]
pub struct QuircData {
    pub version: u32,
    pub ecc_level: u8,
    pub mask: u8,
    /// The highest data type among the segments of the symbol.
    pub data_type: u8,
    /// The payload. Kanji segments are stored as Shift-JIS, all others as read.
    pub payload: [u8; QUIRC_MAX_PAYLOAD],
    pub payload_len: usize,
    /// The ECI assignment number, or 0 if the symbol gives none.
    pub eci: u32,
}

/// A connected region of pixels of one colour.
#[derive(Copy, Clone, Debug, Hash, PartialEq, Eq, PartialOrd, Ord)]
pub struct QuircRegion {
    /// A pixel of the region; filling starts from it.
    pub seed: QuircPoint,
    /// The number of pixels that were labelled.
    pub count: u32,
    /// The finder pattern that the region is part of, or -1.
    pub capstone: i32,
}

/// A finder pattern: a black square (the stone) inside a black ring.
#[derive(Copy, Clone, Debug, Hash, PartialEq, Eq, PartialOrd, Ord)]
pub struct QuircCapstone {
    pub ring: u32,
    pub stone: u32,
    /// The corners of the ring.
    pub corners: [QuircPoint; 4],
    /// The centre of the pattern, set once its perspective is known.
    pub center: QuircPoint,
    /// The grid that has claimed the pattern, or -1.
    pub qr_grid: i32,
}

/// A symbol: three finder patterns and what was measured between them.
#[derive(Copy, Clone, Debug, Hash, PartialEq, Eq, PartialOrd, Ord)]
pub struct QuircGrid {
    /// The three finder patterns, clockwise: the one at the bottom left of
    /// the symbol, the one at the top left, which is at the right angle of
    /// the three, and the one at the top right.
    pub caps: [u32; 3],
    /// The region of the alignment pattern, or -1.
    pub align_region: i32,
    /// The corner of the alignment pattern that the grid is fitted to.
    pub align: QuircPoint,
    /// The end points of the timing patterns.
    pub tpep: [QuircPoint; 3],
    pub hscan: i32,
    pub vscan: i32,
    /// The number of modules on each side.
    pub grid_size: u32,
}

/// The detector: an image, its pixels as labels, and what was found in it.
#[derive(Clone, Debug, PartialEq, PartialOrd)]
pub struct Quirc {
    /// The grayscale image, by rows.
    pub image: Vec<u8>,
    /// One label for each pixel.
    pub pixels: Vec<u16>,
    /// Room for the sums of one row while the image is thresholded.
    pub row_average: Vec<u64>,
    pub w: usize,
    pub h: usize,
    /// The number of labels in use; the regions are those from 2 on.
    pub num_regions: usize,
    pub regions: [QuircRegion; QUIRC_MAX_REGIONS],
    pub num_capstones: usize,
    pub capstones: [QuircCapstone; QUIRC_MAX_CAPSTONES],
    pub num_grids: usize,
    pub grids: [QuircGrid; QUIRC_MAX_GRIDS],
}

/// What a detector holds, as plain values.
pub struct Scene {
    pub w: int,
    pub h: int,
    pub image: Seq<u8>,
    pub pixels: Seq<u16>,
    pub num_regions: int,
    pub regions: Seq<QuircRegion>,
    pub num_capstones: int,
    pub capstones: Seq<QuircCapstone>,
    pub num_grids: int,
    pub grids: Seq<QuircGrid>,
}

impl View for Quirc {
    type V = Scene;

    open spec fn view(&self) -> Scene {
        Scene {
            w: self.w as int,
            h: self.h as int,
            image: self.image@,
            pixels: self.pixels@,
            num_regions: self.num_regions as int,
            regions: self.regions@,
            num_capstones: self.num_capstones as int,
            capstones: self.capstones@,
            num_grids: self.num_grids as int,
            grids: self.grids@,
        }
    }
}

impl Scene {
    /// Whether the pixel in column `x` of row `y` lies in the image.
    pub open spec fn inside(&self, x: int, y: int) -> bool {
        0 <= x < self.w && 0 <= y < self.h
    }

    /// The label of the pixel in column `x` of row `y`.
    pub open spec fn label(&self, x: int, y: int) -> u16 {
        self.pixels[y * self.w + x]
    }

    /// Whether the finder pattern `c` is one of the three of the grid `g`.
    pub open spec fn claims(&self, g: int, c: int) -> bool {
        self.grids[g].caps[0] == c || self.grids[g].caps[1] == c || self.grids[g].caps[2] == c
    }

    /// The buffers have the size of the image, and the counts are within
    /// their limits.
    pub open spec fn wf(&self) -> bool {
        &&& 0 <= self.w <= QUIRC_MAX_DIMENSION
        &&& 0 <= self.h <= QUIRC_MAX_DIMENSION
        &&& self.w * self.h <= QUIRC_MAX_PIXELS
        &&& self.image.len() == self.w * self.h
        &&& self.pixels.len() == self.w * self.h
        &&& QUIRC_PIXEL_REGION <= self.num_regions <= QUIRC_MAX_REGIONS
        &&& self.regions.len() == QUIRC_MAX_REGIONS
        &&& 0 <= self.num_capstones <= QUIRC_MAX_CAPSTONES
        &&& self.capstones.len() == QUIRC_MAX_CAPSTONES
        &&& 0 <= self.num_grids <= QUIRC_MAX_GRIDS
        &&& self.grids.len() == QUIRC_MAX_GRIDS
    }

    /// Every label is in use, every region has pixels and starts at a pixel
    /// inside the image that bears its label, the corners of every finder
    /// pattern lie in the image, a finder pattern belongs to a grid only if
    /// it is one of its three, and every reference from a region to a
    /// finder pattern, from a finder pattern to its regions and its grid,
    /// and from a grid to its finder patterns and its alignment region
    /// points at something that exists.
    pub open spec fn linked(&self) -> bool {
        &&& forall|i: int| 0 <= i < self.pixels.len() ==> #[trigger] self.pixels[i] < self.num_regions
        &&& forall|r: int|
            QUIRC_PIXEL_REGION <= r < self.num_regions ==> {
                &&& self.inside((#[trigger] self.regions[r]).seed.x as int, self.regions[r].seed.y as int)
                &&& self.label(self.regions[r].seed.x as int, self.regions[r].seed.y as int) == r
                &&& self.regions[r].count > 0
                &&& -1 <= self.regions[r].capstone < self.num_capstones
            }
        &&& forall|c: int|
            0 <= c < self.num_capstones ==> {
                &&& QUIRC_PIXEL_REGION <= (#[trigger] self.capstones[c]).ring < self.num_regions
                &&& QUIRC_PIXEL_REGION <= self.capstones[c].stone < self.num_regions
                &&& -1 <= self.capstones[c].qr_grid < self.num_grids
                &&& self.capstones[c].qr_grid >= 0 ==> self.claims(self.capstones[c].qr_grid as int, c)
                &&& forall|j: int| 0 <= j < 4 ==> in_image(#[trigger] self.capstones[c].corners[j], self.w, self.h)
            }
        &&& forall|g: int|
            0 <= g < self.num_grids ==> {
                &&& (#[trigger] self.grids[g]).caps[0] < self.num_capstones
                &&& self.grids[g].caps[1] < self.num_capstones
                &&& self.grids[g].caps[2] < self.num_capstones
                &&& -1 <= self.grids[g].align_region < self.num_regions
            }
    }
}

/// Whether the point is a pixel of an image of width `w` and height `h`.
pub open spec fn in_image(p: QuircPoint, w: int, h: int) -> bool {
    0 <= p.x < w && 0 <= p.y < h
}

/// Whether the same pixels are white in both sets of labels.
pub open spec fn same_colors(a: Seq<u16>, b: Seq<u16>) -> bool {
    &&& a.len() == b.len()
    &&& forall|i: int| 0 <= i < a.len() ==> ((#[trigger] a[i] != 0) == (b[i] != 0))
}

/// The index of a pixel lies in the buffers.
pub proof fn lemma_pixel_index(w: int, h: int, x: int, y: int)
    by (nonlinear_arith)
    requires
        0 <= x < w,
        0 <= y < h,
    ensures
        0 <= y * w <= y * w + x < w * h,
        y * w + w <= w * h,
{
}

/// Two pixels with the same index are the same pixel.
pub proof fn lemma_pixel_unique(w: int, x1: int, y1: int, x2: int, y2: int)
    by (nonlinear_arith)
    requires
        0 <= x1 < w,
        0 <= x2 < w,
        0 <= y1,
        0 <= y2,
        y1 * w + x1 == y2 * w + x2,
    ensures
        x1 == x2,
        y1 == y2,
{
}

impl Quirc {
    /// The buffers have the size of the image, the counts are within their
    /// limits, and there is room for the sums of a row.
    pub open spec fn wf(&self) -> bool {
        self@.wf() && self.row_average@.len() == self.w
    }

    /// Makes a detector for images of no size.
    pub fn new() -> (q: Quirc)
        ensures
            q.wf(),
            q@.linked(),
            q.w == 0,
            q.h == 0,
            q.num_regions == QUIRC_PIXEL_REGION,
            q.num_capstones == 0,
            q.num_grids == 0,
            q.image@.len() == 0,
            q.pixels@.len() == 0,
            q.row_average@.len() == 0,
    {
        let origin = QuircPoint { x: 0, y: 0 };
        let q = Quirc {
            image: Vec::new(),
            pixels: Vec::new(),
            row_average: Vec::new(),
            w: 0,
            h: 0,
            num_regions: QUIRC_PIXEL_REGION as usize,
            regions: [QuircRegion { seed: origin, count: 0, capstone: 0 }; QUIRC_MAX_REGIONS],
            num_capstones: 0,
            capstones: [QuircCapstone { ring: 0, stone: 0, corners: [origin; 4], center: origin, qr_grid: 0 };
                QUIRC_MAX_CAPSTONES],
            num_grids: 0,
            grids: [QuircGrid {
                caps: [0; 3],
                align_region: 0,
                align: origin,
                tpep: [origin; 3],
                hscan: 0,
                vscan: 0,
                grid_size: 0,
            }; QUIRC_MAX_GRIDS],
        };
        assert(q.w * q.h == 0) by (nonlinear_arith)
            requires
                q.w == 0,
        ;
        q
    }

    /// Sets the size of the images to come. What was found before is
    /// forgotten, and all labels are white.
    pub fn resize(&mut self, to_w: usize, to_h: usize)
        requires
            old(self).wf(),
            to_w <= QUIRC_MAX_DIMENSION,
            to_h <= QUIRC_MAX_DIMENSION,
            to_w * to_h <= QUIRC_MAX_PIXELS,
        ensures
            final(self).wf(),
            final(self)@.linked(),
            final(self).w == to_w,
            final(self).h == to_h,
            final(self).num_regions == QUIRC_PIXEL_REGION,
            final(self).num_capstones == 0,
            final(self).num_grids == 0,
            final(self).regions == old(self).regions,
            final(self).capstones == old(self).capstones,
            final(self).grids == old(self).grids,
            forall|i: int| 0 <= i < to_w * to_h ==> #[trigger] final(self).pixels@[i] == QUIRC_PIXEL_WHITE,
            forall|i: int|
                0 <= i < to_w * to_h ==> #[trigger] final(self).image@[i] == if i < old(self).image@.len() {
                    old(self).image@[i]
                } else {
                    0u8
                },
    {
        let n = to_w * to_h;
        self.w = to_w;
        self.h = to_h;
        self.image.resize(n, 0u8);
        self.pixels = vec![0u16; n];
        self.row_average = vec![0u64; to_w];
        self.num_regions = QUIRC_PIXEL_REGION as usize;
        self.num_capstones = 0;
        self.num_grids = 0;
    }

    /// The number of symbols found in the last image.
    pub fn count(&self) -> (n: usize)
        ensures
            n == self.num_grids,
    {
        self.num_grids
    }

    /// The width and the height of the images.
    pub fn size(&self) -> (size: (usize, usize))
        ensures
            size == (self.w, self.h),
    {
        (self.w, self.h)
    }

    /// Forgets what was found in the last image and hands out the image
    /// buffer to be filled with the next one: one byte for each pixel, by
    /// rows.
    pub fn begin(&mut self) -> (buf: &mut [u8])
        requires
            old(self).wf(),
        ensures
            buf@ == old(self).image@,
            final(self).image@ == final(buf)@,
            final(self).pixels == old(self).pixels,
            final(self).row_average == old(self).row_average,
            final(self).w == old(self).w,
            final(self).h == old(self).h,
            final(self).regions == old(self).regions,
            final(self).capstones == old(self).capstones,
            final(self).grids == old(self).grids,
            final(self).num_regions == QUIRC_PIXEL_REGION,
            final(self).num_capstones == 0,
            final(self).num_grids == 0,
    {
        self.num_regions = QUIRC_PIXEL_REGION as usize;
        self.num_capstones = 0;
        self.num_grids = 0;
        self.image.as_mut_slice()
    }
}

} // verus!
