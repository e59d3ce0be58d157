use quirs::identify::floodfill::{Span, FLOOD_FILL_MAX_DEPTH};
use quirs::identify::linear_algebra::line_intersect;
use quirs::identify::fitness::{fitness_cells, FitnessCell, FITNESS_SAMPLES};
use quirs::ops::{Quirc, QuircCapstone, QuircPoint, QUIRC_MAX_REGIONS};

fn pt(x: isize, y: isize) -> QuircPoint {
    QuircPoint { x, y }
}

/// A detector whose labels are given: '#' is black, anything else white.
fn labelled(rows: &[&str]) -> Quirc {
    let h = rows.len();
    let w = rows[0].len();
    let mut q = Quirc::new();
    q.resize(w, h);
    q.begin();
    for (y, row) in rows.iter().enumerate() {
        assert_eq!(row.len(), w);
        for (x, c) in row.bytes().enumerate() {
            q.pixels[y * w + x] = if c == b'#' { 1 } else { 0 };
        }
    }
    q
}

fn labels(q: &Quirc) -> Vec<String> {
    (0..q.h)
        .map(|y| {
            (0..q.w)
                .map(|x| match q.pixels[y * q.w + x] {
                    0 => '.',
                    1 => '#',
                    n => char::from(b'a' + (n - 2) as u8),
                })
                .collect()
        })
        .collect()
}

#[test]
fn new_detector_is_empty() {
    let q = Quirc::new();
    assert_eq!(q.size(), (0, 0));
    assert_eq!(q.count(), 0);
    assert!(q.image.is_empty());
}

#[test]
fn empty_image_gives_no_symbols() {
    let mut q = Quirc::new();
    q.resize(0, 0);
    assert_eq!(q.begin().len(), 0);
    q.find_capstones();
    assert_eq!(q.count(), 0);
    assert_eq!(q.num_capstones, 0);
    let origin = pt(0, 0);
    assert!(q.extract(0, &[origin; 4], &[]).is_none());
}

#[test]
fn resize_sets_size_and_clears_results() {
    let mut q = Quirc::new();
    q.resize(5, 3);
    assert_eq!(q.size(), (5, 3));
    assert_eq!(q.image.len(), 15);
    assert_eq!(q.pixels.len(), 15);
    {
        let buf = q.begin();
        assert_eq!(buf.len(), 15);
        buf[7] = 200;
    }
    assert_eq!(q.image[7], 200);
    q.resize(2, 2);
    assert_eq!(q.size(), (2, 2));
    assert_eq!(q.image.len(), 4);
    assert_eq!(q.count(), 0);
    q.resize(0, 7);
    q.begin();
    q.find_capstones();
    assert_eq!(q.count(), 0);
}

/// Thresholding written out row by row, without the library.
fn direct_threshold(image: &[u8], w: usize, h: usize) -> Vec<u16> {
    let s = std::cmp::max(1, w / 8) as u64;
    let mut out = vec![0u16; w * h];
    let mut avg_w = 0u64;
    let mut avg_u = 0u64;
    for y in 0..h {
        let row = &image[y * w..(y + 1) * w];
        let mut sums = vec![0u64; w];
        for x in 0..w {
            let (wi, ui) = if y % 2 == 1 { (x, w - 1 - x) } else { (w - 1 - x, x) };
            avg_w = avg_w * (s - 1) / s + row[wi] as u64;
            avg_u = avg_u * (s - 1) / s + row[ui] as u64;
            sums[wi] += avg_w;
            sums[ui] += avg_u;
        }
        for x in 0..w {
            out[y * w + x] = if (row[x] as u64) < sums[x] * 95 / (200 * s) { 1 } else { 0 };
        }
    }
    out
}

#[test]
fn threshold_matches_a_direct_computation() {
    for (w, h) in [(1usize, 1usize), (3, 2), (8, 5), (17, 9), (40, 7), (64, 3)] {
        let mut q = Quirc::new();
        q.resize(w, h);
        let mut image = vec![0u8; w * h];
        let mut seed = 12345u32;
        for (i, v) in image.iter_mut().enumerate() {
            seed = seed.wrapping_mul(1664525).wrapping_add(1013904223);
            let bright = ((i / w + (i % w) / 3) % 2) as u32 * 150 + 50;
            *v = (bright + (seed >> 27)) as u8;
        }
        q.begin().copy_from_slice(&image);
        q.pixels_setup();
        assert!(q.pixels.iter().zip(&image).all(|(p, i)| *p == *i as u16));
        q.threshold();
        assert_eq!(q.pixels, direct_threshold(&image, w, h), "{} x {}", w, h);
    }
}

#[test]
fn threshold_of_a_dark_square_on_white() {
    let (w, h) = (32usize, 8usize);
    let mut q = Quirc::new();
    q.resize(w, h);
    {
        let buf = q.begin();
        for y in 0..h {
            for x in 0..w {
                buf[y * w + x] = if (10..20).contains(&x) && (2..6).contains(&y) { 10 } else { 240 };
            }
        }
    }
    q.pixels_setup();
    q.threshold();
    for y in 0..h {
        for x in 0..w {
            let black = (10..20).contains(&x) && (2..6).contains(&y);
            assert_eq!(q.pixels[y * w + x], black as u16, "pixel {} {}", x, y);
        }
    }
}

#[test]
fn flood_fill_fills_what_is_connected() {
    let mut q = labelled(&[
        "..##....",
        ".##..#..",
        ".#...#.#",
        ".###.#.#",
        "...#...#",
    ]);
    let mut spans: Vec<Span> = Vec::new();
    q.flood_fill_seed(2, 1, 1, 2, &mut spans, 0);
    assert_eq!(labels(&q), vec!["..aa....", ".aa..#..", ".a...#.#", ".aaa.#.#", "...a...#"]);
    assert_eq!(spans[0], Span { y: 1, left: 1, right: 2 });
    let total: usize = spans.iter().map(|s| s.right - s.left + 1).sum();
    assert_eq!(total, 9);
    // The order: the span of the seed, then what lies above it, then below.
    assert_eq!(spans[1], Span { y: 0, left: 2, right: 3 });
    assert_eq!(spans[2], Span { y: 2, left: 1, right: 1 });
}

#[test]
fn flood_fill_stops_at_the_depth_limit() {
    let mut q = labelled(&["#", "#", "#", "#"]);
    let mut spans: Vec<Span> = Vec::new();
    q.flood_fill_seed(0, 0, 1, 2, &mut spans, FLOOD_FILL_MAX_DEPTH - 2);
    assert_eq!(labels(&q), vec!["a", "a", "#", "#"]);
    assert_eq!(spans.len(), 2);
    q.flood_fill_seed(0, 2, 1, 3, &mut spans, FLOOD_FILL_MAX_DEPTH);
    assert_eq!(labels(&q), vec!["a", "a", "#", "#"]);
}

#[test]
fn region_code_labels_and_counts() {
    let mut q = labelled(&[
        "##..#",
        "#...#",
        "..#..",
    ]);
    assert_eq!(q.region_code(3, 0), None);
    assert_eq!(q.region_code(5, 0), None);
    assert_eq!(q.region_code(0, 3), None);
    assert_eq!(q.region_code(0, 0), Some(2));
    assert_eq!(q.region_code(4, 1), Some(3));
    assert_eq!(q.region_code(1, 0), Some(2));
    assert_eq!(q.region_code(2, 2), Some(4));
    assert_eq!(labels(&q), vec!["aa..b", "a...b", "..c.."]);
    assert_eq!(q.num_regions, 5);
    assert_eq!(q.regions[2].count, 3);
    assert_eq!(q.regions[2].seed, pt(0, 0));
    assert_eq!(q.regions[2].capstone, -1);
    assert_eq!(q.regions[3].count, 2);
    assert_eq!(q.regions[3].seed, pt(4, 1));
    assert_eq!(q.regions[4].count, 1);
}

#[test]
fn region_code_refuses_when_no_label_is_left() {
    let row: String = "#.".repeat(300);
    let mut q = labelled(&[&row]);
    for i in 0..QUIRC_MAX_REGIONS - 2 {
        assert_eq!(q.region_code(2 * i, 0), Some(i + 2));
    }
    assert_eq!(q.num_regions, QUIRC_MAX_REGIONS);
    assert_eq!(q.region_code(2 * (QUIRC_MAX_REGIONS - 2), 0), None);
    assert_eq!(q.pixels[2 * (QUIRC_MAX_REGIONS - 2)], 1);
    assert_eq!(q.region_code(0, 0), Some(2));
}

#[test]
fn corners_of_a_square_region() {
    let mut q = labelled(&[
        ".........",
        "..#####..",
        "..#####..",
        "..#####..",
        "..#####..",
        ".........",
    ]);
    assert_eq!(q.region_code(4, 2), Some(2));
    let before = q.pixels.clone();
    let mut corners = [pt(0, 0); 4];
    q.find_region_corners(2, pt(0, 0), &mut corners);
    assert_eq!(q.pixels, before);
    // Seen from the origin, the far corner is the bottom right one; the
    // four corners follow in the directions along, right of, against and
    // left of the line to it.
    assert_eq!(corners[0], pt(6, 4));
    assert_eq!(corners[2], pt(2, 1));
    assert!(corners.contains(&pt(6, 1)));
    assert!(corners.contains(&pt(2, 4)));
}

#[test]
fn lines_meet_where_they_should() {
    assert_eq!(line_intersect(&pt(0, 0), &pt(10, 10), &pt(0, 10), &pt(10, 0)), Some(pt(5, 5)));
    assert_eq!(line_intersect(&pt(0, 0), &pt(10, 0), &pt(3, -5), &pt(3, 5)), Some(pt(3, 0)));
    assert_eq!(line_intersect(&pt(0, 0), &pt(4, 4), &pt(1, 0), &pt(5, 4)), None);
    assert_eq!(line_intersect(&pt(0, 0), &pt(0, 0), &pt(1, 0), &pt(5, 4)), None);
    // The quotient is rounded towards zero: these lines meet at (1/3, -1/3).
    assert_eq!(line_intersect(&pt(0, 0), &pt(1, -1), &pt(0, -1), &pt(1, 1)), Some(pt(0, 0)));
    // Far away, but still a point.
    assert_eq!(
        line_intersect(&pt(0, 0), &pt(1000000, 1), &pt(0, 2), &pt(1000000, 2)),
        Some(pt(2000000, 2))
    );
}

#[test]
fn timing_scan_counts_black_after_white() {
    let q = labelled(&[
        "#..#..#.#...#",
        ".............",
        "#............",
        ".............",
        ".............",
        "#............",
    ]);
    // From (0, 0) to (12, 0): three black pixels come after two or more white ones.
    assert_eq!(q.timing_scan(&pt(0, 0), &pt(12, 0)), Some(3));
    assert_eq!(q.timing_scan(&pt(12, 0), &pt(0, 0)), Some(3));
    assert_eq!(q.timing_scan(&pt(0, 0), &pt(0, 5)), Some(1));
    assert_eq!(q.timing_scan(&pt(1, 1), &pt(1, 1)), Some(0));
    assert_eq!(q.timing_scan(&pt(-1, 0), &pt(5, 0)), None);
    assert_eq!(q.timing_scan(&pt(0, 0), &pt(13, 0)), None);
    assert_eq!(q.timing_scan(&pt(0, 0), &pt(0, 6)), None);
}

#[test]
fn read_point_tells_colours() {
    let q = labelled(&["#.", ".#"]);
    assert_eq!(q.read_point(&pt(0, 0)), 1);
    assert_eq!(q.read_point(&pt(1, 0)), -1);
    assert_eq!(q.read_point(&pt(1, 1)), 1);
    assert_eq!(q.read_point(&pt(2, 0)), 0);
    assert_eq!(q.read_point(&pt(0, -1)), 0);
    assert_eq!(q.read_point(&pt(isize::MAX, isize::MIN)), 0);
}

/// The rows of a finder pattern at `scale` pixels to the module, with a
/// margin of `margin` white pixels.
fn finder_image(scale: usize, margin: usize) -> (usize, Vec<u8>) {
    let side = 7 * scale + 2 * margin;
    let mut image = vec![255u8; side * side];
    for my in 0..7 {
        for mx in 0..7 {
            let ring = mx == 0 || mx == 6 || my == 0 || my == 6;
            let stone = (2..5).contains(&mx) && (2..5).contains(&my);
            if ring || stone {
                for dy in 0..scale {
                    for dx in 0..scale {
                        image[(margin + my * scale + dy) * side + margin + mx * scale + dx] = 0;
                    }
                }
            }
        }
    }
    (side, image)
}

#[test]
fn a_finder_pattern_is_found_once() {
    for scale in [2usize, 3, 5] {
        let margin = 4 * scale;
        let (side, image) = finder_image(scale, margin);
        let mut q = Quirc::new();
        q.resize(side, side);
        q.begin().copy_from_slice(&image);
        q.find_capstones();
        assert_eq!(q.num_capstones, 1, "scale {}", scale);
        assert_eq!(q.count(), 0);
        let cap = q.capstones[0];
        assert_eq!(cap.qr_grid, -1);
        let ring = q.regions[cap.ring as usize];
        let stone = q.regions[cap.stone as usize];
        assert_eq!(ring.count as usize, 24 * scale * scale);
        assert_eq!(stone.count as usize, 9 * scale * scale);
        assert_eq!(ring.capstone, 0);
        assert_eq!(stone.capstone, 0);
        let lo = margin as isize;
        let hi = (margin + 7 * scale - 1) as isize;
        for corner in [pt(lo, lo), pt(hi, lo), pt(hi, hi), pt(lo, hi)] {
            assert!(cap.corners.contains(&corner), "corner {:?} of {:?}", corner, cap.corners);
        }
    }
}

#[test]
fn plain_images_hold_no_finder_pattern() {
    for value in [0u8, 128, 255] {
        let mut q = Quirc::new();
        q.resize(30, 20);
        for v in q.begin().iter_mut() {
            *v = value;
        }
        q.find_capstones();
        assert_eq!(q.num_capstones, 0);
        assert_eq!(q.count(), 0);
    }
}

#[test]
fn fitness_cells_of_version_one() {
    let cells = fitness_cells(21);
    // Seven cells of each timing pattern and 49 of each finder pattern.
    assert_eq!(cells.len(), 14 + 3 * 49);
    assert_eq!(cells[0], FitnessCell { x: 7, y: 6, weight: -1 });
    assert_eq!(cells[1], FitnessCell { x: 6, y: 7, weight: -1 });
    assert_eq!(cells[2], FitnessCell { x: 8, y: 6, weight: 1 });
    assert_eq!(cells[14], FitnessCell { x: 3, y: 3, weight: 1 });
    // The finder pattern at the top left: every cell once, white in the
    // second ring only.
    let mut seen = [[0i64; 7]; 7];
    for cell in &cells[14..14 + 49] {
        assert_eq!(seen[cell.y as usize][cell.x as usize], 0);
        seen[cell.y as usize][cell.x as usize] = cell.weight;
    }
    for y in 0..7i64 {
        for x in 0..7i64 {
            let ring = std::cmp::max((x - 3).abs(), (y - 3).abs());
            assert_eq!(seen[y as usize][x as usize], if ring == 2 { -1 } else { 1 });
        }
    }
    assert!(cells[14 + 49..14 + 98].iter().all(|c| (14..21).contains(&c.x) && (0..7).contains(&c.y)));
    assert!(cells[14 + 98..].iter().all(|c| (0..7).contains(&c.x) && (14..21).contains(&c.y)));
}

#[test]
fn fitness_cells_weigh_one_or_minus_one() {
    for size in [0u32, 13, 14, 17, 21, 25, 45, 177, 181] {
        assert!(fitness_cells(size).iter().all(|c| c.weight == 1 || c.weight == -1), "size {}", size);
    }
}

#[test]
fn fitness_adds_up_the_sampled_colours() {
    assert_eq!(FITNESS_SAMPLES, 9);
    let q = labelled(&["#.", ".#"]);
    // Six black points, two white ones and one outside the image.
    let first = [pt(0, 0), pt(0, 0), pt(1, 1), pt(1, 1), pt(0, 0), pt(1, 1), pt(1, 0), pt(0, 1), pt(2, 2)];
    // Nine white points.
    let second = [pt(1, 0); 9];
    // Nine points outside the image.
    let third = [pt(-1, 0); 9];
    let mut points = Vec::new();
    points.extend_from_slice(&first);
    points.extend_from_slice(&second);
    points.extend_from_slice(&third);
    assert_eq!(q.fitness_cell(&points, 0), 4);
    assert_eq!(q.fitness_cell(&points, 9), -9);
    assert_eq!(q.fitness_cell(&points, 18), 0);
    assert_eq!(q.fitness_cell(&points, 5), -6);

    let cell = |weight: i64| FitnessCell { x: 0, y: 0, weight };
    assert_eq!(q.fitness_all(&[], &[]), 0);
    assert_eq!(q.fitness_all(&[cell(1), cell(1), cell(1)], &points), 4 - 9);
    assert_eq!(q.fitness_all(&[cell(1), cell(-1), cell(-1)], &points), 4 + 9);
    assert_eq!(q.fitness_all(&[cell(-1), cell(0), cell(1)], &points), -4);
}

#[test]
fn fitness_cells_hold_the_alignment_patterns() {
    // Version 2 has one alignment pattern, of 25 cells, around (18, 18).
    let cells = fitness_cells(25);
    assert_eq!(cells.len(), 2 * 11 + 3 * 49 + 25);
    let apat = &cells[cells.len() - 25..];
    assert_eq!((apat[0].x, apat[0].y, apat[0].weight), (18, 18, 1));
    assert_eq!(apat.iter().map(|c| c.weight).sum::<i64>(), 1 - 8 + 16);
    assert!(apat.iter().all(|c| (16..=20).contains(&c.x) && (16..=20).contains(&c.y)));
    // Version 7 has three coordinates: two patterns on the timing patterns
    // and four away from them.
    let cells = fitness_cells(45);
    assert_eq!(cells.len(), 2 * 31 + 3 * 49 + 6 * 25);
    // A size that belongs to no version has the fixed patterns only.
    assert_eq!(fitness_cells(181).len(), 2 * 167 + 3 * 49);
    assert_eq!(fitness_cells(0).len(), 3 * 49);
    assert_eq!(fitness_cells(15).len(), 2 + 3 * 49);
}

#[test]
fn capstone_turns_its_corners_to_the_line() {
    let mut cap = QuircCapstone {
        ring: 2,
        stone: 3,
        corners: [pt(10, 10), pt(16, 10), pt(16, 16), pt(10, 16)],
        center: pt(13, 13),
        qr_grid: -1,
    };
    // A line along the top edge, going right: the points below it lie to
    // its right, so the corners on it come first, and of them the first.
    cap.rotate_capstone(&pt(0, 10), &pt(1, 0));
    assert_eq!(cap.corners, [pt(10, 10), pt(16, 10), pt(16, 16), pt(10, 16)]);
    // A line going down on the right of the pattern: the pattern lies to
    // its right, and the corner (16, 10) among those nearest to it.
    cap.rotate_capstone(&pt(20, 0), &pt(0, 1));
    assert_eq!(cap.corners, [pt(16, 10), pt(16, 16), pt(10, 16), pt(10, 10)]);
    assert_eq!(cap.center, pt(13, 13));
    assert_eq!(cap.qr_grid, -1);
}

#[test]
fn centres_far_away_cannot_be_grouped() {
    let mut q = Quirc::new();
    q.resize(10, 10);
    q.begin();
    q.num_capstones = 3;
    q.capstones[0].center = pt(1, 1);
    q.capstones[1].center = pt(5, 5);
    q.capstones[2].center = pt(9, 1);
    assert!(q.can_group(0, 1, 2));
    assert!(!q.can_group(0, 1, 3));
    q.capstones[2].center = pt(isize::MAX, 1);
    assert!(!q.can_group(0, 1, 2));
    assert!(!q.can_group(2, 1, 0));
    // The way from the first to the last may be as long as a coordinate.
    q.capstones[2].center = pt(9, -0x7fff_fffe);
    assert!(q.can_group(0, 1, 2));
    q.capstones[2].center = pt(9, -0x7fff_ffff);
    assert!(!q.can_group(0, 1, 2));
    q.capstones[0].center = pt(9, 0x7fff_ffff);
    assert!(!q.can_group(0, 1, 2));
}
