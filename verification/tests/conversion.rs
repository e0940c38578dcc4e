use heightmap::brick::Brick;
use heightmap::color::Color;
use heightmap::error::ConvertError;
use heightmap::options::{Asset, GenOptions};
use heightmap::pipeline::convert;
use heightmap::reporter::{CancelAfter, SilentReporter};
use heightmap::sample::{load_colormap, load_heightmap};
use std::io::Cursor;

fn png_bytes(w: u32, h: u32, pixel: impl Fn(u32, u32) -> [u8; 4]) -> Vec<u8> {
    let img = image::ImageBuffer::from_fn(w, h, |x, y| image::Rgba(pixel(x, y)));
    let mut out = Cursor::new(Vec::new());
    image::DynamicImage::ImageRgba8(img)
        .write_to(&mut out, image::ImageFormat::Png)
        .unwrap();
    out.into_inner()
}

fn gray_png(w: u32, h: u32, v: impl Fn(u32, u32) -> u8) -> Vec<u8> {
    png_bytes(w, h, |x, y| {
        let g = v(x, y);
        [g, g, g, 255]
    })
}

fn base_options() -> GenOptions {
    GenOptions {
        size: GenOptions::effective_size(1, true),
        scale: 1,
        cull: false,
        asset: Asset::Micro,
        micro: true,
        stud: false,
        snap: false,
        img: false,
        glow: false,
        hdmap: false,
        lrgb: false,
        nocollide: false,
        quadtree: false,
        greedy: false,
    }
}

fn run(hm: Vec<Vec<u8>>, cm: Option<Vec<u8>>, o: &GenOptions) -> Vec<Brick> {
    let mut rep = SilentReporter {};
    convert(&hm, &cm, o, &mut rep).expect("conversion should succeed")
}

/// Rasterizes footprints back onto a grid, counting how many bricks cover
/// each cell.
fn coverage(bricks: &[Brick], w: u32, h: u32) -> Vec<u32> {
    let mut counts = vec![0u32; (w * h) as usize];
    for b in bricks {
        for dy in 0..b.dy {
            for dx in 0..b.dx {
                let cx = b.x + dx;
                let cy = b.y + dy;
                assert!(cx < w && cy < h, "brick outside the grid");
                counts[(cy * w + cx) as usize] += 1;
            }
        }
    }
    counts
}

#[test]
fn uniform_grid_percell_emits_one_brick_per_cell() {
    // a 4x4 uniform grayscale heightmap, scale 1, no colormap, no merging
    let hm = gray_png(4, 4, |_, _| 128);
    let bricks = run(vec![hm], None, &base_options());
    assert_eq!(bricks.len(), 16);
    // quantized value: round(128 / 255 * 1) = 1
    for b in &bricks {
        assert_eq!((b.dx, b.dy), (1, 1));
        assert_eq!(b.z, 0);
        assert_eq!(b.dz, 1);
        // with no colormap every brick takes the uniform default color
        assert_eq!(b.color, Color { r: 255, g: 255, b: 255, a: 255 });
    }
}

#[test]
fn percell_covers_every_cell_exactly_once() {
    let hm = gray_png(5, 3, |x, y| (x * 40 + y * 10) as u8);
    let bricks = run(vec![hm], None, &base_options());
    assert_eq!(bricks.len(), 15);
    assert!(coverage(&bricks, 5, 3).iter().all(|&c| c == 1));
}

#[test]
fn uniform_grid_quadtree_merges_to_one_brick() {
    let hm = gray_png(4, 4, |_, _| 128);
    let mut o = base_options();
    o.quadtree = true;
    let bricks = run(vec![hm], None, &o);
    assert_eq!(bricks.len(), 1);
    let b = &bricks[0];
    assert_eq!((b.x, b.y, b.dx, b.dy), (0, 0, 4, 4));
    assert_eq!(b.dz, 1);
}

#[test]
fn quadtree_partitions_nonuniform_grid_exactly() {
    // a non-square, non-power-of-two grid with several plateaus
    let hm = gray_png(6, 5, |x, y| if x < 3 { 10 } else { 200 - (y as u8) });
    let mut o = base_options();
    o.quadtree = true;
    o.scale = 100;
    let bricks = run(vec![hm], None, &o);
    assert!(coverage(&bricks, 6, 5).iter().all(|&c| c == 1));
}

#[test]
fn two_halves_greedy_merges_to_two_bricks() {
    // an 8x4 grid split into two uniform 4x4 halves of differing elevation
    let hm = gray_png(8, 4, |x, _| if x < 4 { 50 } else { 200 });
    let mut o = base_options();
    o.greedy = true;
    o.scale = 100;
    let bricks = run(vec![hm], None, &o);
    assert_eq!(bricks.len(), 2);
    for b in &bricks {
        assert_eq!((b.dx, b.dy), (4, 4));
        assert_eq!(b.dz, 1);
    }
    assert!(coverage(&bricks, 8, 4).iter().all(|&c| c == 1));
    // round(50/255*100) = 20 and round(200/255*100) = 78; slabs sit under
    // their top surfaces
    let mut tops: Vec<u32> = bricks.iter().map(|b| b.z + b.dz).collect();
    tops.sort();
    assert_eq!(tops, vec![20, 78]);
}

#[test]
fn greedy_level_slabs_cover_level_cells_exactly() {
    let hm = gray_png(7, 6, |x, y| ((x + y) % 3 * 60) as u8);
    let mut o = base_options();
    o.greedy = true;
    o.scale = 30;
    let bricks = run(vec![hm.clone()], None, &o);
    assert!(coverage(&bricks, 7, 6).iter().all(|&c| c == 1));
    // every brick's top matches its seed cell's quantized level
    for b in &bricks {
        let v = ((b.x + b.y) % 3 * 60) as u64;
        let q = (2 * v * 30 + 255) / 510;
        let top = if q == 0 { 1 } else { q };
        assert_eq!((b.z + b.dz) as u64, top);
    }
}

#[test]
fn image_mode_uses_colormap_dimensions_and_flat_heights() {
    // only a colormap: the height grid is flat and the footprint matches
    // the colormap
    let cm = png_bytes(4, 4, |x, y| [x as u8 * 60, y as u8 * 60, 9, 255]);
    let mut o = base_options();
    o.img = true;
    let bricks = run(vec![], Some(cm), &o);
    assert_eq!(bricks.len(), 16);
    for b in &bricks {
        assert_eq!((b.dx, b.dy), (1, 1));
        assert_eq!(b.z, 0);
        assert_eq!(b.dz, 1);
    }
    assert!(coverage(&bricks, 4, 4).iter().all(|&c| c == 1));
}

#[test]
fn image_mode_without_colormap_is_rejected() {
    let mut o = base_options();
    o.img = true;
    let mut rep = SilentReporter {};
    let r = convert(&vec![], &None, &o, &mut rep);
    assert!(matches!(r, Err(ConvertError::Decode(_))));
}

#[test]
fn cancellation_yields_cancelled_and_no_bricks() {
    let hm = gray_png(16, 16, |x, y| (x * 16 + y) as u8);
    let mut o = base_options();
    o.greedy = true;
    // allow the reading poll, then stop at the first generation poll
    let mut rep = CancelAfter { polls_left: 1 };
    let r = convert(&vec![hm], &None, &o, &mut rep);
    assert!(matches!(r, Err(ConvertError::Cancelled)));
    assert!(ConvertError::Cancelled.is_cancelled());
}

#[test]
fn snap_aligns_vertical_geometry_to_the_scale_unit() {
    let hm = gray_png(4, 4, |x, y| (x * 50 + y * 13) as u8);
    let mut o = base_options();
    o.scale = 7;
    o.snap = true;
    let bricks = run(vec![hm], None, &o);
    for b in &bricks {
        assert_eq!(b.z % 7, 0);
        assert_eq!(b.dz % 7, 0);
        assert!(b.dz >= 7);
    }
}

#[test]
fn nocollide_glow_and_asset_apply_to_every_brick() {
    let hm = gray_png(3, 3, |x, _| x as u8 * 90);
    let mut o = base_options();
    o.nocollide = true;
    o.glow = true;
    o.asset = Asset::Tile;
    o.micro = false;
    o.size = GenOptions::effective_size(1, false);
    let bricks = run(vec![hm], None, &o);
    assert!(!bricks.is_empty());
    for b in &bricks {
        assert!(!b.collision);
        assert_eq!(b.emission, 1);
        assert_eq!(b.asset, Asset::Tile);
    }
}

#[test]
fn cull_drops_transparent_cells() {
    let cm = png_bytes(4, 1, |x, _| [10, 20, 30, if x == 2 { 0 } else { 255 }]);
    let hm = gray_png(4, 1, |_, _| 100);
    let mut o = base_options();
    o.cull = true;
    let bricks = run(vec![hm], Some(cm), &o);
    assert_eq!(bricks.len(), 3);
    assert!(bricks.iter().all(|b| b.x != 2));
}

#[test]
fn cull_drops_interior_bottom_layer_cells() {
    // all-zero elevations: interior cells show no visible neighbor
    // difference and are culled; border cells stay
    let hm = gray_png(4, 4, |_, _| 0);
    let mut o = base_options();
    o.cull = true;
    let bricks = run(vec![hm], None, &o);
    assert_eq!(bricks.len(), 12);
    assert!(bricks.iter().all(|b| b.x == 0 || b.x == 3 || b.y == 0 || b.y == 3));
}

#[test]
fn tiles_concatenate_horizontally() {
    let left = gray_png(2, 3, |_, _| 10);
    let right = gray_png(3, 3, |_, _| 250);
    let g = load_heightmap(&vec![left, right], false).unwrap();
    assert_eq!(g.get_width(), 5);
    assert_eq!(g.get_height(), 3);
    assert_eq!(g.at(0, 0), 10);
    assert_eq!(g.at(1, 2), 10);
    assert_eq!(g.at(2, 0), 250);
    assert_eq!(g.at(4, 2), 250);
}

#[test]
fn mismatched_tile_heights_are_rejected() {
    let a = gray_png(2, 3, |_, _| 1);
    let b = gray_png(2, 4, |_, _| 1);
    let r = load_heightmap(&vec![a, b], false);
    assert!(matches!(r, Err(ConvertError::DimensionMismatch)));
}

#[test]
fn colormap_of_other_dimensions_is_rejected() {
    let hm = gray_png(4, 4, |_, _| 9);
    let cm = png_bytes(3, 4, |_, _| [1, 2, 3, 255]);
    let mut rep = SilentReporter {};
    let r = convert(&vec![hm], &Some(cm), &base_options(), &mut rep);
    assert!(matches!(r, Err(ConvertError::DimensionMismatch)));
}

#[test]
fn malformed_image_bytes_are_rejected() {
    let junk = vec![1u8, 2, 3, 4, 5, 6, 7, 8];
    let r = load_heightmap(&vec![junk.clone()], false);
    assert!(matches!(r, Err(ConvertError::Decode(_))));
    let r2 = load_colormap(&junk, false);
    assert!(matches!(r2, Err(ConvertError::Decode(_))));
}

#[test]
fn hdmap_combines_color_channels() {
    let hm = png_bytes(2, 1, |x, _| if x == 0 { [1, 2, 3, 255] } else { [0, 0, 7, 255] });
    let g = load_heightmap(&vec![hm], true).unwrap();
    assert_eq!(g.at(0, 0), 1 * 65536 + 2 * 256 + 3);
    assert_eq!(g.at(1, 0), 7);
}

#[test]
fn decoded_pixels_flow_through_to_grid_values() {
    // a decoder handing its input back unchanged could not produce these
    // per-pixel values
    let hm = gray_png(3, 2, |x, y| (x * 10 + y * 100) as u8);
    let g = load_heightmap(&vec![hm], false).unwrap();
    for y in 0..2usize {
        for x in 0..3usize {
            assert_eq!(g.at(x, y), (x * 10 + y * 100) as u32);
        }
    }
}

#[test]
fn lrgb_linearizes_colormap_samples() {
    let cm = png_bytes(1, 1, |_, _| [128, 255, 0, 200]);
    let cg = load_colormap(&cm, true).unwrap();
    // round(c^2 / 255): 128 -> 64, 255 -> 255, 0 -> 0; alpha untouched
    assert_eq!(cg.at(0, 0), Color { r: 64, g: 255, b: 0, a: 200 });
    let plain = load_colormap(&cm, false).unwrap();
    assert_eq!(plain.at(0, 0), Color { r: 128, g: 255, b: 0, a: 200 });
}

#[test]
fn progress_fractions_never_decrease() {
    struct Monotone {
        last_num: usize,
        last_den: usize,
        ok: bool,
    }
    impl heightmap::reporter::ProgressReporter for Monotone {
        fn report(&mut self, _stage: heightmap::reporter::Stage, done: usize, total: usize) -> bool {
            if total > 0 && self.last_den > 0 {
                // compare done/total against the last fraction
                self.ok = self.ok && done * self.last_den >= self.last_num * total;
            }
            self.last_num = done;
            self.last_den = total;
            true
        }
    }
    let hm = gray_png(8, 8, |x, y| (x ^ y) as u8);
    let mut o = base_options();
    o.greedy = true;
    let mut rep = Monotone { last_num: 0, last_den: 0, ok: true };
    convert(&vec![hm], &None, &o, &mut rep).unwrap();
    assert!(rep.ok);
}

#[test]
fn full_intensity_quantizes_to_the_scale() {
    // intensity 255 normalizes to the full vertical multiplier
    let hm = gray_png(2, 2, |_, _| 255);
    let mut o = base_options();
    o.scale = 100;
    let bricks = run(vec![hm], None, &o);
    assert_eq!(bricks.len(), 4);
    assert!(bricks.iter().all(|b| b.dz == 100));
}

#[test]
fn zero_intensity_still_yields_a_unit_layer() {
    // a zero elevation still emits a one-unit column
    let hm = gray_png(2, 2, |_, _| 0);
    let mut o = base_options();
    o.scale = 100;
    let bricks = run(vec![hm], None, &o);
    assert_eq!(bricks.len(), 4);
    assert!(bricks.iter().all(|b| b.z == 0 && b.dz == 1));
}
