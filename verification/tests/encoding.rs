use heightmap::brick::Brick;
use heightmap::color::Color;
use heightmap::encode::{asset_name, build_world, layout_brick, to_compressed_bytes};
use heightmap::error::ConvertError;
use heightmap::options::{Asset, GenOptions};

fn options(size_studs: u16, micro: bool) -> GenOptions {
    GenOptions {
        size: GenOptions::effective_size(size_studs, micro),
        scale: 1,
        cull: false,
        asset: if micro { Asset::Micro } else { Asset::Default },
        micro,
        stud: false,
        snap: false,
        img: false,
        glow: false,
        hdmap: false,
        lrgb: false,
        nocollide: false,
        quadtree: false,
        greedy: false,
    }
}

fn brick(x: u32, y: u32, dx: u32, dy: u32, z: u32, dz: u32) -> Brick {
    Brick {
        x,
        y,
        dx,
        dy,
        z,
        dz,
        color: Color { r: 10, g: 20, b: 30, a: 255 },
        collision: true,
        emission: 0,
        asset: Asset::Micro,
    }
}

#[test]
fn asset_table_is_exhaustive() {
    assert_eq!(asset_name(Asset::Default), "PB_DefaultBrick");
    assert_eq!(asset_name(Asset::Tile), "PB_DefaultTile");
    assert_eq!(asset_name(Asset::SmoothTile), "PB_DefaultSmoothTile");
    assert_eq!(asset_name(Asset::Stud), "PB_DefaultStudded");
    assert_eq!(asset_name(Asset::Micro), "PB_DefaultMicroBrick");
}

#[test]
fn layout_maps_cells_to_game_units() {
    let o = options(1, true);
    // a micro brick: one cell is 2x2 units, one vertical unit is 2 tall
    let e = layout_brick(&brick(3, 4, 2, 1, 5, 2), &o).unwrap();
    assert_eq!((e.hx, e.hy, e.hz), (2, 1, 2));
    assert_eq!((e.cx, e.cy, e.cz), (8, 9, 12));
    assert_eq!(e.asset, "PB_DefaultMicroBrick");
    assert_eq!(e.material, "BMC_Plastic");
    assert_eq!(e.intensity, 5);
    assert!(e.collision);
    assert_eq!((e.red, e.green, e.blue), (10, 20, 30));
}

#[test]
fn layout_scales_stud_families_by_five() {
    let o = options(2, false);
    // 2 studs: size 10 half-extent units per cell
    let e = layout_brick(&brick(1, 0, 1, 1, 0, 3), &o).unwrap();
    assert_eq!((e.hx, e.hy), (10, 10));
    assert_eq!(e.cx, 30);
    // vertical plate unit is 2 half-extent units
    assert_eq!(e.hz, 6);
    assert_eq!(e.cz, 6);
}

#[test]
fn glow_emission_selects_the_glow_material() {
    let o = options(1, true);
    let mut b = brick(0, 0, 1, 1, 0, 1);
    b.emission = 1;
    let e = layout_brick(&b, &o).unwrap();
    assert_eq!(e.material, "BMC_Glow");
    assert_eq!(e.intensity, 1);
}

#[test]
fn oversized_footprint_is_an_encode_error() {
    let o = options(100, false);
    // 200 cells x 500 units = 100000 half-extent units: over the 16-bit cap
    let r = layout_brick(&brick(0, 0, 200, 1, 0, 1), &o);
    assert!(matches!(r, Err(ConvertError::Encode(_))));
    let r2 = to_compressed_bytes(&vec![brick(0, 0, 200, 1, 0, 1)], &o);
    assert!(matches!(r2, Err(ConvertError::Encode(_))));
}

#[test]
fn compressed_bytes_form_a_readable_container() {
    let o = options(1, true);
    let bricks = vec![brick(0, 0, 1, 1, 0, 1), brick(1, 0, 2, 2, 0, 3)];
    let bytes = to_compressed_bytes(&bricks, &o).unwrap();
    // the compact container opens with its magic and parses back
    assert_eq!(&bytes[0..3], b"BRZ");
    assert!(brdb::Brz::read_slice(&bytes).is_ok());
}

#[test]
fn built_world_holds_every_brick() {
    let o = options(1, true);
    let bricks = vec![brick(0, 0, 1, 1, 0, 1), brick(5, 6, 2, 3, 1, 2)];
    let w = build_world(&bricks, &o).unwrap();
    assert_eq!(w.bricks.len(), 2);
    let p = &w.bricks[1];
    // cell (5,6) spanning 2x3 cells: center (12, 15), half extents (2, 3)
    assert_eq!((p.position.x, p.position.y), (12, 15));
}

#[test]
fn compressed_bytes_are_content_determined() {
    // serializing the same placements twice yields identical bytes
    let o = options(2, false);
    let bricks = vec![brick(0, 0, 1, 1, 0, 2), brick(3, 1, 2, 1, 1, 1)];
    let a = to_compressed_bytes(&bricks, &o).unwrap();
    let b = to_compressed_bytes(&bricks, &o).unwrap();
    assert_eq!(a, b);
}
