use vstd::prelude::*;
use crate::color::{Color, spec_linearize};
use crate::error::ConvertError;
use crate::grid::{ColorGrid, HeightGrid};

verus! {

/// What decoding an image byte stream yields: `None` for unsupported or
/// malformed data, otherwise the width, height and row-major RGBA samples.
/// Decoding depends on the bytes alone, so its result is named rather
/// than spelled out.
pub uninterp spec fn rgba_of(bytes: Seq<u8>) -> Option<(int, int, Seq<u8>)>;

/// Relies on image::load_from_memory and ImageBuffer::into_raw: the guessed
/// format is decoded into an RGBA8 buffer of exactly `4 * width * height`
/// bytes, row-major; the result depends on the input bytes alone.
#[verifier::external_body]
fn decode_rgba(bytes: &Vec<u8>) -> (r: Result<(u32, u32, Vec<u8>), String>)
    ensures
        (r is Ok) == (rgba_of(bytes@) is Some),
        r is Ok ==> rgba_of(bytes@) == Some(
            ((r->Ok_0.0 as int), (r->Ok_0.1 as int), r->Ok_0.2@),
        ),
        r is Ok ==> r->Ok_0.2@.len() == 4 * (r->Ok_0.0 as int) * (r->Ok_0.1 as int),
{
    match image::load_from_memory(bytes.as_slice()) {
        Ok(img) => {
            let rgba = img.to_rgba8();
            let (w, h) = rgba.dimensions();
            Ok((w, h, rgba.into_raw()))
        }
        Err(e) => Err(format!("{e}")),
    }
}

/// The elevation sampled for the cell of linear index `i`: standard mode
/// reads the 8-bit red channel of the grayscale pixel directly; high
/// detail mode combines the red, green and blue channels into a 24-bit
/// value, `r*65536 + g*256 + b`.
pub open spec fn spec_intensity_at(px: Seq<u8>, hdmap: bool, i: int) -> int {
    if hdmap {
        (px[4 * i] as int) * 65536 + (px[4 * i + 1] as int) * 256 + (px[4 * i + 2] as int)
    } else {
        px[4 * i] as int
    }
}

/// The sampling ceiling intensities are normalized against.
pub open spec fn spec_max_intensity(hdmap: bool) -> int {
    if hdmap {
        0xFFFFFF
    } else {
        255
    }
}

/// The color sampled for the cell of linear index `i`, gamma-decoded when
/// the linear-color option is set, so merge comparisons always see the
/// post-linearization representation.
pub open spec fn spec_color_at(px: Seq<u8>, lrgb: bool, i: int) -> Color {
    let c = Color { r: px[4 * i], g: px[4 * i + 1], b: px[4 * i + 2], a: px[4 * i + 3] };
    if lrgb {
        spec_linearize(c)
    } else {
        c
    }
}

/// Samples the elevations of one decoded tile, cell by cell; see
/// [`spec_intensity_at`].
fn sample_tile(n: usize, px: &Vec<u8>, hdmap: bool) -> (r: Vec<u32>)
    requires
        px@.len() == 4 * n,
    ensures
        r@.len() == n,
        forall|i: int| 0 <= i < n ==> #[trigger] r@[i] == spec_intensity_at(px@, hdmap, i),
        forall|i: int| 0 <= i < n ==> #[trigger] r@[i] <= spec_max_intensity(hdmap),
{
    // binding the length keeps the channel indices in machine range
    let _len: usize = px.len();
    let mut out: Vec<u32> = Vec::new();
    let mut i: usize = 0;
    while i < n
        invariant
            i <= n,
            px@.len() == 4 * n,
            px@.len() <= usize::MAX,
            out@.len() == i,
            forall|j: int| 0 <= j < i ==> #[trigger] out@[j] == spec_intensity_at(px@, hdmap, j),
            forall|j: int| 0 <= j < i ==> #[trigger] out@[j] <= spec_max_intensity(hdmap),
        decreases n - i,
    {
        let v: u32 = if hdmap {
            (px[4 * i] as u32) * 65536 + (px[4 * i + 1] as u32) * 256 + (px[4 * i + 2] as u32)
        } else {
            px[4 * i] as u32
        };
        out.push(v);
        i = i + 1;
    }
    out
}

/// The row `y` of decoded tile `t` and all tiles right of it, sampled and
/// laid end to end: multiple heightmap inputs are treated as horizontally
/// concatenated tiles.
pub open spec fn spec_hrow(tiles: Seq<Seq<u8>>, hdmap: bool, y: int, t: int) -> Seq<u32>
    decreases tiles.len() - t,
{
    if t < 0 || t >= tiles.len() {
        Seq::empty()
    } else {
        let d = rgba_of(tiles[t])->Some_0;
        Seq::new(d.0 as nat, |x: int| (spec_intensity_at(d.2, hdmap, y * d.0 + x) as u32))
            + spec_hrow(tiles, hdmap, y, t + 1)
    }
}

/// The first `y` concatenated rows of the combined heightmap, row-major.
pub open spec fn spec_hrows(tiles: Seq<Seq<u8>>, hdmap: bool, y: int) -> Seq<u32>
    decreases y,
{
    if y <= 0 {
        Seq::empty()
    } else {
        spec_hrows(tiles, hdmap, y - 1) + spec_hrow(tiles, hdmap, y - 1, 0)
    }
}

/// The summed width of the first `t` decoded tiles.
pub open spec fn spec_wsum(tiles: Seq<Seq<u8>>, t: int) -> int
    decreases t,
{
    if t <= 0 {
        0
    } else {
        spec_wsum(tiles, t - 1) + rgba_of(tiles[t - 1])->Some_0.0
    }
}

/// Every tile decodes successfully.
pub open spec fn spec_tiles_decode(tiles: Seq<Seq<u8>>) -> bool {
    forall|t: int| 0 <= t < tiles.len() ==> (#[trigger] rgba_of(tiles[t])) is Some
}

/// Every decoded tile has positive dimensions small enough for the cell
/// coordinate space.
pub open spec fn spec_tiles_dims_ok(tiles: Seq<Seq<u8>>) -> bool {
    forall|t: int|
        0 <= t < tiles.len() ==> {
            let d = (#[trigger] rgba_of(tiles[t]))->Some_0;
            1 <= d.0 <= 0x4000_0000 && 1 <= d.1 <= 0x4000_0000
        }
}

/// Every decoded tile has the height of the first one.
pub open spec fn spec_tiles_heights_eq(tiles: Seq<Seq<u8>>) -> bool {
    forall|t: int|
        0 <= t < tiles.len() ==> (#[trigger] rgba_of(tiles[t]))->Some_0.1 == rgba_of(
            tiles[0],
        )->Some_0.1
}

/// The inputs on which heightmap loading succeeds: at least one tile,
/// every tile decodes with positive bounded dimensions, all tile heights
/// agree, and the combined width stays in the coordinate space.
pub open spec fn spec_heightmap_ok(tiles: Seq<Seq<u8>>) -> bool {
    &&& tiles.len() >= 1
    &&& spec_tiles_decode(tiles)
    &&& spec_tiles_dims_ok(tiles)
    &&& spec_tiles_heights_eq(tiles)
    &&& spec_wsum(tiles, tiles.len() as int) <= 0x4000_0000
}

/// The one input shape the loader reports as a dimension mismatch: the
/// tiles decode with sound dimensions, but their heights disagree.
pub open spec fn spec_heightmap_mismatch(tiles: Seq<Seq<u8>>) -> bool {
    &&& tiles.len() >= 1
    &&& spec_tiles_decode(tiles)
    &&& spec_tiles_dims_ok(tiles)
    &&& !spec_tiles_heights_eq(tiles)
}

/// Decodes the heightmap image tiles and samples them into the combined
/// elevation grid; see [`spec_hrows`] for the exact cell layout. Returns
/// the dimension-mismatch error exactly when the tiles decode with sound
/// dimensions but unequal heights, and a decode error for every other
/// rejected input. Never performs I/O and never panics.
pub fn load_heightmap(tiles: &Vec<Vec<u8>>, hdmap: bool) -> (r: Result<HeightGrid, ConvertError>)
    ensures
        (r is Ok) == spec_heightmap_ok(tiles@.map_values(|v: Vec<u8>| v@)),
        r is Ok ==> {
            let ts = tiles@.map_values(|v: Vec<u8>| v@);
            let gr = r->Ok_0;
            &&& gr.wf()
            &&& gr.max_intensity == spec_max_intensity(hdmap)
            &&& gr.width == spec_wsum(ts, ts.len() as int)
            &&& gr.height == rgba_of(ts[0])->Some_0.1
            &&& gr.data@ == spec_hrows(ts, hdmap, gr.height as int)
        },
        r is Err ==> (r->Err_0 is Decode || r->Err_0 is DimensionMismatch),
        r matches Err(ConvertError::DimensionMismatch) <==> spec_heightmap_mismatch(
            tiles@.map_values(|v: Vec<u8>| v@),
        ),
{
    let ghost ts = tiles@.map_values(|v: Vec<u8>| v@);
    let ntiles: usize = tiles.len();
    if ntiles == 0 {
        return Err(ConvertError::Decode("no heightmap image supplied".to_owned()));
    }
    // decode every tile
    let mut decoded: Vec<(u32, u32, Vec<u8>)> = Vec::new();
    let mut t: usize = 0;
    while t < ntiles
        invariant
            t <= ntiles,
            ntiles == tiles@.len(),
            ts == tiles@.map_values(|v: Vec<u8>| v@),
            decoded@.len() == t,
            forall|j: int|
                0 <= j < t ==> rgba_of(ts[j]) == Some(
                    (
                        ((#[trigger] decoded@[j]).0 as int),
                        (decoded@[j].1 as int),
                        decoded@[j].2@,
                    ),
                ),
            forall|j: int|
                0 <= j < t ==> (#[trigger] decoded@[j]).2@.len() == 4 * (decoded@[j].0 as int) * (
                decoded@[j].1 as int),
        decreases ntiles - t,
    {
        proof {
            assert(ts[t as int] == tiles@[t as int]@);
        }
        match decode_rgba(&tiles[t]) {
            Ok(d) => {
                decoded.push(d);
            }
            Err(_) => {
                proof {
                    assert(rgba_of(ts[t as int]) is None);
                }
                return Err(ConvertError::Decode("unsupported or malformed image".to_owned()));
            }
        }
        t = t + 1;
    }
    // validate dimensions
    let mut t2: usize = 0;
    while t2 < ntiles
        invariant
            t2 <= ntiles,
            ntiles == tiles@.len(),
            ts == tiles@.map_values(|v: Vec<u8>| v@),
            decoded@.len() == ntiles,
            forall|j: int|
                0 <= j < ntiles ==> rgba_of(ts[j]) == Some(
                    (
                        ((#[trigger] decoded@[j]).0 as int),
                        (decoded@[j].1 as int),
                        decoded@[j].2@,
                    ),
                ),
            forall|j: int|
                0 <= j < ntiles ==> (#[trigger] decoded@[j]).2@.len() == 4 * (
                decoded@[j].0 as int) * (decoded@[j].1 as int),
            forall|j: int|
                0 <= j < t2 ==> 1 <= (#[trigger] decoded@[j]).0 <= 0x4000_0000 && 1
                    <= decoded@[j].1 <= 0x4000_0000,
        decreases ntiles - t2,
    {
        let (w, h, _) = &decoded[t2];
        if *w < 1 || *w > 0x4000_0000 || *h < 1 || *h > 0x4000_0000 {
            proof {
                assert(rgba_of(ts[t2 as int]) == Some(
                    ((decoded@[t2 as int].0 as int), (decoded@[t2 as int].1 as int), decoded@[
                        t2 as int].2@),
                ));
                assert(!spec_tiles_dims_ok(ts));
            }
            return Err(ConvertError::Decode("image dimensions out of range".to_owned()));
        }
        t2 = t2 + 1;
    }
    // all tile heights must agree
    let height: u32 = decoded[0].1;
    let mut t3: usize = 0;
    while t3 < ntiles
        invariant
            t3 <= ntiles,
            ntiles == tiles@.len(),
            ts == tiles@.map_values(|v: Vec<u8>| v@),
            decoded@.len() == ntiles,
            height == decoded@[0].1,
            forall|j: int|
                0 <= j < ntiles ==> rgba_of(ts[j]) == Some(
                    (
                        ((#[trigger] decoded@[j]).0 as int),
                        (decoded@[j].1 as int),
                        decoded@[j].2@,
                    ),
                ),
            forall|j: int|
                0 <= j < ntiles ==> (#[trigger] decoded@[j]).2@.len() == 4 * (
                decoded@[j].0 as int) * (decoded@[j].1 as int),
            forall|j: int|
                0 <= j < ntiles ==> 1 <= (#[trigger] decoded@[j]).0 <= 0x4000_0000 && 1
                    <= decoded@[j].1 <= 0x4000_0000,
            forall|j: int| 0 <= j < t3 ==> (#[trigger] decoded@[j]).1 == height,
        decreases ntiles - t3,
    {
        if decoded[t3].1 != height {
            proof {
                assert(rgba_of(ts[t3 as int])->Some_0.1 != rgba_of(ts[0])->Some_0.1);
                assert(!spec_tiles_heights_eq(ts));
                assert forall|j: int| 0 <= j < ts.len() implies (#[trigger] rgba_of(ts[j]))
                    is Some by {
                    assert(rgba_of(ts[j]) == Some(
                        ((decoded@[j].0 as int), (decoded@[j].1 as int), decoded@[j].2@),
                    ));
                }
                assert(spec_tiles_decode(ts));
                assert forall|j: int| 0 <= j < ts.len() implies {
                    let d = (#[trigger] rgba_of(ts[j]))->Some_0;
                    1 <= d.0 <= 0x4000_0000 && 1 <= d.1 <= 0x4000_0000
                } by {
                    assert(rgba_of(ts[j]) == Some(
                        ((decoded@[j].0 as int), (decoded@[j].1 as int), decoded@[j].2@),
                    ));
                }
                assert(spec_tiles_dims_ok(ts));
            }
            return Err(ConvertError::DimensionMismatch);
        }
        t3 = t3 + 1;
    }
    // the combined width must stay in the coordinate space
    proof {
        assert forall|j: int| 0 <= j < ts.len() implies (#[trigger] rgba_of(ts[j])) is Some by {
            assert(rgba_of(ts[j]) == Some(
                ((decoded@[j].0 as int), (decoded@[j].1 as int), decoded@[j].2@),
            ));
        }
        assert(spec_tiles_decode(ts));
        assert forall|j: int| 0 <= j < ts.len() implies {
            let d = (#[trigger] rgba_of(ts[j]))->Some_0;
            1 <= d.0 <= 0x4000_0000 && 1 <= d.1 <= 0x4000_0000
        } by {
            assert(rgba_of(ts[j]) == Some(
                ((decoded@[j].0 as int), (decoded@[j].1 as int), decoded@[j].2@),
            ));
        }
        assert(spec_tiles_dims_ok(ts));
        assert forall|j: int| 0 <= j < ts.len() implies (#[trigger] rgba_of(ts[j]))->Some_0.1
            == rgba_of(ts[0])->Some_0.1 by {
            assert(decoded@[j].1 == height);
            assert(decoded@[0].1 == height);
        }
        assert(spec_tiles_heights_eq(ts));
    }
    let mut wsum: u64 = 0;
    let mut t4: usize = 0;
    while t4 < ntiles
        invariant
            t4 <= ntiles,
            ntiles == tiles@.len(),
            ts == tiles@.map_values(|v: Vec<u8>| v@),
            decoded@.len() == ntiles,
            spec_tiles_dims_ok(ts),
            spec_tiles_decode(ts),
            spec_tiles_heights_eq(ts),
            forall|j: int|
                0 <= j < ntiles ==> rgba_of(ts[j]) == Some(
                    (
                        ((#[trigger] decoded@[j]).0 as int),
                        (decoded@[j].1 as int),
                        decoded@[j].2@,
                    ),
                ),
            forall|j: int|
                0 <= j < ntiles ==> 1 <= (#[trigger] decoded@[j]).0 <= 0x4000_0000,
            wsum == spec_wsum(ts, t4 as int),
            wsum <= 0x4000_0000,
        decreases ntiles - t4,
    {
        wsum = wsum + (decoded[t4].0 as u64);
        if wsum > 0x4000_0000 {
            proof {
                lemma_wsum_mono(ts, t4 + 1, ntiles as int);
            }
            return Err(ConvertError::Decode("combined heightmap too wide".to_owned()));
        }
        t4 = t4 + 1;
    }
    let width: usize = wsum as usize;
    // sample every tile
    let mut sampled: Vec<Vec<u32>> = Vec::new();
    let mut t5: usize = 0;
    while t5 < ntiles
        invariant
            t5 <= ntiles,
            ntiles == tiles@.len(),
            ts == tiles@.map_values(|v: Vec<u8>| v@),
            decoded@.len() == ntiles,
            forall|j: int|
                0 <= j < ntiles ==> rgba_of(ts[j]) == Some(
                    (
                        ((#[trigger] decoded@[j]).0 as int),
                        (decoded@[j].1 as int),
                        decoded@[j].2@,
                    ),
                ),
            forall|j: int|
                0 <= j < ntiles ==> (#[trigger] decoded@[j]).2@.len() == 4 * (
                decoded@[j].0 as int) * (decoded@[j].1 as int),
            forall|j: int|
                0 <= j < ntiles ==> 1 <= (#[trigger] decoded@[j]).0 <= 0x4000_0000 && 1
                    <= decoded@[j].1 <= 0x4000_0000,
            sampled@.len() == t5,
            forall|j: int|
                0 <= j < t5 ==> (#[trigger] sampled@[j])@.len() == (decoded@[j].0 as int) * (
                decoded@[j].1 as int),
            forall|j: int, i: int|
                0 <= j < t5 && 0 <= i < sampled@[j]@.len() ==> #[trigger] sampled@[j]@[i]
                    == spec_intensity_at(decoded@[j].2@, hdmap, i) && sampled@[j]@[i]
                    <= spec_max_intensity(hdmap),
        decreases ntiles - t5,
    {
        let (w, h, px) = &decoded[t5];
        let n: usize = px.len() / 4;
        proof {
            let prod = (decoded@[t5 as int].0 as int) * (decoded@[t5 as int].1 as int);
            assert(4 * (decoded@[t5 as int].0 as int) * (decoded@[t5 as int].1 as int) == 4
                * prod) by (nonlinear_arith)
                requires
                    prod == (decoded@[t5 as int].0 as int) * (decoded@[t5 as int].1 as int),
            ;
            assert(px@.len() == 4 * prod);
            assert((4 * prod) / 4 == prod) by (nonlinear_arith);
            assert(n as int == prod);
        }
        let tileg: Vec<u32> = sample_tile(n, px, hdmap);
        sampled.push(tileg);
        t5 = t5 + 1;
    }
    // concatenate the tiles horizontally, row-major
    let hu: usize = height as usize;
    let mut data: Vec<u32> = Vec::new();
    let mut y: usize = 0;
    while y < hu
        invariant
            y <= hu,
            hu == height,
            ntiles == tiles@.len(),
            ntiles >= 1,
            ts == tiles@.map_values(|v: Vec<u8>| v@),
            decoded@.len() == ntiles,
            sampled@.len() == ntiles,
            height == decoded@[0].1,
            forall|j: int|
                0 <= j < ntiles ==> rgba_of(ts[j]) == Some(
                    (
                        ((#[trigger] decoded@[j]).0 as int),
                        (decoded@[j].1 as int),
                        decoded@[j].2@,
                    ),
                ),
            forall|j: int|
                0 <= j < ntiles ==> 1 <= (#[trigger] decoded@[j]).0 <= 0x4000_0000 && 1
                    <= decoded@[j].1 <= 0x4000_0000,
            forall|j: int| 0 <= j < ntiles ==> (#[trigger] decoded@[j]).1 == height,
            forall|j: int|
                0 <= j < ntiles ==> (#[trigger] sampled@[j])@.len() == (decoded@[j].0 as int) * (
                decoded@[j].1 as int),
            forall|j: int, i: int|
                0 <= j < ntiles && 0 <= i < sampled@[j]@.len() ==> #[trigger] sampled@[j]@[i]
                    == spec_intensity_at(decoded@[j].2@, hdmap, i) && sampled@[j]@[i]
                    <= spec_max_intensity(hdmap),
            data@ == spec_hrows(ts, hdmap, y as int),
            forall|i: int|
                0 <= i < data@.len() ==> #[trigger] data@[i] <= spec_max_intensity(hdmap),
        decreases hu - y,
    {
        let mut t6: usize = 0;
        while t6 < ntiles
            invariant
                t6 <= ntiles,
                y < hu,
                hu == height,
                ntiles == tiles@.len(),
                ntiles >= 1,
                ts == tiles@.map_values(|v: Vec<u8>| v@),
                decoded@.len() == ntiles,
                sampled@.len() == ntiles,
                height == decoded@[0].1,
                forall|j: int|
                    0 <= j < ntiles ==> rgba_of(ts[j]) == Some(
                        (
                            ((#[trigger] decoded@[j]).0 as int),
                            (decoded@[j].1 as int),
                            decoded@[j].2@,
                        ),
                    ),
                forall|j: int|
                    0 <= j < ntiles ==> 1 <= (#[trigger] decoded@[j]).0 <= 0x4000_0000 && 1
                        <= decoded@[j].1 <= 0x4000_0000,
                forall|j: int| 0 <= j < ntiles ==> (#[trigger] decoded@[j]).1 == height,
                forall|j: int|
                    0 <= j < ntiles ==> (#[trigger] sampled@[j])@.len() == (decoded@[j].0 as int)
                        * (decoded@[j].1 as int),
                forall|j: int, i: int|
                    0 <= j < ntiles && 0 <= i < sampled@[j]@.len() ==> #[trigger] sampled@[j]@[i]
                        == spec_intensity_at(decoded@[j].2@, hdmap, i) && sampled@[j]@[i]
                        <= spec_max_intensity(hdmap),
                data@ == spec_hrows(ts, hdmap, y as int) + spec_hrow_prefix_join(
                    ts,
                    hdmap,
                    y as int,
                    t6 as int,
                ),
                forall|i: int|
                    0 <= i < data@.len() ==> #[trigger] data@[i] <= spec_max_intensity(hdmap),
            decreases ntiles - t6,
        {
            let w6: usize = decoded[t6].0 as usize;
            let ghost pre = data@;
            let tl: usize = sampled[t6].len();
            proof {
                crate::grid::lemma_index_in_bounds(w6 as nat, hu as nat, 0, y as nat);
                assert(data@ =~= pre + sampled@[t6 as int]@.subrange(
                    (y as int) * (w6 as int),
                    (y as int) * (w6 as int),
                ));
            }
            let mut x: usize = 0;
            while x < w6
                invariant
                    x <= w6,
                    t6 < ntiles,
                    y < hu,
                    decoded@.len() == ntiles,
                    sampled@.len() == ntiles,
                    w6 == decoded@[t6 as int].0,
                    hu == decoded@[t6 as int].1,
                    (#[trigger] sampled@[t6 as int])@.len() == (decoded@[t6 as int].0 as int) * (
                    decoded@[t6 as int].1 as int),
                    tl == sampled@[t6 as int]@.len(),
                    1 <= w6,
                    forall|i: int|
                        0 <= i < sampled@[t6 as int]@.len() ==> #[trigger] sampled@[t6 as int]@[i]
                            == spec_intensity_at(decoded@[t6 as int].2@, hdmap, i)
                            && sampled@[t6 as int]@[i] <= spec_max_intensity(hdmap),
                    data@ == pre + sampled@[t6 as int]@.subrange(
                        (y as int) * w6,
                        (y as int) * w6 + x as int,
                    ),
                    forall|i: int|
                        0 <= i < pre.len() ==> #[trigger] pre[i] <= spec_max_intensity(hdmap),
                    forall|i: int|
                        0 <= i < data@.len() ==> #[trigger] data@[i] <= spec_max_intensity(hdmap),
                decreases w6 - x,
            {
                proof {
                    crate::grid::lemma_index_in_bounds(w6 as nat, hu as nat, x as nat, y as nat);
                }
                let row_base: usize = y * w6;
                data.push(sampled[t6][row_base + x]);
                proof {
                    assert(data@ =~= pre + sampled@[t6 as int]@.subrange(
                        (y as int) * w6,
                        (y as int) * w6 + x + 1,
                    ));
                }
                x = x + 1;
            }
            proof {
                crate::grid::lemma_index_in_bounds(w6 as nat, hu as nat, (w6 - 1) as nat, y as nat);
                let d = rgba_of(ts[t6 as int])->Some_0;
                assert(d.0 == decoded@[t6 as int].0 as int);
                assert(d.2 == decoded@[t6 as int].2@);
                assert(sampled@[t6 as int]@.subrange((y as int) * w6, (y as int) * w6 + w6)
                    =~= Seq::new(d.0 as nat, |x2: int| (spec_intensity_at(
                    d.2,
                    hdmap,
                    (y as int) * d.0 + x2,
                ) as u32)));
                assert(data@ =~= spec_hrows(ts, hdmap, y as int) + spec_hrow_prefix_join(
                    ts,
                    hdmap,
                    y as int,
                    t6 + 1,
                ));
            }
            t6 = t6 + 1;
        }
        proof {
            assert(spec_hrow_prefix_join(ts, hdmap, y as int, ntiles as int) =~= spec_hrow(
                ts,
                hdmap,
                y as int,
                0,
            )) by {
                lemma_hrow_prefix_join_full(ts, hdmap, y as int, 0);
            }
            assert(data@ =~= spec_hrows(ts, hdmap, y + 1));
        }
        y = y + 1;
    }
    proof {
        lemma_hrows_len(ts, hdmap, hu as int);
        assert(spec_tiles_heights_eq(ts));
        assert(spec_heightmap_ok(ts));
    }
    let gr = HeightGrid::from_values(
        width,
        hu,
        if hdmap {
            0xFFFFFF
        } else {
            255
        },
        data,
    );
    Ok(gr)
}

/// The row `y` of the first `t` tiles, laid end to end: the prefix the
/// concatenation loop has already emitted.
pub open spec fn spec_hrow_prefix_join(tiles: Seq<Seq<u8>>, hdmap: bool, y: int, t: int) -> Seq<
    u32,
>
    decreases t,
{
    if t <= 0 {
        Seq::empty()
    } else {
        spec_hrow_prefix_join(tiles, hdmap, y, t - 1) + {
            let d = rgba_of(tiles[t - 1])->Some_0;
            Seq::new(d.0 as nat, |x: int| (spec_intensity_at(d.2, hdmap, y * d.0 + x) as u32))
        }
    }
}

/// Joining all tile rows from the left equals joining them from the
/// right.
proof fn lemma_hrow_prefix_join_full(tiles: Seq<Seq<u8>>, hdmap: bool, y: int, t: int)
    requires
        0 <= t <= tiles.len(),
    ensures
        spec_hrow_prefix_join(tiles, hdmap, y, tiles.len() as int) == spec_hrow_prefix_join(
            tiles,
            hdmap,
            y,
            t,
        ) + spec_hrow(tiles, hdmap, y, t),
    decreases tiles.len() - t,
{
    if t == tiles.len() {
        assert(spec_hrow(tiles, hdmap, y, t) =~= Seq::<u32>::empty());
        assert(spec_hrow_prefix_join(tiles, hdmap, y, tiles.len() as int)
            =~= spec_hrow_prefix_join(tiles, hdmap, y, t) + spec_hrow(tiles, hdmap, y, t));
    } else {
        lemma_hrow_prefix_join_full(tiles, hdmap, y, t + 1);
        assert(spec_hrow_prefix_join(tiles, hdmap, y, t + 1) == spec_hrow_prefix_join(
            tiles,
            hdmap,
            y,
            t,
        ) + {
            let d = rgba_of(tiles[t])->Some_0;
            Seq::new(d.0 as nat, |x: int| (spec_intensity_at(d.2, hdmap, y * d.0 + x) as u32))
        });
        assert(spec_hrow_prefix_join(tiles, hdmap, y, tiles.len() as int)
            =~= spec_hrow_prefix_join(tiles, hdmap, y, t) + spec_hrow(tiles, hdmap, y, t));
    }
}

/// The combined data of `y` rows holds `y * width` samples.
proof fn lemma_hrows_len(tiles: Seq<Seq<u8>>, hdmap: bool, y: int)
    requires
        spec_tiles_dims_ok(tiles),
        0 <= y,
    ensures
        spec_hrows(tiles, hdmap, y).len() == y * spec_wsum(tiles, tiles.len() as int),
    decreases y,
{
    if y > 0 {
        lemma_hrows_len(tiles, hdmap, y - 1);
        lemma_hrow_len(tiles, hdmap, y - 1, 0);
        assert(y * spec_wsum(tiles, tiles.len() as int) == (y - 1) * spec_wsum(
            tiles,
            tiles.len() as int,
        ) + spec_wsum(tiles, tiles.len() as int)) by (nonlinear_arith);
    } else {
        assert(y * spec_wsum(tiles, tiles.len() as int) == 0) by (nonlinear_arith)
            requires
                y == 0,
        ;
    }
}

/// One concatenated row holds one sample per column of every tile from
/// `t` on.
proof fn lemma_hrow_len(tiles: Seq<Seq<u8>>, hdmap: bool, y: int, t: int)
    requires
        spec_tiles_dims_ok(tiles),
        0 <= t <= tiles.len(),
    ensures
        spec_hrow(tiles, hdmap, y, t).len() == spec_wsum(tiles, tiles.len() as int) - spec_wsum(
            tiles,
            t,
        ),
    decreases tiles.len() - t,
{
    if t < tiles.len() {
        lemma_hrow_len(tiles, hdmap, y, t + 1);
        lemma_wsum_step(tiles, t + 1);
    } else {
        lemma_wsum_step(tiles, t);
    }
}

/// Unfolds one step of the width sum.
proof fn lemma_wsum_step(tiles: Seq<Seq<u8>>, t: int)
    requires
        0 <= t <= tiles.len(),
    ensures
        t >= 1 ==> spec_wsum(tiles, t) == spec_wsum(tiles, t - 1) + rgba_of(
            tiles[t - 1],
        )->Some_0.0,
{
}

/// With sound tile dimensions the width sum only grows.
proof fn lemma_wsum_mono(tiles: Seq<Seq<u8>>, t1: int, t2: int)
    requires
        spec_tiles_dims_ok(tiles),
        0 <= t1 <= t2 <= tiles.len(),
    ensures
        spec_wsum(tiles, t1) <= spec_wsum(tiles, t2),
    decreases t2 - t1,
{
    if t1 < t2 {
        lemma_wsum_mono(tiles, t1, t2 - 1);
        assert(rgba_of(tiles[t2 - 1])->Some_0.0 >= 1);
    }
}

/// The inputs on which colormap loading succeeds: the image decodes with
/// positive dimensions that fit the cell coordinate space.
pub open spec fn spec_colormap_ok(bytes: Seq<u8>) -> bool {
    &&& rgba_of(bytes) is Some
    &&& 1 <= rgba_of(bytes)->Some_0.0 <= 0x4000_0000
    &&& 1 <= rgba_of(bytes)->Some_0.1 <= 0x4000_0000
}

/// Decodes the colormap image and samples it into a color grid, cell by
/// cell, gamma-decoding every sample when the linear-color option is set;
/// see [`spec_color_at`]. Fails with a decode error exactly when the
/// image is rejected. Never performs I/O and never panics.
pub fn load_colormap(bytes: &Vec<u8>, lrgb: bool) -> (r: Result<ColorGrid, ConvertError>)
    ensures
        (r is Ok) == spec_colormap_ok(bytes@),
        r is Err ==> r->Err_0 is Decode,
        r is Ok ==> {
            let d = rgba_of(bytes@)->Some_0;
            let cg = r->Ok_0;
            &&& cg.wf()
            &&& cg.width == d.0
            &&& cg.height == d.1
            &&& cg.data@.len() == d.0 * d.1
            &&& forall|i: int|
                0 <= i < cg.data@.len() ==> #[trigger] cg.data@[i] == spec_color_at(d.2, lrgb, i)
        },
{
    let d = match decode_rgba(bytes) {
        Ok(d) => d,
        Err(_) => {
            return Err(ConvertError::Decode("unsupported or malformed image".to_owned()));
        }
    };
    let (w, h, px) = d;
    if w < 1 || w > 0x4000_0000 || h < 1 || h > 0x4000_0000 {
        return Err(ConvertError::Decode("image dimensions out of range".to_owned()));
    }
    let wu: usize = w as usize;
    let hu: usize = h as usize;
    let n: usize = px.len() / 4;
    proof {
        let prod = (w as int) * (h as int);
        assert(4 * (w as int) * (h as int) == 4 * prod) by (nonlinear_arith)
            requires
                prod == (w as int) * (h as int),
        ;
        assert(px@.len() == 4 * prod);
        assert((4 * prod) / 4 == prod) by (nonlinear_arith);
        assert(n as int == prod);
    }
    let _len: usize = px.len();
    let mut data: Vec<Color> = Vec::new();
    let mut i: usize = 0;
    while i < n
        invariant
            i <= n,
            px@.len() == 4 * n,
            px@.len() <= usize::MAX,
            data@.len() == i,
            forall|j: int| 0 <= j < i ==> #[trigger] data@[j] == spec_color_at(px@, lrgb, j),
        decreases n - i,
    {
        let c = Color { r: px[4 * i], g: px[4 * i + 1], b: px[4 * i + 2], a: px[4 * i + 3] };
        let c2: Color = if lrgb {
            c.linearize()
        } else {
            c
        };
        data.push(c2);
        i = i + 1;
    }
    Ok(ColorGrid::from_values(wu, hu, data))
}

} // verus!
