use vstd::prelude::*;
use crate::brick::Brick;
use crate::cells::spec_inputs_valid;
use crate::error::ConvertError;
use crate::grid::{ColorGrid, HeightGrid};
use crate::optimizer::{generate, spec_generated_raw};
use crate::options::{GenOptions, spec_options_valid};
use crate::post::spec_post_seq;
use crate::reporter::{ProgressReporter, Stage};
use crate::sample::{
    load_colormap, load_heightmap, rgba_of, spec_color_at, spec_colormap_ok,
    spec_heightmap_mismatch, spec_heightmap_ok, spec_hrows, spec_max_intensity, spec_wsum,
};

verus! {

/// The color grid is the sampled form of the decoded colormap bytes.
pub open spec fn spec_colormap_loaded(cg: ColorGrid, bytes: Seq<u8>, lrgb: bool) -> bool {
    &&& spec_colormap_ok(bytes)
    &&& cg.wf()
    &&& cg.width == rgba_of(bytes)->Some_0.0
    &&& cg.height == rgba_of(bytes)->Some_0.1
    &&& forall|i: int|
        0 <= i < cg.data@.len() ==> #[trigger] cg.data@[i] == spec_color_at(
            rgba_of(bytes)->Some_0.2,
            lrgb,
            i,
        )
}

/// The height grid is the sampled form of the decoded heightmap tiles.
pub open spec fn spec_heightmap_loaded(g: HeightGrid, tiles: Seq<Seq<u8>>, hdmap: bool) -> bool {
    &&& spec_heightmap_ok(tiles)
    &&& g.wf()
    &&& g.max_intensity == spec_max_intensity(hdmap)
    &&& g.width == spec_wsum(tiles, tiles.len() as int)
    &&& g.height == rgba_of(tiles[0])->Some_0.1
    &&& g.data@ == spec_hrows(tiles, hdmap, g.height as int)
}

/// The grids the conversion runs on, as determined by the inputs: image
/// mode takes a flat all-zero height grid sized to the colormap; normal
/// mode samples the heightmap tiles and, when a colormap is supplied, a
/// color grid of matching dimensions.
pub open spec fn spec_grids_loaded(
    hm: Seq<Seq<u8>>,
    cm: Option<Seq<u8>>,
    o: GenOptions,
    g: HeightGrid,
    c: Option<ColorGrid>,
) -> bool {
    &&& spec_inputs_valid(g, c, o)
    &&& if o.img {
        &&& cm is Some
        &&& c is Some
        &&& spec_colormap_loaded(c->Some_0, cm->Some_0, o.lrgb)
        &&& g.spec_flat()
        &&& g.max_intensity == 255
        &&& g.width == c->Some_0.width
        &&& g.height == c->Some_0.height
    } else {
        &&& spec_heightmap_loaded(g, hm, o.hdmap)
        &&& match cm {
            Some(cb) => c is Some && spec_colormap_loaded(c->Some_0, cb, o.lrgb),
            None => c is None,
        }
    }
}

/// The mismatched-dimension input shapes: tile heights that disagree, or
/// a colormap whose decoded dimensions differ from the sampled height
/// grid's.
pub open spec fn spec_convert_mismatch(hm: Seq<Seq<u8>>, cm: Option<Seq<u8>>, o: GenOptions) -> bool {
    !o.img && (spec_heightmap_mismatch(hm) || (spec_heightmap_ok(hm) && cm is Some
        && spec_colormap_ok(cm->Some_0) && (rgba_of(cm->Some_0)->Some_0.0 != spec_wsum(
        hm,
        hm.len() as int,
    ) || rgba_of(cm->Some_0)->Some_0.1 != rgba_of(hm[0])->Some_0.1)))
}

/// The undecodable input shapes: in image mode a missing or rejected
/// colormap; otherwise tiles rejected for any reason but unequal heights,
/// or a supplied colormap that is rejected.
pub open spec fn spec_convert_undecodable(
    hm: Seq<Seq<u8>>,
    cm: Option<Seq<u8>>,
    o: GenOptions,
) -> bool {
    if o.img {
        cm is None || !spec_colormap_ok(cm->Some_0)
    } else {
        (!spec_heightmap_ok(hm) && !spec_heightmap_mismatch(hm)) || (spec_heightmap_ok(hm) && cm
            is Some && !spec_colormap_ok(cm->Some_0))
    }
}

/// The entry operation: samples the input images into grids, runs the
/// selected merge strategy with post-processing, and hands back the
/// complete brick sequence. Progress is reported from the reading stage
/// on and cancellation is polled between units of work; a cancelled run
/// yields the cancelled outcome and no bricks. Each error variant is owed
/// to its own input shape: a decode error only on undecodable inputs, a
/// dimension mismatch only on mismatched ones. Encoding is a separate
/// step, so nothing is written anywhere by this operation.
pub fn convert<R: ProgressReporter>(
    heightmaps: &Vec<Vec<u8>>,
    colormap: &Option<Vec<u8>>,
    o: &GenOptions,
    rep: &mut R,
) -> (r: Result<Vec<Brick>, ConvertError>)
    requires
        spec_options_valid(*o),
    ensures
        r is Ok ==> exists|g: HeightGrid, c: Option<ColorGrid>, raw: Seq<Brick>|
            {
                &&& spec_grids_loaded(
                    heightmaps@.map_values(|v: Vec<u8>| v@),
                    match *colormap {
                        Some(ref cb) => Some(cb@),
                        None => None,
                    },
                    *o,
                    g,
                    c,
                )
                &&& #[trigger] spec_generated_raw(g, c, *o, raw)
                &&& r->Ok_0@ == spec_post_seq(raw, *o)
            },
        r is Err ==> (r->Err_0 is Cancelled || r->Err_0 is Decode || r->Err_0
            is DimensionMismatch),
        r is Err && r->Err_0 is Decode ==> spec_convert_undecodable(
            heightmaps@.map_values(|v: Vec<u8>| v@),
            match *colormap {
                Some(ref cb) => Some(cb@),
                None => None,
            },
            *o,
        ),
        r is Err && r->Err_0 is DimensionMismatch ==> spec_convert_mismatch(
            heightmaps@.map_values(|v: Vec<u8>| v@),
            match *colormap {
                Some(ref cb) => Some(cb@),
                None => None,
            },
            *o,
        ),
        o.img && colormap is None ==> r is Err,
        !o.img && !spec_heightmap_ok(heightmaps@.map_values(|v: Vec<u8>| v@)) ==> r is Err,
{
    if !rep.report(Stage::Reading, 0, 1) {
        return Err(ConvertError::Cancelled);
    }
    let (g, c): (HeightGrid, Option<ColorGrid>) = if o.img {
        let cb: &Vec<u8> = match colormap {
            Some(cb) => cb,
            None => {
                return Err(ConvertError::Decode("image mode needs a colormap".to_owned()));
            }
        };
        let cg: ColorGrid = match load_colormap(cb, o.lrgb) {
            Ok(cg) => cg,
            Err(e) => {
                return Err(e);
            }
        };
        // the sample count bounds width * height for the flat grid
        let _cells: usize = cg.data.len();
        let g = HeightGrid::new_flat(cg.get_width(), cg.get_height());
        (g, Some(cg))
    } else {
        let g: HeightGrid = match load_heightmap(heightmaps, o.hdmap) {
            Ok(g) => g,
            Err(e) => {
                return Err(e);
            }
        };
        let c: Option<ColorGrid> = match colormap {
            Some(cb) => {
                let cg: ColorGrid = match load_colormap(cb, o.lrgb) {
                    Ok(cg) => cg,
                    Err(e) => {
                        return Err(e);
                    }
                };
                if cg.get_width() != g.get_width() || cg.get_height() != g.get_height() {
                    return Err(ConvertError::DimensionMismatch);
                }
                Some(cg)
            }
            None => None,
        };
        (g, c)
    };
    let bricks = match generate(&g, &c, o, rep) {
        Ok(b) => b,
        Err(_) => {
            return Err(ConvertError::Cancelled);
        }
    };
    rep.report(Stage::Finished, 1, 1);
    proof {
        let raw = choose|raw: Seq<Brick>|
            #[trigger] spec_generated_raw(g, c, *o, raw) && bricks@ == spec_post_seq(raw, *o);
        assert(spec_grids_loaded(
            heightmaps@.map_values(|v: Vec<u8>| v@),
            match *colormap {
                Some(ref cb) => Some(cb@),
                None => None,
            },
            *o,
            g,
            c,
        ));
    }
    Ok(bricks)
}

} // verus!
