use vstd::prelude::*;
use crate::brick::{Brick, spec_top_of, top_of};
use crate::color::{Color, spec_default_color};
use crate::grid::{ColorGrid, HeightGrid, spec_dims_match};
use crate::options::{GenOptions, spec_options_valid};

verus! {

/// The color a cell contributes to merging and output: its colormap sample,
/// or the uniform default when no colormap was supplied.
pub open spec fn spec_cell_color(c: Option<ColorGrid>, x: int, y: int) -> Color {
    match c {
        Some(cg) => cg.spec_at(x, y),
        None => spec_default_color(),
    }
}

/// True when the in-grid orthogonal neighbors of `(x, y)` all share its
/// elevation and the cell is not on the grid border; only then does the
/// cell show no visible difference to its surroundings.
pub open spec fn spec_no_neighbor_difference(g: HeightGrid, x: int, y: int) -> bool {
    &&& x > 0 && x + 1 < g.width
    &&& y > 0 && y + 1 < g.height
    &&& g.spec_at(x - 1, y) == g.spec_at(x, y)
    &&& g.spec_at(x + 1, y) == g.spec_at(x, y)
    &&& g.spec_at(x, y - 1) == g.spec_at(x, y)
    &&& g.spec_at(x, y + 1) == g.spec_at(x, y)
}

/// The culling policy for one cell: with `cull` set, a fully transparent
/// cell is dropped in every mode, and in non-image mode a bottom-layer cell
/// (elevation zero) with no visible neighbor difference is dropped as well.
pub open spec fn spec_cell_culled(
    g: HeightGrid,
    c: Option<ColorGrid>,
    o: GenOptions,
    x: int,
    y: int,
) -> bool {
    o.cull && (spec_cell_color(c, x, y).a == 0 || (!o.img && g.spec_at(x, y) == 0
        && spec_no_neighbor_difference(g, x, y)))
}

/// The brick the no-optimization strategy emits for one kept cell: a 1x1
/// footprint column from the ground to the cell's quantized top surface.
/// Collision and emission hold their defaults until post-processing.
pub open spec fn spec_cell_brick(
    g: HeightGrid,
    c: Option<ColorGrid>,
    o: GenOptions,
    x: int,
    y: int,
) -> Brick {
    Brick {
        x: x as u32,
        y: y as u32,
        dx: 1,
        dy: 1,
        z: 0,
        dz: spec_top_of(g.spec_at(x, y) as int, g.max_intensity as int, o.scale as int) as u32,
        color: spec_cell_color(c, x, y),
        collision: true,
        emission: 0,
        asset: o.asset,
    }
}

/// The preconditions every strategy shares: well-formed grids of matching
/// dimensions, valid options, and dimensions that leave cell coordinates
/// room in 32 bits even after the quadtree rounds them up to a power of
/// two.
pub open spec fn spec_inputs_valid(g: HeightGrid, c: Option<ColorGrid>, o: GenOptions) -> bool {
    &&& g.wf()
    &&& match c {
        Some(cg) => cg.wf() && spec_dims_match(&g, &cg),
        None => true,
    }
    &&& spec_options_valid(o)
    &&& g.width <= 0x4000_0000
    &&& g.height <= 0x4000_0000
}

/// Looks a cell's color up, falling back to the default; see
/// [`spec_cell_color`].
pub fn cell_color(c: &Option<ColorGrid>, x: usize, y: usize) -> (r: Color)
    requires
        match c {
            Some(cg) => cg.wf() && x < cg.width && y < cg.height,
            None => true,
        },
    ensures
        r == spec_cell_color(*c, x as int, y as int),
{
    match c {
        Some(cg) => cg.at(x, y),
        None => Color::default_color(),
    }
}

/// Decides the culling policy for one cell; see [`spec_cell_culled`].
pub fn cell_culled(
    g: &HeightGrid,
    c: &Option<ColorGrid>,
    o: &GenOptions,
    x: usize,
    y: usize,
) -> (r: bool)
    requires
        spec_inputs_valid(*g, *c, *o),
        x < g.width,
        y < g.height,
    ensures
        r == spec_cell_culled(*g, *c, *o, x as int, y as int),
{
    if !o.cull {
        return false;
    }
    if cell_color(c, x, y).is_transparent() {
        return true;
    }
    if o.img {
        return false;
    }
    if g.at(x, y) != 0 {
        return false;
    }
    let flat: bool = x > 0 && x + 1 < g.width && y > 0 && y + 1 < g.height && g.at(x - 1, y) == g.at(
        x,
        y,
    ) && g.at(x + 1, y) == g.at(x, y) && g.at(x, y - 1) == g.at(x, y) && g.at(x, y + 1) == g.at(
        x,
        y,
    );
    flat
}

/// Builds the column brick of one kept cell; see [`spec_cell_brick`].
pub fn cell_brick(
    g: &HeightGrid,
    c: &Option<ColorGrid>,
    o: &GenOptions,
    x: usize,
    y: usize,
) -> (r: Brick)
    requires
        spec_inputs_valid(*g, *c, *o),
        x < g.width,
        y < g.height,
    ensures
        r == spec_cell_brick(*g, *c, *o, x as int, y as int),
        r.wf(),
        r.dz <= 100,
{
    let e: u32 = g.at(x, y);
    Brick {
        x: x as u32,
        y: y as u32,
        dx: 1,
        dy: 1,
        z: 0,
        dz: top_of(e, g.max_intensity, o.scale),
        color: cell_color(c, x, y),
        collision: true,
        emission: 0,
        asset: o.asset,
    }
}

} // verus!
