use vstd::prelude::*;
use crate::brick::{Brick, spec_top_of, top_of};
use crate::cells::{cell_color, spec_cell_color, spec_inputs_valid};
use crate::color::Color;
use crate::error::ConvertError;
use crate::greedy::spec_brick_covered;
use crate::grid::{ColorGrid, HeightGrid};
use crate::options::GenOptions;
use crate::reporter::{ProgressReporter, Stage};

verus! {

/// True when `s` is a power of two.
pub open spec fn spec_is_pow2(s: int) -> bool
    decreases s,
{
    if s <= 0 {
        false
    } else if s == 1 {
        true
    } else {
        s % 2 == 0 && spec_is_pow2(s / 2)
    }
}

/// True when cell `(cx, cy)` shares the elevation and color of the cell
/// `(x0, y0)`.
pub open spec fn spec_cell_matches(
    g: HeightGrid,
    c: Option<ColorGrid>,
    x0: int,
    y0: int,
    cx: int,
    cy: int,
) -> bool {
    &&& g.spec_at(cx, cy) == g.spec_at(x0, y0)
    &&& spec_cell_color(c, cx, cy) == spec_cell_color(c, x0, y0)
}

/// True when every cell of the square region `[x0, x0+s) x [y0, y0+s)`
/// shares the elevation and color of the region's corner cell: only such a
/// region may merge into a single leaf brick — an exact match, with no
/// tolerance.
pub open spec fn spec_region_uniform(
    g: HeightGrid,
    c: Option<ColorGrid>,
    x0: int,
    y0: int,
    s: int,
) -> bool {
    forall|cx: int, cy: int|
        x0 <= cx < x0 + s && y0 <= cy < y0 + s ==> #[trigger] spec_cell_matches(
            g,
            c,
            x0,
            y0,
            cx,
            cy,
        )
}

/// The column brick a uniform leaf region emits: the region's footprint at
/// its uniform quantized top surface.
pub open spec fn spec_quad_leaf_brick(
    g: HeightGrid,
    c: Option<ColorGrid>,
    o: GenOptions,
    x0: int,
    y0: int,
    s: int,
) -> Brick {
    Brick {
        x: x0 as u32,
        y: y0 as u32,
        dx: s as u32,
        dy: s as u32,
        z: 0,
        dz: spec_top_of(
            g.spec_at(x0, y0) as int,
            g.max_intensity as int,
            o.scale as int,
        ) as u32,
        color: spec_cell_color(c, x0, y0),
        collision: true,
        emission: 0,
        asset: o.asset,
    }
}

/// The bricks the quadtree strategy emits for the power-of-two-aligned
/// square region at `(x0, y0)` of side `s`: a region outside the grid
/// emits nothing; a fully inside, uniform region emits one leaf brick
/// (none when culling drops its transparent color); any other region
/// subdivides into its four quadrants.
pub open spec fn spec_quad(
    g: HeightGrid,
    c: Option<ColorGrid>,
    o: GenOptions,
    x0: int,
    y0: int,
    s: int,
) -> Seq<Brick>
    decreases s,
{
    if s <= 0 {
        Seq::empty()
    } else if x0 >= g.width || y0 >= g.height {
        Seq::empty()
    } else if x0 + s <= g.width && y0 + s <= g.height && spec_region_uniform(g, c, x0, y0, s) {
        if o.cull && spec_cell_color(c, x0, y0).a == 0 {
            Seq::empty()
        } else {
            seq![spec_quad_leaf_brick(g, c, o, x0, y0, s)]
        }
    } else {
        spec_quad(g, c, o, x0, y0, s / 2) + spec_quad(g, c, o, x0 + s / 2, y0, s / 2) + spec_quad(
            g,
            c,
            o,
            x0,
            y0 + s / 2,
            s / 2,
        ) + spec_quad(g, c, o, x0 + s / 2, y0 + s / 2, s / 2)
    }
}

/// What the quadtree strategy promises of each emitted brick: a ground
/// column over a square footprint inside the grid whose cells all share
/// the corner cell's elevation and color.
pub open spec fn spec_quad_brick_ok(
    g: HeightGrid,
    c: Option<ColorGrid>,
    o: GenOptions,
    b: Brick,
) -> bool {
    &&& b.wf()
    &&& b.dx == b.dy
    &&& b.x + b.dx <= g.width
    &&& b.y + b.dy <= g.height
    &&& b.z == 0
    &&& b.dz == spec_top_of(
        g.spec_at(b.x as int, b.y as int) as int,
        g.max_intensity as int,
        o.scale as int,
    )
    &&& b.color == spec_cell_color(c, b.x as int, b.y as int)
    &&& b.collision == true
    &&& b.emission == 0
    &&& b.asset == o.asset
    &&& forall|cx: int, cy: int|
        #[trigger] b.covers(cx, cy) ==> g.spec_at(cx, cy) == g.spec_at(b.x as int, b.y as int)
            && spec_cell_color(c, cx, cy) == spec_cell_color(c, b.x as int, b.y as int)
}

/// A cell survives the quadtree's culling unless it is fully transparent
/// with `cull` set.
pub open spec fn spec_quad_cell_kept(
    g: HeightGrid,
    c: Option<ColorGrid>,
    o: GenOptions,
    cx: int,
    cy: int,
) -> bool {
    !(o.cull && spec_cell_color(c, cx, cy).a == 0)
}

/// The quadtree region's bricks partition its kept cells: every brick is a
/// uniform ground column confined to the region and the grid, bricks are
/// pairwise non-overlapping, and every kept grid cell of the region is
/// covered.
pub proof fn lemma_quad_props(
    g: HeightGrid,
    c: Option<ColorGrid>,
    o: GenOptions,
    x0: int,
    y0: int,
    s: int,
)
    requires
        spec_inputs_valid(g, c, o),
        0 <= x0,
        0 <= y0,
        spec_is_pow2(s),
    ensures
        forall|k: int|
            0 <= k < spec_quad(g, c, o, x0, y0, s).len() ==> spec_quad_brick_ok(
                g,
                c,
                o,
                #[trigger] spec_quad(g, c, o, x0, y0, s)[k],
            ),
        forall|k: int, cx: int, cy: int|
            0 <= k < spec_quad(g, c, o, x0, y0, s).len() && #[trigger] spec_quad(
                g,
                c,
                o,
                x0,
                y0,
                s,
            )[k].covers(cx, cy) ==> x0 <= cx < x0 + s && y0 <= cy < y0 + s && cx < g.width && cy
                < g.height,
        forall|k1: int, k2: int, cx: int, cy: int|
            #![trigger spec_quad(g, c, o, x0, y0, s)[k1].covers(cx, cy), spec_quad(g, c, o, x0, y0, s)[k2].covers(cx, cy)]
            0 <= k1 < k2 < spec_quad(g, c, o, x0, y0, s).len() && spec_quad(
                g,
                c,
                o,
                x0,
                y0,
                s,
            )[k1].covers(cx, cy) ==> !spec_quad(g, c, o, x0, y0, s)[k2].covers(cx, cy),
        forall|cx: int, cy: int|
            x0 <= cx < x0 + s && y0 <= cy < y0 + s && 0 <= cx < g.width && 0 <= cy < g.height
                && spec_quad_cell_kept(g, c, o, cx, cy) ==> #[trigger] spec_brick_covered(
                spec_quad(g, c, o, x0, y0, s),
                cx,
                cy,
            ),
    decreases s,
{
    let q = spec_quad(g, c, o, x0, y0, s);
    if x0 >= g.width || y0 >= g.height {
        // nothing is emitted and no cell lies in the region and the grid
    } else if x0 + s <= g.width && y0 + s <= g.height && spec_region_uniform(g, c, x0, y0, s) {
        if o.cull && spec_cell_color(c, x0, y0).a == 0 {
            // every region cell shares the transparent corner color, so
            // none is kept
            assert forall|cx: int, cy: int|
                x0 <= cx < x0 + s && y0 <= cy < y0 + s implies !spec_quad_cell_kept(
                g,
                c,
                o,
                cx,
                cy,
            ) by {
                assert(spec_cell_matches(g, c, x0, y0, cx, cy));
            }
        } else {
            let b = spec_quad_leaf_brick(g, c, o, x0, y0, s);
            assert(q[0] == b);
            assert(b.x == x0 && b.y == y0 && b.dx == s && b.dy == s);
            assert(spec_quad_brick_ok(g, c, o, b)) by {
                crate::grid::lemma_index_in_bounds(
                    g.width as nat,
                    g.height as nat,
                    x0 as nat,
                    y0 as nat,
                );
                crate::brick::lemma_quantize_le_scale(
                    g.spec_at(x0, y0) as int,
                    g.max_intensity as int,
                    o.scale as int,
                );
                assert forall|cx: int, cy: int| #[trigger] b.covers(cx, cy) implies g.spec_at(
                    cx,
                    cy,
                ) == g.spec_at(b.x as int, b.y as int) && spec_cell_color(c, cx, cy)
                    == spec_cell_color(c, b.x as int, b.y as int) by {
                    assert(spec_cell_matches(g, c, x0, y0, cx, cy));
                }
            }
            assert forall|cx: int, cy: int|
                x0 <= cx < x0 + s && y0 <= cy < y0 + s && 0 <= cx < g.width && 0 <= cy < g.height
                    && spec_quad_cell_kept(g, c, o, cx, cy) implies #[trigger] spec_brick_covered(
                q,
                cx,
                cy,
            ) by {
                assert(q[0].covers(cx, cy));
            }
        }
    } else {
        assert(s >= 2) by {
            if s == 1 {
                assert(spec_region_uniform(g, c, x0, y0, 1));
            }
        }
        let s2 = s / 2;
        assert(spec_is_pow2(s2));
        assert(s2 + s2 == s);
        lemma_quad_props(g, c, o, x0, y0, s2);
        lemma_quad_props(g, c, o, x0 + s2, y0, s2);
        lemma_quad_props(g, c, o, x0, y0 + s2, s2);
        lemma_quad_props(g, c, o, x0 + s2, y0 + s2, s2);
        let q1 = spec_quad(g, c, o, x0, y0, s2);
        let q2 = spec_quad(g, c, o, x0 + s2, y0, s2);
        let q3 = spec_quad(g, c, o, x0, y0 + s2, s2);
        let q4 = spec_quad(g, c, o, x0 + s2, y0 + s2, s2);
        let l1 = q1.len() as int;
        let l2 = q2.len() as int;
        let l3 = q3.len() as int;
        let l4 = q4.len() as int;
        assert(q == q1 + q2 + q3 + q4);
        assert forall|k: int| 0 <= k < q.len() implies spec_quad_brick_ok(
            g,
            c,
            o,
            #[trigger] q[k],
        ) && (forall|cx: int, cy: int|
            #[trigger] q[k].covers(cx, cy) ==> x0 <= cx < x0 + s && y0 <= cy < y0 + s && cx
                < g.width && cy < g.height) by {
            if k < l1 {
                assert(q[k] == q1[k]);
            } else if k < l1 + l2 {
                assert(q[k] == q2[k - l1]);
            } else if k < l1 + l2 + l3 {
                assert(q[k] == q3[k - l1 - l2]);
            } else {
                assert(q[k] == q4[k - l1 - l2 - l3]);
            }
        }
        assert forall|k1: int, k2: int, cx: int, cy: int|
            #![trigger q[k1].covers(cx, cy), q[k2].covers(cx, cy)]
            0 <= k1 < k2 < q.len() && q[k1].covers(cx, cy) implies !q[k2].covers(cx, cy) by {
            if q[k2].covers(cx, cy) {
                // identify each index's quadrant; different quadrants
                // cover disjoint cell ranges
                if k1 < l1 {
                    assert(q[k1] == q1[k1]);
                } else if k1 < l1 + l2 {
                    assert(q[k1] == q2[k1 - l1]);
                } else if k1 < l1 + l2 + l3 {
                    assert(q[k1] == q3[k1 - l1 - l2]);
                } else {
                    assert(q[k1] == q4[k1 - l1 - l2 - l3]);
                }
                if k2 < l1 {
                    assert(q[k2] == q1[k2]);
                } else if k2 < l1 + l2 {
                    assert(q[k2] == q2[k2 - l1]);
                } else if k2 < l1 + l2 + l3 {
                    assert(q[k2] == q3[k2 - l1 - l2]);
                } else {
                    assert(q[k2] == q4[k2 - l1 - l2 - l3]);
                }
            }
        }
        assert forall|cx: int, cy: int|
            x0 <= cx < x0 + s && y0 <= cy < y0 + s && 0 <= cx < g.width && 0 <= cy < g.height
                && spec_quad_cell_kept(g, c, o, cx, cy) implies #[trigger] spec_brick_covered(
            q,
            cx,
            cy,
        ) by {
            if cx < x0 + s2 && cy < y0 + s2 {
                assert(spec_brick_covered(q1, cx, cy));
                let k = choose|k: int| 0 <= k < q1.len() && (#[trigger] q1[k]).covers(cx, cy);
                assert(q[k] == q1[k]);
                assert(q[k].covers(cx, cy));
            } else if cy < y0 + s2 {
                assert(spec_brick_covered(q2, cx, cy));
                let k = choose|k: int| 0 <= k < q2.len() && (#[trigger] q2[k]).covers(cx, cy);
                assert(q[l1 + k] == q2[k]);
                assert(q[l1 + k].covers(cx, cy));
            } else if cx < x0 + s2 {
                assert(spec_brick_covered(q3, cx, cy));
                let k = choose|k: int| 0 <= k < q3.len() && (#[trigger] q3[k]).covers(cx, cy);
                assert(q[l1 + l2 + k] == q3[k]);
                assert(q[l1 + l2 + k].covers(cx, cy));
            } else {
                assert(spec_brick_covered(q4, cx, cy));
                let k = choose|k: int| 0 <= k < q4.len() && (#[trigger] q4[k]).covers(cx, cy);
                assert(q[l1 + l2 + l3 + k] == q4[k]);
                assert(q[l1 + l2 + l3 + k].covers(cx, cy));
            }
        }
    }
}

/// True when the square region is uniform in elevation and color; see
/// [`spec_region_uniform`].
fn region_uniform(g: &HeightGrid, c: &Option<ColorGrid>, x0: usize, y0: usize, s: usize) -> (r:
    bool)
    requires
        g.wf(),
        match c {
            Some(cg) => cg.wf() && cg.width == g.width && cg.height == g.height,
            None => true,
        },
        x0 + s <= g.width,
        y0 + s <= g.height,
        1 <= s,
    ensures
        r == spec_region_uniform(*g, *c, x0 as int, y0 as int, s as int),
{
    let e0: u32 = g.at(x0, y0);
    let c0: Color = cell_color(c, x0, y0);
    let mut cy: usize = y0;
    while cy < y0 + s
        invariant
            y0 <= cy <= y0 + s,
            x0 + s <= g.width,
            y0 + s <= g.height,
            1 <= s,
            g.wf(),
            match c {
                Some(cg) => cg.wf() && cg.width == g.width && cg.height == g.height,
                None => true,
            },
            e0 == g.spec_at(x0 as int, y0 as int),
            c0 == spec_cell_color(*c, x0 as int, y0 as int),
            forall|ax: int, ay: int|
                x0 <= ax < x0 + s && y0 <= ay < cy ==> #[trigger] spec_cell_matches(
                    *g,
                    *c,
                    x0 as int,
                    y0 as int,
                    ax,
                    ay,
                ),
        decreases y0 + s - cy,
    {
        let mut cx: usize = x0;
        while cx < x0 + s
            invariant
                x0 <= cx <= x0 + s,
                y0 <= cy < y0 + s,
                x0 + s <= g.width,
                y0 + s <= g.height,
                1 <= s,
                g.wf(),
                match c {
                    Some(cg) => cg.wf() && cg.width == g.width && cg.height == g.height,
                    None => true,
                },
                e0 == g.spec_at(x0 as int, y0 as int),
                c0 == spec_cell_color(*c, x0 as int, y0 as int),
                forall|ax: int, ay: int|
                    x0 <= ax < x0 + s && y0 <= ay < cy ==> #[trigger] spec_cell_matches(
                        *g,
                        *c,
                        x0 as int,
                        y0 as int,
                        ax,
                        ay,
                    ),
                forall|ax: int|
                    x0 <= ax < cx ==> #[trigger] spec_cell_matches(
                        *g,
                        *c,
                        x0 as int,
                        y0 as int,
                        ax,
                        cy as int,
                    ),
            decreases x0 + s - cx,
        {
            if g.at(cx, cy) != e0 {
                proof {
                    assert(!spec_cell_matches(*g, *c, x0 as int, y0 as int, cx as int, cy as int));
                }
                return false;
            }
            let cc: Color = cell_color(c, cx, cy);
            if !(cc == c0) {
                proof {
                    assert(!spec_cell_matches(*g, *c, x0 as int, y0 as int, cx as int, cy as int));
                }
                return false;
            }
            proof {
                assert(spec_cell_matches(*g, *c, x0 as int, y0 as int, cx as int, cy as int));
            }
            cx = cx + 1;
        }
        cy = cy + 1;
    }
    true
}

/// Recursively processes one power-of-two-aligned square region,
/// appending its bricks; polls the reporter's verdict at every region so
/// cancellation latency is one quadrant. `done` counts the grid cells
/// settled by finished leaves out of `total`, so the reported fraction
/// advances monotonically while the tree is walked.
fn quad_region<R: ProgressReporter>(
    g: &HeightGrid,
    c: &Option<ColorGrid>,
    o: &GenOptions,
    rep: &mut R,
    x0: usize,
    y0: usize,
    s: usize,
    out: &mut Vec<Brick>,
    done: &mut usize,
    total: usize,
) -> (r: Result<(), ConvertError>)
    requires
        spec_inputs_valid(*g, *c, *o),
        spec_is_pow2(s as int),
        x0 + s <= 0x8000_0000,
        y0 + s <= 0x8000_0000,
        *old(done) <= total,
    ensures
        r is Ok ==> final(out)@ == old(out)@ + spec_quad(*g, *c, *o, x0 as int, y0 as int, s as int),
        r is Err ==> r->Err_0 is Cancelled,
        *old(done) <= *final(done) <= total,
    decreases s,
{
    if !rep.report(Stage::Generating, *done, total) {
        return Err(ConvertError::Cancelled);
    }
    let w: usize = g.get_width();
    let h: usize = g.get_height();
    if x0 >= w || y0 >= h {
        proof {
            assert(final(out)@ =~= old(out)@ + spec_quad(*g, *c, *o, x0 as int, y0 as int, s as int));
        }
        return Ok(());
    }
    if x0 + s <= w && y0 + s <= h && region_uniform(g, c, x0, y0, s) {
        // the leaf settles its s*s grid cells, whether kept or culled
        proof {
            vstd::arithmetic::mul::lemma_mul_upper_bound(s as int, w as int, s as int, h as int);
        }
        let _cells: usize = g.data.len();
        let area: usize = s * s;
        *done = if area <= total - *done {
            *done + area
        } else {
            total
        };
        if o.cull && cell_color(c, x0, y0).is_transparent() {
            proof {
                assert(out@ =~= out@ + spec_quad(*g, *c, *o, x0 as int, y0 as int, s as int));
            }
            return Ok(());
        }
        let b = Brick {
            x: x0 as u32,
            y: y0 as u32,
            dx: s as u32,
            dy: s as u32,
            z: 0,
            dz: top_of(g.at(x0, y0), g.max_intensity, o.scale),
            color: cell_color(c, x0, y0),
            collision: true,
            emission: 0,
            asset: o.asset,
        };
        let ghost pre = out@;
        out.push(b);
        proof {
            assert(b == spec_quad_leaf_brick(*g, *c, *o, x0 as int, y0 as int, s as int));
            assert(out@ =~= pre + spec_quad(*g, *c, *o, x0 as int, y0 as int, s as int));
        }
        return Ok(());
    }
    proof {
        if s == 1 {
            assert(spec_region_uniform(*g, *c, x0 as int, y0 as int, 1));
        }
    }
    let s2: usize = s / 2;
    let ghost pre = out@;
    let r1 = quad_region(g, c, o, rep, x0, y0, s2, out, done, total);
    if r1.is_err() {
        return Err(ConvertError::Cancelled);
    }
    let r2 = quad_region(g, c, o, rep, x0 + s2, y0, s2, out, done, total);
    if r2.is_err() {
        return Err(ConvertError::Cancelled);
    }
    let r3 = quad_region(g, c, o, rep, x0, y0 + s2, s2, out, done, total);
    if r3.is_err() {
        return Err(ConvertError::Cancelled);
    }
    let r4 = quad_region(g, c, o, rep, x0 + s2, y0 + s2, s2, out, done, total);
    if r4.is_err() {
        return Err(ConvertError::Cancelled);
    }
    proof {
        assert(out@ =~= pre + spec_quad(*g, *c, *o, x0 as int, y0 as int, s as int));
    }
    Ok(())
}

/// Runs the quadtree strategy: the grid is covered by the smallest
/// power-of-two square, which is recursively subdivided into quadrants
/// until regions are uniform in elevation and color; each uniform region
/// becomes one ground-column brick over its footprint.
///
/// On success the bricks exactly partition the kept grid cells: each is a
/// uniform square column, bricks are pairwise non-overlapping, and every
/// kept cell is covered exactly once. Progress is reported and
/// cancellation polled once per region.
pub fn gen_quad<R: ProgressReporter>(
    g: &HeightGrid,
    c: &Option<ColorGrid>,
    o: &GenOptions,
    rep: &mut R,
) -> (r: Result<Vec<Brick>, ConvertError>)
    requires
        spec_inputs_valid(*g, *c, *o),
    ensures
        r is Ok ==> exists|s: int|
            {
                &&& #[trigger] spec_is_pow2(s)
                &&& s >= g.width
                &&& s >= g.height
                &&& (s == 1 || s / 2 < g.width || s / 2 < g.height)
                &&& r->Ok_0@ == spec_quad(*g, *c, *o, 0, 0, s)
            },
        r is Ok ==> forall|k: int|
            0 <= k < r->Ok_0@.len() ==> spec_quad_brick_ok(*g, *c, *o, #[trigger] r->Ok_0@[k]),
        r is Ok ==> forall|k1: int, k2: int, cx: int, cy: int|
            #![trigger r->Ok_0@[k1].covers(cx, cy), r->Ok_0@[k2].covers(cx, cy)]
            0 <= k1 < k2 < r->Ok_0@.len() && r->Ok_0@[k1].covers(cx, cy) ==> !r->Ok_0@[k2].covers(
                cx,
                cy,
            ),
        r is Ok ==> forall|cx: int, cy: int|
            0 <= cx < g.width && 0 <= cy < g.height && spec_quad_cell_kept(*g, *c, *o, cx, cy)
                ==> #[trigger] spec_brick_covered(r->Ok_0@, cx, cy),
        r is Err ==> r->Err_0 is Cancelled,
{
    let w: usize = g.get_width();
    let h: usize = g.get_height();
    let m: usize = if w < h {
        h
    } else {
        w
    };
    let mut size: usize = 1;
    while size < m
        invariant
            spec_is_pow2(size as int),
            1 <= size,
            size < 2 * m,
            size == 1 || size / 2 < m,
            1 <= m <= 0x4000_0000,
        decreases 2 * m - size,
    {
        size = size * 2;
    }
    let mut out: Vec<Brick> = Vec::new();
    let total: usize = g.data.len();
    let mut done: usize = 0;
    let res = quad_region(g, c, o, rep, 0, 0, size, &mut out, &mut done, total);
    if res.is_err() {
        return Err(ConvertError::Cancelled);
    }
    proof {
        lemma_quad_props(*g, *c, *o, 0, 0, size as int);
        assert(out@ =~= spec_quad(*g, *c, *o, 0, 0, size as int));
        assert(spec_is_pow2(size as int) && size >= g.width && size >= g.height && (size == 1
            || size / 2 < g.width || size / 2 < g.height) && out@ == spec_quad(
            *g,
            *c,
            *o,
            0,
            0,
            size as int,
        ));
    }
    Ok(out)
}

} // verus!
