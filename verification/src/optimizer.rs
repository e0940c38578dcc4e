use vstd::prelude::*;
use crate::brick::{Brick, lemma_quantize_le_scale};
use crate::cells::spec_inputs_valid;
use crate::error::ConvertError;
use crate::greedy::{
    gen_greedy, spec_brick_covered, spec_greedy_kept, spec_slab_down_maximal,
    spec_slab_right_maximal, spec_slab_seed_first, spec_slab_uniform,
};
use crate::grid::{ColorGrid, HeightGrid, lemma_index_in_bounds};
use crate::options::GenOptions;
use crate::percell::{gen_percell, spec_percell};
use crate::post::{post_process, spec_post_seq};
use crate::quad::{gen_quad, spec_is_pow2, spec_quad, spec_quad_brick_ok, spec_quad_cell_kept};
use crate::reporter::{ProgressReporter, Stage};

verus! {

/// The merging strategy `GenOptions` selects: `greedy` takes precedence
/// over `quadtree`, and with neither set the no-optimization strategy
/// runs.
#[derive(Debug, Clone, Copy, PartialEq, Eq, Structural)]
pub enum Strategy {
    PerCell,
    Quadtree,
    Greedy,
}

/// The strategy the options select; see [`Strategy`].
pub open spec fn spec_strategy_of(o: GenOptions) -> Strategy {
    if o.greedy {
        Strategy::Greedy
    } else if o.quadtree {
        Strategy::Quadtree
    } else {
        Strategy::PerCell
    }
}

impl Strategy {
    /// Reads the strategy selection out of the options; see
    /// [`spec_strategy_of`].
    pub fn of_options(o: &GenOptions) -> (r: Strategy)
        ensures
            r == spec_strategy_of(*o),
    {
        if o.greedy {
            Strategy::Greedy
        } else if o.quadtree {
            Strategy::Quadtree
        } else {
            Strategy::PerCell
        }
    }
}

/// What `generate` promises of a successful brick sequence, before
/// post-processing: the exact output of the selected strategy. The
/// no-optimization strategy's output is pinned cell by cell; the quadtree
/// and greedy outputs are pinned by their partition contracts
/// ([`spec_quad_brick_ok`] / [`spec_slab_uniform`], pairwise
/// non-overlap, and full coverage of kept cells).
pub open spec fn spec_generated_raw(
    g: HeightGrid,
    c: Option<ColorGrid>,
    o: GenOptions,
    bricks: Seq<Brick>,
) -> bool {
    match spec_strategy_of(o) {
        Strategy::PerCell => bricks == spec_percell(g, c, o),
        Strategy::Quadtree => {
            &&& exists|s: int|
                {
                    &&& #[trigger] spec_is_pow2(s)
                    &&& s >= g.width
                    &&& s >= g.height
                    &&& (s == 1 || s / 2 < g.width || s / 2 < g.height)
                    &&& bricks == spec_quad(g, c, o, 0, 0, s)
                }
            &&& forall|k: int|
                0 <= k < bricks.len() ==> spec_quad_brick_ok(g, c, o, #[trigger] bricks[k])
            &&& forall|k1: int, k2: int, cx: int, cy: int|
                #![trigger bricks[k1].covers(cx, cy), bricks[k2].covers(cx, cy)]
                0 <= k1 < k2 < bricks.len() && bricks[k1].covers(cx, cy) ==> !bricks[k2].covers(
                    cx,
                    cy,
                )
            &&& forall|cx: int, cy: int|
                0 <= cx < g.width && 0 <= cy < g.height && spec_quad_cell_kept(g, c, o, cx, cy)
                    ==> #[trigger] spec_brick_covered(bricks, cx, cy)
        },
        Strategy::Greedy => {
            &&& forall|k: int|
                0 <= k < bricks.len() ==> spec_slab_uniform(g, c, o, #[trigger] bricks[k])
            &&& forall|k1: int, k2: int, cx: int, cy: int|
                #![trigger bricks[k1].covers(cx, cy), bricks[k2].covers(cx, cy)]
                0 <= k1 < k2 < bricks.len() && bricks[k1].covers(cx, cy) ==> !bricks[k2].covers(
                    cx,
                    cy,
                )
            &&& forall|cx: int, cy: int|
                0 <= cx < g.width && 0 <= cy < g.height && spec_greedy_kept(g, c, o, cx, cy)
                    ==> #[trigger] spec_brick_covered(bricks, cx, cy)
            &&& forall|k: int|
                0 <= k < bricks.len() ==> #[trigger] spec_slab_right_maximal(g, c, o, bricks, k)
            &&& forall|k: int|
                0 <= k < bricks.len() ==> #[trigger] spec_slab_down_maximal(g, c, o, bricks, k)
            &&& forall|k: int|
                0 <= k < bricks.len() ==> #[trigger] spec_slab_seed_first(g, c, o, bricks, k)
        },
    }
}

/// Runs the selected merge strategy over the sampled grids and applies
/// the uniform post-processing policies (cull decisions are made inside
/// the strategies; `snap`, `nocollide`, `glow` and the brick family here).
///
/// On success the result is exactly the post-processed strategy output:
/// some raw sequence satisfying [`spec_generated_raw`] mapped through
/// [`crate::post::spec_post_brick`]. The only failure is the cancelled
/// outcome, raised when the caller's reporter asks generation to stop; no
/// partial brick set is returned then.
pub fn generate<R: ProgressReporter>(
    g: &HeightGrid,
    c: &Option<ColorGrid>,
    o: &GenOptions,
    rep: &mut R,
) -> (r: Result<Vec<Brick>, ConvertError>)
    requires
        spec_inputs_valid(*g, *c, *o),
    ensures
        r is Ok ==> exists|raw: Seq<Brick>|
            #[trigger] spec_generated_raw(*g, *c, *o, raw) && r->Ok_0@ == spec_post_seq(raw, *o),
        r is Err ==> r->Err_0 is Cancelled,
{
    let raw: Vec<Brick> = match Strategy::of_options(o) {
        Strategy::Greedy => {
            match gen_greedy(g, c, o, rep) {
                Ok(b) => b,
                Err(_) => {
                    return Err(ConvertError::Cancelled);
                }
            }
        },
        Strategy::Quadtree => {
            match gen_quad(g, c, o, rep) {
                Ok(b) => b,
                Err(_) => {
                    return Err(ConvertError::Cancelled);
                }
            }
        },
        Strategy::PerCell => {
            match gen_percell(g, c, o, rep) {
                Ok(b) => b,
                Err(_) => {
                    return Err(ConvertError::Cancelled);
                }
            }
        },
    };
    proof {
        assert(spec_generated_raw(*g, *c, *o, raw@));
        assert forall|k: int|
            0 <= k < raw@.len() implies (#[trigger] raw@[k]).wf() && raw@[k].z <= 0xFFFF_FF00
                && raw@[k].dz <= 0xFFFF_FF00 by {
            let b = raw@[k];
            if o.greedy {
                assert(spec_slab_uniform(*g, *c, *o, b));
                lemma_index_in_bounds(g.width as nat, g.height as nat, b.x as nat, b.y as nat);
                assert(g.spec_at(b.x as int, b.y as int) <= g.max_intensity);
                lemma_quantize_le_scale(
                    g.spec_at(b.x as int, b.y as int) as int,
                    g.max_intensity as int,
                    o.scale as int,
                );
            } else if o.quadtree {
                assert(spec_quad_brick_ok(*g, *c, *o, b));
                lemma_index_in_bounds(g.width as nat, g.height as nat, b.x as nat, b.y as nat);
                assert(g.spec_at(b.x as int, b.y as int) <= g.max_intensity);
                lemma_quantize_le_scale(
                    g.spec_at(b.x as int, b.y as int) as int,
                    g.max_intensity as int,
                    o.scale as int,
                );
            }
        }
    }
    let out: Vec<Brick> = post_process(&raw, o);
    proof {
        assert(spec_generated_raw(*g, *c, *o, raw@) && out@ == spec_post_seq(raw@, *o));
    }
    Ok(out)
}

} // verus!
