use vstd::prelude::*;
use vstd::arithmetic::div_mod::{lemma_fundamental_div_mod, lemma_mod_bound, lemma_mod_multiples_basic};
use crate::brick::Brick;
use crate::options::{GenOptions, spec_options_valid};

verus! {

/// The vertical brick-grid pitch is the vertical unit multiplier `scale`;
/// snapping rounds a coordinate to the nearest multiple of it, half-up:
/// `round(v / u) * u`.
pub open spec fn spec_snap_coord(v: int, u: int) -> int {
    ((2 * v + u) / (2 * u)) * u
}

/// Snapping an extent keeps it at least one grid unit.
pub open spec fn spec_snap_extent(v: int, u: int) -> int {
    if spec_snap_coord(v, u) < u {
        u
    } else {
        spec_snap_coord(v, u)
    }
}

/// The uniform cross-strategy post-processing of one emitted brick:
/// `nocollide` clears collision, `glow` raises emission to the lowest
/// non-zero level, `snap` aligns the vertical geometry to the brick grid,
/// and the selected brick family is recorded.
pub open spec fn spec_post_brick(b: Brick, o: GenOptions) -> Brick {
    Brick {
        z: if o.snap {
            spec_snap_coord(b.z as int, o.scale as int) as u32
        } else {
            b.z
        },
        dz: if o.snap {
            spec_snap_extent(b.dz as int, o.scale as int) as u32
        } else {
            b.dz
        },
        collision: !o.nocollide,
        emission: if o.glow {
            1
        } else {
            0
        },
        asset: o.asset,
        ..b
    }
}

/// Post-processing applied to a whole brick sequence, in order.
pub open spec fn spec_post_seq(s: Seq<Brick>, o: GenOptions) -> Seq<Brick> {
    s.map_values(|b: Brick| spec_post_brick(b, o))
}

/// A snapped coordinate is an exact multiple of the grid unit and moves by
/// less than one unit.
pub proof fn lemma_snap_coord(v: int, u: int)
    requires
        0 <= v,
        1 <= u,
    ensures
        spec_snap_coord(v, u) % u == 0,
        0 <= spec_snap_coord(v, u) <= v + u,
        0 <= (2 * v + u) / (2 * u) <= v + 1,
{
    let d = 2 * u;
    let n = 2 * v + u;
    let k = n / d;
    lemma_fundamental_div_mod(n, d);
    lemma_mod_bound(n, d);
    assert(d * k <= n);
    assert(0 <= k) by (nonlinear_arith)
        requires
            n == d * k + (n % d),
            0 <= n % d < d,
            0 <= n,
            2 <= d,
    ;
    assert(k <= v + 1) by (nonlinear_arith)
        requires
            d * k <= n,
            d == 2 * u,
            n == 2 * v + u,
            0 <= v,
            1 <= u,
            0 <= k,
    ;
    assert(k * u <= v + u) by (nonlinear_arith)
        requires
            d * k <= n,
            d == 2 * u,
            n == 2 * v + u,
            0 <= v,
            1 <= u,
            0 <= k,
    ;
    assert(0 <= k * u) by (nonlinear_arith)
        requires
            0 <= k,
            1 <= u,
    ;
    lemma_mod_multiples_basic(k, u);
}

/// With `snap` set, every post-processed brick's vertical base and
/// extent are exact multiples of the brick-grid unit `scale`, and the
/// extent spans at least one grid unit.
pub proof fn lemma_snap_alignment(b: Brick, o: GenOptions)
    requires
        spec_options_valid(o),
        o.snap,
        b.z <= 0xFFFF_FF00,
        b.dz <= 0xFFFF_FF00,
    ensures
        spec_post_brick(b, o).z % o.scale == 0,
        spec_post_brick(b, o).dz % o.scale == 0,
        spec_post_brick(b, o).dz >= o.scale,
{
    lemma_snap_coord(b.z as int, o.scale as int);
    lemma_snap_coord(b.dz as int, o.scale as int);
    lemma_mod_multiples_basic(1, o.scale as int);
}

/// Applies the post-processing policies to one brick; see
/// [`spec_post_brick`].
pub fn post_brick(b: &Brick, o: &GenOptions) -> (r: Brick)
    requires
        spec_options_valid(*o),
        b.z <= 0xFFFF_FF00,
        b.dz <= 0xFFFF_FF00,
        b.wf(),
    ensures
        r == spec_post_brick(*b, *o),
        r.wf(),
        r.z <= 0xFFFF_FFC8,
        r.dz <= 0xFFFF_FFC8,
{
    proof {
        lemma_snap_coord(b.z as int, o.scale as int);
        lemma_snap_coord(b.dz as int, o.scale as int);
    }
    let z: u32 = if o.snap {
        snap_coord(b.z, o.scale)
    } else {
        b.z
    };
    let dz: u32 = if o.snap {
        let s: u32 = snap_coord(b.dz, o.scale);
        if s < o.scale {
            o.scale
        } else {
            s
        }
    } else {
        b.dz
    };
    Brick {
        z,
        dz,
        collision: !o.nocollide,
        emission: if o.glow {
            1
        } else {
            0
        },
        asset: o.asset,
        ..*b
    }
}

/// Rounds one coordinate to the nearest multiple of the grid unit; see
/// [`spec_snap_coord`].
fn snap_coord(v: u32, u: u32) -> (r: u32)
    requires
        1 <= u <= 100,
        v <= 0xFFFF_FF00,
    ensures
        r == spec_snap_coord(v as int, u as int),
        r <= v + u,
{
    proof {
        lemma_snap_coord(v as int, u as int);
    }
    let n: u64 = 2 * (v as u64) + (u as u64);
    let d: u64 = 2 * (u as u64);
    let k: u64 = n / d;
    assert(k * (u as int) <= (v as int) + u);
    (k as u32) * u
}

/// Applies the post-processing policies to every emitted brick, in order;
/// see [`spec_post_seq`].
pub fn post_process(bricks: &Vec<Brick>, o: &GenOptions) -> (r: Vec<Brick>)
    requires
        spec_options_valid(*o),
        forall|i: int|
            0 <= i < bricks@.len() ==> (#[trigger] bricks@[i]).z <= 0xFFFF_FF00 && bricks@[i].dz
                <= 0xFFFF_FF00 && bricks@[i].wf(),
    ensures
        r@ == spec_post_seq(bricks@, *o),
        forall|i: int| 0 <= i < r@.len() ==> (#[trigger] r@[i]).wf(),
{
    let n: usize = bricks.len();
    let mut out: Vec<Brick> = Vec::new();
    let mut i: usize = 0;
    while i < n
        invariant
            i <= n,
            n == bricks@.len(),
            spec_options_valid(*o),
            forall|j: int|
                0 <= j < bricks@.len() ==> (#[trigger] bricks@[j]).z <= 0xFFFF_FF00
                    && bricks@[j].dz <= 0xFFFF_FF00 && bricks@[j].wf(),
            out@ == spec_post_seq(bricks@.subrange(0, i as int), *o),
            forall|j: int| 0 <= j < out@.len() ==> (#[trigger] out@[j]).wf(),
        decreases n - i,
    {
        let b: Brick = post_brick(&bricks[i], o);
        out.push(b);
        proof {
            assert(bricks@.subrange(0, i + 1) =~= bricks@.subrange(0, i as int).push(
                bricks@[i as int]));
            assert(out@ =~= spec_post_seq(bricks@.subrange(0, i + 1), *o));
        }
        i = i + 1;
    }
    proof {
        assert(bricks@.subrange(0, n as int) =~= bricks@);
    }
    out
}

} // verus!
