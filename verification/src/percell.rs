use vstd::prelude::*;
use vstd::arithmetic::div_mod::lemma_fundamental_div_mod_converse;
use crate::brick::Brick;
use crate::cells::{cell_brick, cell_culled, spec_cell_brick, spec_cell_culled, spec_inputs_valid};
use crate::error::ConvertError;
use crate::grid::{ColorGrid, HeightGrid};
use crate::options::GenOptions;
use crate::reporter::{ProgressReporter, Stage};

verus! {

/// The bricks the no-optimization strategy emits for the first `n` cells of
/// row `y`, in cell order: one column brick per kept cell.
pub open spec fn spec_percell_row(
    g: HeightGrid,
    c: Option<ColorGrid>,
    o: GenOptions,
    y: int,
    n: int,
) -> Seq<Brick>
    decreases n,
{
    if n <= 0 {
        Seq::empty()
    } else {
        spec_percell_row(g, c, o, y, n - 1) + if spec_cell_culled(g, c, o, n - 1, y) {
            Seq::empty()
        } else {
            seq![spec_cell_brick(g, c, o, n - 1, y)]
        }
    }
}

/// The bricks of the first `m` rows, row-major.
pub open spec fn spec_percell_rows(
    g: HeightGrid,
    c: Option<ColorGrid>,
    o: GenOptions,
    m: int,
) -> Seq<Brick>
    decreases m,
{
    if m <= 0 {
        Seq::empty()
    } else {
        spec_percell_rows(g, c, o, m - 1) + spec_percell_row(g, c, o, m - 1, g.width as int)
    }
}

/// The full output of the no-optimization strategy: one 1x1-footprint
/// column per kept cell, in row-major cell order.
pub open spec fn spec_percell(g: HeightGrid, c: Option<ColorGrid>, o: GenOptions) -> Seq<Brick> {
    spec_percell_rows(g, c, o, g.height as int)
}

proof fn lemma_percell_row_unculled(g: HeightGrid, c: Option<ColorGrid>, o: GenOptions, y: int, n: int)
    requires
        !o.cull,
        0 <= n,
    ensures
        spec_percell_row(g, c, o, y, n).len() == n,
        forall|j: int|
            0 <= j < n ==> spec_percell_row(g, c, o, y, n)[j] == spec_cell_brick(g, c, o, j, y),
    decreases n,
{
    if n > 0 {
        lemma_percell_row_unculled(g, c, o, y, n - 1);
    }
}

proof fn lemma_percell_rows_unculled(
    g: HeightGrid,
    c: Option<ColorGrid>,
    o: GenOptions,
    m: int,
)
    requires
        !o.cull,
        0 <= m,
        1 <= g.width,
    ensures
        spec_percell_rows(g, c, o, m).len() == m * g.width,
        forall|i: int|
            0 <= i < m * g.width ==> spec_percell_rows(g, c, o, m)[i] == spec_cell_brick(
                g,
                c,
                o,
                i % (g.width as int),
                i / (g.width as int),
            ),
    decreases m,
{
    let w = g.width as int;
    if m > 0 {
        lemma_percell_rows_unculled(g, c, o, m - 1);
        lemma_percell_row_unculled(g, c, o, m - 1, w);
        assert(m * w == (m - 1) * w + w) by (nonlinear_arith);
        assert forall|i: int| 0 <= i < m * w implies spec_percell_rows(g, c, o, m)[i]
            == spec_cell_brick(g, c, o, i % w, i / w) by {
            if i < (m - 1) * w {
            } else {
                lemma_fundamental_div_mod_converse(i, w, m - 1, i - (m - 1) * w);
                assert(spec_percell_rows(g, c, o, m)[i] == spec_percell_row(g, c, o, m - 1, w)[i - (m
                    - 1) * w]);
            }
        }
    } else {
        assert(m * w == 0) by (nonlinear_arith)
            requires
                m == 0,
        ;
    }
}

/// With culling disabled, the no-optimization strategy emits exactly
/// width x height bricks — one per grid cell, row-major — and every brick
/// is the 1x1-footprint column of its cell.
pub proof fn lemma_percell_exact(g: HeightGrid, c: Option<ColorGrid>, o: GenOptions)
    requires
        spec_inputs_valid(g, c, o),
        !o.cull,
    ensures
        spec_percell(g, c, o).len() == g.width * g.height,
        forall|i: int|
            0 <= i < spec_percell(g, c, o).len() ==> spec_percell(g, c, o)[i] == spec_cell_brick(
                g,
                c,
                o,
                i % (g.width as int),
                i / (g.width as int),
            ),
        forall|i: int|
            0 <= i < spec_percell(g, c, o).len() ==> (#[trigger] spec_percell(g, c, o)[i]).dx == 1
                && spec_percell(g, c, o)[i].dy == 1,
{
    lemma_percell_rows_unculled(g, c, o, g.height as int);
    assert((g.height as int) * (g.width as int) == (g.width as int) * (g.height as int))
        by (nonlinear_arith);
}

/// Runs the no-optimization strategy: one column brick per kept cell.
/// Progress is reported and cancellation polled once per row; on
/// cancellation no bricks are returned.
pub fn gen_percell<R: ProgressReporter>(
    g: &HeightGrid,
    c: &Option<ColorGrid>,
    o: &GenOptions,
    rep: &mut R,
) -> (r: Result<Vec<Brick>, ConvertError>)
    requires
        spec_inputs_valid(*g, *c, *o),
    ensures
        r is Ok ==> r->Ok_0@ == spec_percell(*g, *c, *o),
        r is Ok ==> forall|k: int|
            0 <= k < r->Ok_0@.len() ==> (#[trigger] r->Ok_0@[k]).wf() && r->Ok_0@[k].z == 0
                && r->Ok_0@[k].dz <= 100,
        r is Err ==> r->Err_0 is Cancelled,
{
    let w: usize = g.get_width();
    let h: usize = g.get_height();
    let mut out: Vec<Brick> = Vec::new();
    let mut y: usize = 0;
    while y < h
        invariant
            spec_inputs_valid(*g, *c, *o),
            w == g.width,
            h == g.height,
            y <= h,
            out@ == spec_percell_rows(*g, *c, *o, y as int),
            forall|k: int|
                0 <= k < out@.len() ==> (#[trigger] out@[k]).wf() && out@[k].z == 0 && out@[k].dz
                    <= 100,
        decreases h - y,
    {
        if !rep.report(Stage::Generating, y, h) {
            return Err(ConvertError::Cancelled);
        }
        let mut x: usize = 0;
        while x < w
            invariant
                spec_inputs_valid(*g, *c, *o),
                w == g.width,
                h == g.height,
                y < h,
                x <= w,
                out@ == spec_percell_rows(*g, *c, *o, y as int) + spec_percell_row(
                    *g,
                    *c,
                    *o,
                    y as int,
                    x as int,
                ),
                forall|k: int|
                    0 <= k < out@.len() ==> (#[trigger] out@[k]).wf() && out@[k].z == 0
                        && out@[k].dz <= 100,
            decreases w - x,
        {
            if !cell_culled(g, c, o, x, y) {
                out.push(cell_brick(g, c, o, x, y));
            }
            x = x + 1;
        }
        proof {
            assert(out@ =~= spec_percell_rows(*g, *c, *o, y + 1));
        }
        y = y + 1;
    }
    Ok(out)
}

} // verus!
