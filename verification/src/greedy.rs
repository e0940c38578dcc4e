use vstd::prelude::*;
use crate::brick::{Brick, spec_top_of, top_of};
use crate::cells::{cell_color, spec_cell_color, spec_inputs_valid};
use crate::color::Color;
use crate::error::ConvertError;
use crate::grid::{ColorGrid, HeightGrid, lemma_index_in_bounds};
use crate::options::GenOptions;
use crate::reporter::{ProgressReporter, Stage};

verus! {

/// An axis-aligned run of cells, the footprint a greedy-merged brick will
/// take: covers cells `[x, x+dx) x [y, y+dy)`.
#[derive(Debug, Clone, Copy, PartialEq, Eq, Structural)]
pub struct CellRect {
    pub x: usize,
    pub y: usize,
    pub dx: usize,
    pub dy: usize,
}

impl CellRect {
    /// A non-empty rectangle lying inside a `w x h` grid.
    pub open spec fn wf(&self, w: int, h: int) -> bool {
        &&& 1 <= self.dx
        &&& 1 <= self.dy
        &&& self.x + self.dx <= w
        &&& self.y + self.dy <= h
    }

    /// True when cell `(cx, cy)` lies inside the rectangle.
    pub open spec fn covers(&self, cx: int, cy: int) -> bool {
        &&& self.x <= cx < self.x + self.dx
        &&& self.y <= cy < self.y + self.dy
    }
}

/// True when some rectangle of the sequence covers cell `(cx, cy)`.
pub open spec fn spec_covered_by(rs: Seq<CellRect>, cx: int, cy: int) -> bool {
    exists|k: int| 0 <= k < rs.len() && (#[trigger] rs[k]).covers(cx, cy)
}

/// True when a rectangle before position `k` of the sequence covers cell
/// `(cx, cy)`.
pub open spec fn spec_covered_before(rs: Seq<CellRect>, k: int, cx: int, cy: int) -> bool {
    exists|j: int| 0 <= j < k && j < rs.len() && (#[trigger] rs[j]).covers(cx, cy)
}

/// The greedy growth rule, as a property of the emitted sequence: the
/// rectangle at position `k` could grow no further right — the next cell
/// is off the grid, false in the mask, or already covered when it was
/// grown — and no further down, where some cell of the next full-width
/// row is off, false, or covered.
pub open spec fn spec_rect_right_maximal(rs: Seq<CellRect>, k: int, mask: Seq<bool>, w: int) -> bool {
    let rc = rs[k];
    ||| rc.x + rc.dx == w
    ||| !spec_mask_at(mask, w, rc.x + rc.dx, rc.y as int)
    ||| spec_covered_before(rs, k, rc.x + rc.dx, rc.y as int)
}

pub open spec fn spec_rect_down_maximal(
    rs: Seq<CellRect>,
    k: int,
    mask: Seq<bool>,
    w: int,
    h: int,
) -> bool {
    let rc = rs[k];
    ||| rc.y + rc.dy == h
    ||| !(forall|cx: int|
        rc.x <= cx < rc.x + rc.dx ==> #[trigger] spec_mask_at(mask, w, cx, rc.y + rc.dy)
            && !spec_covered_before(rs, k, cx, rc.y + rc.dy))
}

/// The seed rule: every true cell scanning row-major before the
/// rectangle's corner was already covered when the rectangle was seeded,
/// so each rectangle starts at the first uncovered true cell.
pub open spec fn spec_rect_seed_first(rs: Seq<CellRect>, k: int, mask: Seq<bool>, w: int) -> bool {
    forall|cx: int, cy: int|
        0 <= cx < w && 0 <= cy && (cy < rs[k].y || (cy == rs[k].y && cx < rs[k].x))
            && #[trigger] spec_mask_at(mask, w, cx, cy) ==> spec_covered_before(rs, k, cx, cy)
}

/// The value of cell `(cx, cy)` in a row-major boolean grid of width `w`.
pub open spec fn spec_mask_at(mask: Seq<bool>, w: int, cx: int, cy: int) -> bool {
    mask[cy * w + cx]
}

/// A cell's index lies in the contiguous index range of a row segment
/// exactly when the cell lies in the segment.
proof fn lemma_row_range(w: int, y: int, x0: int, x1: int, cx: int, cy: int)
    requires
        0 <= cx < w,
        0 <= cy,
        0 <= y,
        0 <= x0 <= x1 <= w,
    ensures
        (y * w + x0 <= cy * w + cx < y * w + x1) <==> (cy == y && x0 <= cx < x1),
{
    assert((y * w + x0 <= cy * w + cx < y * w + x1) <==> (cy == y && x0 <= cx < x1))
        by (nonlinear_arith)
        requires
            0 <= cx < w,
            0 <= cy,
            0 <= y,
            0 <= x0 <= x1 <= w,
    ;
}

/// Adding a rectangle extends coverage by exactly that rectangle's cells.
proof fn lemma_covered_by_push(rs: Seq<CellRect>, r: CellRect, cx: int, cy: int)
    ensures
        spec_covered_by(rs.push(r), cx, cy) <==> (spec_covered_by(rs, cx, cy) || r.covers(cx, cy)),
{
    if spec_covered_by(rs, cx, cy) {
        let k = choose|k: int| 0 <= k < rs.len() && (#[trigger] rs[k]).covers(cx, cy);
        assert(rs.push(r)[k].covers(cx, cy));
    }
    if r.covers(cx, cy) {
        assert(rs.push(r)[rs.len() as int].covers(cx, cy));
    }
    if spec_covered_by(rs.push(r), cx, cy) {
        let k = choose|k: int| 0 <= k < rs.push(r).len() && (#[trigger] rs.push(r)[k]).covers(
            cx,
            cy,
        );
        if k < rs.len() {
            assert(rs[k].covers(cx, cy));
        }
    }
}

/// Marks the cells `[x0, x1)` of row `y` covered, leaving every other cell
/// as it was.
fn mark_row(covered: &mut Vec<bool>, w: usize, h: usize, y: usize, x0: usize, x1: usize)
    requires
        old(covered)@.len() == w * h,
        x0 <= x1 <= w,
        y < h,
        1 <= w,
    ensures
        final(covered)@.len() == w * h,
        forall|cx: int, cy: int|
            0 <= cx < w && 0 <= cy < h ==> #[trigger] spec_mask_at(final(covered)@, w as int, cx, cy)
                == (spec_mask_at(old(covered)@, w as int, cx, cy) || (cy == y && x0 <= cx < x1)),
{
    proof {
        lemma_index_in_bounds(w as nat, h as nat, (w - 1) as nat, y as nat);
    }
    // binding the length keeps the row indices in machine range
    let _len: usize = covered.len();
    let base: usize = y * w;
    let mut xx: usize = x0;
    while xx < x1
        invariant
            x0 <= xx <= x1 <= w,
            1 <= w,
            y < h,
            base == y * w,
            base + w <= covered@.len(),
            covered@.len() == w * h,
            covered@.len() <= usize::MAX,
            forall|i: int|
                0 <= i < covered@.len() ==> covered@[i] == (old(covered)@[i] || (base + x0 <= i
                    < base + xx)),
        decreases x1 - xx,
    {
        covered.set(base + xx, true);
        xx = xx + 1;
    }
    proof {
        assert forall|cx: int, cy: int| 0 <= cx < w && 0 <= cy < h implies #[trigger] spec_mask_at(
            covered@,
            w as int,
            cx,
            cy,
        ) == (spec_mask_at(old(covered)@, w as int, cx, cy) || (cy == y && x0 <= cx < x1)) by {
            lemma_index_in_bounds(w as nat, h as nat, cx as nat, cy as nat);
            lemma_row_range(w as int, y as int, x0 as int, x1 as int, cx, cy);
        }
    }
}

/// True when cell `(cx, cy)` is true in the mask and not yet covered.
fn cell_clear(mask: &Vec<bool>, covered: &Vec<bool>, w: usize, h: usize, cx: usize, cy: usize) -> (r:
    bool)
    requires
        mask@.len() == w * h,
        covered@.len() == w * h,
        cx < w,
        cy < h,
        1 <= w,
    ensures
        r == (spec_mask_at(mask@, w as int, cx as int, cy as int) && !spec_mask_at(
            covered@,
            w as int,
            cx as int,
            cy as int,
        )),
{
    // binding the length keeps the cell index in machine range
    let _len: usize = mask.len();
    proof {
        lemma_index_in_bounds(w as nat, h as nat, cx as nat, cy as nat);
    }
    mask[cy * w + cx] && !covered[cy * w + cx]
}

/// True when the cells `[x, x+dx)` of row `yy` are all true in the mask and
/// not yet covered.
fn row_clear(mask: &Vec<bool>, covered: &Vec<bool>, w: usize, h: usize, x: usize, yy: usize, dx:
    usize) -> (r: bool)
    requires
        mask@.len() == w * h,
        covered@.len() == w * h,
        x + dx <= w,
        1 <= dx,
        yy < h,
        1 <= w,
    ensures
        r == forall|cx: int|
            x <= cx < x + dx ==> #[trigger] spec_mask_at(mask@, w as int, cx, yy as int)
                && !spec_mask_at(covered@, w as int, cx, yy as int),
{
    let mut xx: usize = 0;
    while xx < dx
        invariant
            xx <= dx,
            x + dx <= w,
            yy < h,
            1 <= dx,
            1 <= w,
            mask@.len() == w * h,
            covered@.len() == w * h,
            forall|cx: int|
                x <= cx < x + xx ==> #[trigger] spec_mask_at(mask@, w as int, cx, yy as int)
                    && !spec_mask_at(covered@, w as int, cx, yy as int),
        decreases dx - xx,
    {
        if !cell_clear(mask, covered, w, h, x + xx, yy) {
            return false;
        }
        xx = xx + 1;
    }
    true
}

/// Greedily covers the true cells of a row-major boolean mask with
/// axis-aligned rectangles: scanning in row-major order, each uncovered
/// true cell seeds a rectangle grown maximally rightward, then maximally
/// downward while the full width stays true and uncovered.
///
/// The result is a partition of the mask: rectangles contain only true
/// cells, are pairwise non-overlapping, and together cover every true cell
/// exactly once.
pub fn cover_mask(mask: &Vec<bool>, w: usize, h: usize) -> (r: Vec<CellRect>)
    requires
        mask@.len() == w * h,
        1 <= w,
        1 <= h,
    ensures
        forall|k: int| 0 <= k < r@.len() ==> (#[trigger] r@[k]).wf(w as int, h as int),
        forall|k: int, cx: int, cy: int|
            0 <= k < r@.len() && #[trigger] r@[k].covers(cx, cy) ==> spec_mask_at(
                mask@,
                w as int,
                cx,
                cy,
            ),
        forall|k1: int, k2: int, cx: int, cy: int|
            #![trigger r@[k1].covers(cx, cy), r@[k2].covers(cx, cy)]
            0 <= k1 < k2 < r@.len() && r@[k1].covers(cx, cy) ==> !r@[k2].covers(cx, cy),
        forall|cx: int, cy: int|
            0 <= cx < w && 0 <= cy < h && #[trigger] spec_mask_at(mask@, w as int, cx, cy)
                ==> spec_covered_by(r@, cx, cy),
        forall|k: int|
            0 <= k < r@.len() ==> #[trigger] spec_rect_right_maximal(r@, k, mask@, w as int),
        forall|k: int|
            0 <= k < r@.len() ==> #[trigger] spec_rect_down_maximal(
                r@,
                k,
                mask@,
                w as int,
                h as int,
            ),
        forall|k: int|
            0 <= k < r@.len() ==> #[trigger] spec_rect_seed_first(r@, k, mask@, w as int),
{
    let ghost wi: int = w as int;
    let mut covered: Vec<bool> = Vec::new();
    let n: usize = mask.len();
    let mut i: usize = 0;
    while i < n
        invariant
            i <= n,
            covered@.len() == i,
            forall|j: int| 0 <= j < i ==> covered@[j] == false,
        decreases n - i,
    {
        covered.push(false);
        i = i + 1;
    }
    let mut rects: Vec<CellRect> = Vec::new();
    proof {
        assert forall|cx: int, cy: int| 0 <= cx < w && 0 <= cy < h implies #[trigger] spec_mask_at(
            covered@,
            wi,
            cx,
            cy,
        ) == spec_covered_by(rects@, cx, cy) by {
            lemma_index_in_bounds(w as nat, h as nat, cx as nat, cy as nat);
        }
    }
    let mut y: usize = 0;
    while y < h
        invariant
            y <= h,
            n == w * h,
            wi == w as int,
            1 <= w,
            1 <= h,
            mask@.len() == n,
            covered@.len() == n,
            forall|cx: int, cy: int|
                0 <= cx < w && 0 <= cy < h ==> #[trigger] spec_mask_at(covered@, wi, cx, cy)
                    == spec_covered_by(rects@, cx, cy),
            forall|k: int| 0 <= k < rects@.len() ==> (#[trigger] rects@[k]).wf(wi, h as int),
            forall|k: int, cx: int, cy: int|
                0 <= k < rects@.len() && #[trigger] rects@[k].covers(cx, cy) ==> spec_mask_at(
                    mask@,
                    wi,
                    cx,
                    cy,
                ),
            forall|k1: int, k2: int, cx: int, cy: int|
                #![trigger rects@[k1].covers(cx, cy), rects@[k2].covers(cx, cy)]
                0 <= k1 < k2 < rects@.len() && rects@[k1].covers(cx, cy) ==> !rects@[k2].covers(
                    cx,
                    cy,
                ),
            forall|cx: int, cy: int|
                0 <= cx < w && 0 <= cy < y && #[trigger] spec_mask_at(mask@, wi, cx, cy)
                    ==> spec_covered_by(rects@, cx, cy),
            forall|k: int|
                0 <= k < rects@.len() ==> #[trigger] spec_rect_right_maximal(rects@, k, mask@, wi),
            forall|k: int|
                0 <= k < rects@.len() ==> #[trigger] spec_rect_down_maximal(
                    rects@,
                    k,
                    mask@,
                    wi,
                    h as int,
                ),
            forall|k: int|
                0 <= k < rects@.len() ==> #[trigger] spec_rect_seed_first(rects@, k, mask@, wi),
        decreases h - y,
    {
        let mut x: usize = 0;
        while x < w
            invariant
                x <= w,
                y < h,
                n == w * h,
            wi == w as int,
                1 <= w,
                1 <= h,
                mask@.len() == n,
                covered@.len() == n,
                forall|cx: int, cy: int|
                    0 <= cx < w && 0 <= cy < h ==> #[trigger] spec_mask_at(covered@, wi, cx, cy)
                        == spec_covered_by(rects@, cx, cy),
                forall|k: int| 0 <= k < rects@.len() ==> (#[trigger] rects@[k]).wf(wi, h as int),
                forall|k: int, cx: int, cy: int|
                    0 <= k < rects@.len() && #[trigger] rects@[k].covers(cx, cy) ==> spec_mask_at(
                        mask@,
                        wi,
                        cx,
                        cy,
                    ),
                forall|k1: int, k2: int, cx: int, cy: int|
                    #![trigger rects@[k1].covers(cx, cy), rects@[k2].covers(cx, cy)]
                    0 <= k1 < k2 < rects@.len() && rects@[k1].covers(cx, cy) ==> !rects@[k2].covers(
                        cx,
                        cy,
                    ),
                forall|cx: int, cy: int|
                    0 <= cx < w && 0 <= cy < y && #[trigger] spec_mask_at(mask@, wi, cx, cy)
                        ==> spec_covered_by(rects@, cx, cy),
                forall|cx: int|
                    0 <= cx < x && #[trigger] spec_mask_at(mask@, wi, cx, y as int)
                        ==> spec_covered_by(rects@, cx, y as int),
                forall|k: int|
                    0 <= k < rects@.len() ==> #[trigger] spec_rect_right_maximal(
                        rects@,
                        k,
                        mask@,
                        wi,
                    ),
                forall|k: int|
                    0 <= k < rects@.len() ==> #[trigger] spec_rect_down_maximal(
                        rects@,
                        k,
                        mask@,
                        wi,
                        h as int,
                    ),
                forall|k: int|
                    0 <= k < rects@.len() ==> #[trigger] spec_rect_seed_first(rects@, k, mask@, wi),
            decreases w - x,
        {
            if cell_clear(mask, &covered, w, h, x, y) {
                let mut dx: usize = 1;
                while x + dx < w && cell_clear(mask, &covered, w, h, x + dx, y)
                    invariant
                        1 <= dx,
                        x + dx <= w,
                        x < w,
                        y < h,
                        1 <= w,
                        1 <= h,
                        n == w * h,
            wi == w as int,
                        mask@.len() == n,
                        covered@.len() == n,
                        forall|cx: int|
                            x <= cx < x + dx ==> #[trigger] spec_mask_at(mask@, wi, cx, y as int)
                                && !spec_mask_at(covered@, wi, cx, y as int),
                    decreases w - dx,
                {
                    dx = dx + 1;
                }
                let mut dy: usize = 1;
                while y + dy < h && row_clear(mask, &covered, w, h, x, y + dy, dx)
                    invariant
                        1 <= dy,
                        y + dy <= h,
                        x + dx <= w,
                        1 <= dx,
                        y < h,
                        1 <= w,
                        1 <= h,
                        n == w * h,
            wi == w as int,
                        mask@.len() == n,
                        covered@.len() == n,
                        forall|cx: int, cy: int|
                            x <= cx < x + dx && y <= cy < y + dy ==> #[trigger] spec_mask_at(
                                mask@,
                                wi,
                                cx,
                                cy,
                            ) && !spec_mask_at(covered@, wi, cx, cy),
                    decreases h - dy,
                {
                    dy = dy + 1;
                }
                let rect = CellRect { x, y, dx, dy };
                let ghost covered_before = covered@;
                let mut yy: usize = 0;
                while yy < dy
                    invariant
                        yy <= dy,
                        rect == (CellRect { x, y, dx, dy }),
                        1 <= dx,
                        1 <= dy,
                        x + dx <= w,
                        y + dy <= h,
                        y < h,
                        1 <= w,
                        1 <= h,
                        n == w * h,
            wi == w as int,
                        covered@.len() == n,
                        forall|cx: int, cy: int|
                            0 <= cx < w && 0 <= cy < h ==> #[trigger] spec_mask_at(
                                covered@,
                                wi,
                                cx,
                                cy,
                            ) == (spec_mask_at(covered_before, wi, cx, cy) || (x <= cx < x + dx && y
                                <= cy < y + yy)),
                    decreases dy - yy,
                {
                    mark_row(&mut covered, w, h, y + yy, x, x + dx);
                    yy = yy + 1;
                }
                let ghost old_rects = rects@;
                rects.push(rect);
                proof {
                    // covered mirrors the union including the new rectangle
                    assert forall|cx: int, cy: int| 0 <= cx < w && 0 <= cy < h implies
                        #[trigger] spec_mask_at(covered@, wi, cx, cy) == spec_covered_by(
                        rects@,
                        cx,
                        cy,
                    ) by {
                        lemma_covered_by_push(old_rects, rect, cx, cy);
                    }
                    // soundness of every rectangle, the new one included
                    assert forall|k: int, cx: int, cy: int|
                        0 <= k < rects@.len() && #[trigger] rects@[k].covers(cx, cy)
                            implies spec_mask_at(mask@, wi, cx, cy) by {
                        if k < old_rects.len() {
                            assert(old_rects[k].covers(cx, cy));
                        } else {
                            assert(rect.covers(cx, cy));
                        }
                    }
                    // the new rectangle overlaps no earlier one
                    assert forall|k1: int, k2: int, cx: int, cy: int|
                        #![trigger rects@[k1].covers(cx, cy), rects@[k2].covers(cx, cy)]
                        0 <= k1 < k2 < rects@.len() && rects@[k1].covers(cx, cy) implies !rects@[k2].covers(
                        cx,
                        cy,
                    ) by {
                        if k2 == old_rects.len() && rects@[k1].covers(cx, cy) && rects@[k2].covers(
                            cx,
                            cy,
                        ) {
                            assert(old_rects[k1].covers(cx, cy));
                            assert(rect.covers(cx, cy));
                            assert(0 <= cx < w && 0 <= cy < h);
                            assert(spec_covered_by(old_rects, cx, cy));
                            assert(spec_mask_at(covered_before, wi, cx, cy));
                            assert(false);
                        }
                    }
                    // coverage only grew, and the seed cell is now covered
                    assert forall|cx: int, cy: int|
                        spec_covered_by(old_rects, cx, cy) implies spec_covered_by(
                        rects@,
                        cx,
                        cy,
                    ) by {
                        lemma_covered_by_push(old_rects, rect, cx, cy);
                    }
                    assert(rect.covers(x as int, y as int));
                    lemma_covered_by_push(old_rects, rect, x as int, y as int);
                    // a prefix of earlier rectangles covers the same cells
                    // before and after the push
                    assert forall|k: int, cx: int, cy: int|
                        0 <= k <= old_rects.len() implies #[trigger] spec_covered_before(
                        rects@,
                        k,
                        cx,
                        cy,
                    ) == spec_covered_before(old_rects, k, cx, cy) by {
                        if spec_covered_before(rects@, k, cx, cy) {
                            let j = choose|j: int|
                                0 <= j < k && j < rects@.len() && (#[trigger] rects@[j]).covers(
                                    cx,
                                    cy,
                                );
                            assert(old_rects[j].covers(cx, cy));
                        }
                        if spec_covered_before(old_rects, k, cx, cy) {
                            let j = choose|j: int|
                                0 <= j < k && j < old_rects.len() && (
                                #[trigger] old_rects[j]).covers(cx, cy);
                            assert(rects@[j].covers(cx, cy));
                        }
                    }
                    // the prefix before the new rectangle is exactly the
                    // earlier coverage, which `covered` mirrored at growth
                    assert forall|cx: int, cy: int|
                        0 <= cx < w && 0 <= cy < h implies #[trigger] spec_covered_before(
                        rects@,
                        old_rects.len() as int,
                        cx,
                        cy,
                    ) == spec_mask_at(covered_before, wi, cx, cy) by {
                        assert(spec_covered_before(rects@, old_rects.len() as int, cx, cy)
                            == spec_covered_before(old_rects, old_rects.len() as int, cx, cy));
                        if spec_covered_before(old_rects, old_rects.len() as int, cx, cy) {
                            let j = choose|j: int|
                                0 <= j < old_rects.len() && (#[trigger] old_rects[j]).covers(
                                    cx,
                                    cy,
                                );
                            assert(spec_covered_by(old_rects, cx, cy));
                        }
                        if spec_covered_by(old_rects, cx, cy) {
                            let j = choose|j: int|
                                0 <= j < old_rects.len() && (#[trigger] old_rects[j]).covers(
                                    cx,
                                    cy,
                                );
                            assert(spec_covered_before(old_rects, old_rects.len() as int, cx, cy));
                        }
                    }
                    // the new rectangle could grow no further right
                    assert(spec_rect_right_maximal(rects@, old_rects.len() as int, mask@, wi)) by {
                        if x + dx < w {
                            assert(!(spec_mask_at(mask@, wi, x + dx, y as int) && !spec_mask_at(
                                covered_before,
                                wi,
                                x + dx,
                                y as int,
                            )));
                        }
                    }
                    // nor any further down
                    assert(spec_rect_down_maximal(
                        rects@,
                        old_rects.len() as int,
                        mask@,
                        wi,
                        h as int,
                    )) by {
                        if y + dy < h {
                            assert(!(forall|cx: int|
                                x <= cx < x + dx ==> #[trigger] spec_mask_at(
                                    mask@,
                                    wi,
                                    cx,
                                    (y + dy) as int,
                                ) && !spec_mask_at(covered_before, wi, cx, (y + dy) as int)));
                            if forall|cx: int|
                                x <= cx < x + dx ==> #[trigger] spec_mask_at(
                                    mask@,
                                    wi,
                                    cx,
                                    (y + dy) as int,
                                ) && !spec_covered_before(
                                    rects@,
                                    old_rects.len() as int,
                                    cx,
                                    (y + dy) as int,
                                ) {
                                assert forall|cx: int|
                                    x <= cx < x + dx implies #[trigger] spec_mask_at(
                                    mask@,
                                    wi,
                                    cx,
                                    (y + dy) as int,
                                ) && !spec_mask_at(covered_before, wi, cx, (y + dy) as int) by {
                                    assert(spec_mask_at(mask@, wi, cx, (y + dy) as int)
                                        && !spec_covered_before(
                                        rects@,
                                        old_rects.len() as int,
                                        cx,
                                        (y + dy) as int,
                                    ));
                                }
                                assert(false);
                            }
                        }
                    }
                    // the new rectangle was seeded at the first uncovered
                    // true cell of the row-major scan
                    assert(spec_rect_seed_first(rects@, old_rects.len() as int, mask@, wi)) by {
                        assert forall|cx: int, cy: int|
                            0 <= cx < w && 0 <= cy && (cy < y || (cy == y && cx < x))
                                && #[trigger] spec_mask_at(mask@, wi, cx, cy)
                                implies spec_covered_before(
                            rects@,
                            old_rects.len() as int,
                            cx,
                            cy,
                        ) by {
                            assert(cy < h) by (nonlinear_arith)
                                requires
                                    0 <= cy <= y,
                                    y < h,
                            ;
                            assert(spec_covered_by(old_rects, cx, cy));
                            let j = choose|j: int|
                                0 <= j < old_rects.len() && (#[trigger] old_rects[j]).covers(
                                    cx,
                                    cy,
                                );
                            assert(rects@[j].covers(cx, cy));
                        }
                    }
                    // earlier rectangles keep the seed rule: their prefixes
                    // are untouched
                    assert forall|k: int|
                        0 <= k < old_rects.len() implies #[trigger] spec_rect_seed_first(
                        rects@,
                        k,
                        mask@,
                        wi,
                    ) by {
                        assert(rects@[k] == old_rects[k]);
                        assert(spec_rect_seed_first(old_rects, k, mask@, wi));
                        assert forall|cx: int, cy: int|
                            0 <= cx < w && 0 <= cy && (cy < rects@[k].y || (cy == rects@[k].y && cx
                                < rects@[k].x)) && #[trigger] spec_mask_at(mask@, wi, cx, cy)
                                implies spec_covered_before(rects@, k, cx, cy) by {
                            assert(spec_covered_before(old_rects, k, cx, cy));
                            let j = choose|j: int|
                                0 <= j < k && j < old_rects.len() && (
                                #[trigger] old_rects[j]).covers(cx, cy);
                            assert(rects@[j].covers(cx, cy));
                        }
                    }
                    // earlier rectangles keep their maximality: their
                    // prefixes are untouched
                    assert forall|k: int|
                        0 <= k < old_rects.len() implies #[trigger] spec_rect_right_maximal(
                        rects@,
                        k,
                        mask@,
                        wi,
                    ) by {
                        assert(rects@[k] == old_rects[k]);
                        assert(spec_rect_right_maximal(old_rects, k, mask@, wi));
                        if !(old_rects[k].x + old_rects[k].dx == wi) && !(!spec_mask_at(
                            mask@,
                            wi,
                            old_rects[k].x + old_rects[k].dx,
                            old_rects[k].y as int,
                        )) {
                            assert(spec_covered_before(
                                old_rects,
                                k,
                                old_rects[k].x + old_rects[k].dx,
                                old_rects[k].y as int,
                            ));
                            let j = choose|j: int|
                                0 <= j < k && j < old_rects.len() && (
                                #[trigger] old_rects[j]).covers(
                                    old_rects[k].x + old_rects[k].dx,
                                    old_rects[k].y as int,
                                );
                            assert(rects@[j].covers(
                                old_rects[k].x + old_rects[k].dx,
                                old_rects[k].y as int,
                            ));
                        }
                    }
                    assert forall|k: int|
                        0 <= k < old_rects.len() implies #[trigger] spec_rect_down_maximal(
                        rects@,
                        k,
                        mask@,
                        wi,
                        h as int,
                    ) by {
                        assert(rects@[k] == old_rects[k]);
                        assert(spec_rect_down_maximal(old_rects, k, mask@, wi, h as int));
                        let rc = old_rects[k];
                        if rc.y + rc.dy != h {
                            assert(!(forall|cx: int|
                                rc.x <= cx < rc.x + rc.dx ==> #[trigger] spec_mask_at(
                                    mask@,
                                    wi,
                                    cx,
                                    rc.y + rc.dy,
                                ) && !spec_covered_before(old_rects, k, cx, rc.y + rc.dy)));
                            if forall|cx: int|
                                rc.x <= cx < rc.x + rc.dx ==> #[trigger] spec_mask_at(
                                    mask@,
                                    wi,
                                    cx,
                                    rc.y + rc.dy,
                                ) && !spec_covered_before(rects@, k, cx, rc.y + rc.dy) {
                                assert forall|cx: int|
                                    rc.x <= cx < rc.x + rc.dx implies #[trigger] spec_mask_at(
                                    mask@,
                                    wi,
                                    cx,
                                    rc.y + rc.dy,
                                ) && !spec_covered_before(old_rects, k, cx, rc.y + rc.dy) by {
                                    assert(spec_mask_at(mask@, wi, cx, rc.y + rc.dy)
                                        && !spec_covered_before(rects@, k, cx, rc.y + rc.dy));
                                    if spec_covered_before(old_rects, k, cx, rc.y + rc.dy) {
                                        let j = choose|j: int|
                                            0 <= j < k && j < old_rects.len() && (
                                            #[trigger] old_rects[j]).covers(cx, rc.y + rc.dy);
                                        assert(rects@[j].covers(cx, rc.y + rc.dy));
                                    }
                                }
                                assert(false);
                            }
                        }
                    }
                }
            }
            x = x + 1;
        }
        y = y + 1;
    }
    rects
}


/// The greedy strategy keeps a cell unless culling drops it for full
/// transparency; elevation-based bottom culling does not apply to slabs.
pub open spec fn spec_greedy_kept(
    g: HeightGrid,
    c: Option<ColorGrid>,
    o: GenOptions,
    cx: int,
    cy: int,
) -> bool {
    !(o.cull && spec_cell_color(c, cx, cy).a == 0)
}

/// Membership of a cell in the occupancy mask of one elevation level and
/// one color class.
pub open spec fn spec_greedy_cell(
    g: HeightGrid,
    c: Option<ColorGrid>,
    o: GenOptions,
    lev: u32,
    col: Color,
    cx: int,
    cy: int,
) -> bool {
    &&& g.spec_at(cx, cy) == lev
    &&& spec_cell_color(c, cx, cy) == col
    &&& spec_greedy_kept(g, c, o, cx, cy)
}

/// What the greedy strategy promises of each emitted brick: a flat slab of
/// one vertical unit whose top face sits at the quantized top surface of
/// its cells, footprint inside the grid, covering only kept cells that all
/// share the elevation and color of the brick's corner cell. The slab
/// deliberately ignores shorter neighboring columns: every level is
/// treated as an isolated flat layer.
pub open spec fn spec_slab_uniform(
    g: HeightGrid,
    c: Option<ColorGrid>,
    o: GenOptions,
    b: Brick,
) -> bool {
    &&& b.wf()
    &&& b.dz == 1
    &&& b.x + b.dx <= g.width
    &&& b.y + b.dy <= g.height
    &&& b.z + 1 == spec_top_of(
        g.spec_at(b.x as int, b.y as int) as int,
        g.max_intensity as int,
        o.scale as int,
    )
    &&& b.color == spec_cell_color(c, b.x as int, b.y as int)
    &&& b.collision == true
    &&& b.emission == 0
    &&& b.asset == o.asset
    &&& forall|cx: int, cy: int|
        #[trigger] b.covers(cx, cy) ==> spec_greedy_cell(
            g,
            c,
            o,
            g.spec_at(b.x as int, b.y as int),
            spec_cell_color(c, b.x as int, b.y as int),
            cx,
            cy,
        )
}

/// True when some brick of the sequence covers cell `(cx, cy)`.
pub open spec fn spec_brick_covered(bs: Seq<Brick>, cx: int, cy: int) -> bool {
    exists|k: int| 0 <= k < bs.len() && (#[trigger] bs[k]).covers(cx, cy)
}

/// True when a brick before position `k` of the sequence covers cell
/// `(cx, cy)`.
pub open spec fn spec_brick_covered_before(bs: Seq<Brick>, k: int, cx: int, cy: int) -> bool {
    exists|j: int| 0 <= j < k && j < bs.len() && (#[trigger] bs[j]).covers(cx, cy)
}

/// Membership of a cell in the occupancy class of the brick's own corner:
/// same elevation level, same color, kept.
pub open spec fn spec_slab_class_cell(
    g: HeightGrid,
    c: Option<ColorGrid>,
    o: GenOptions,
    b: Brick,
    cx: int,
    cy: int,
) -> bool {
    spec_greedy_cell(
        g,
        c,
        o,
        g.spec_at(b.x as int, b.y as int),
        spec_cell_color(c, b.x as int, b.y as int),
        cx,
        cy,
    )
}

/// The greedy growth rule on the emitted slabs: the brick at position `k`
/// could grow no further right within its class — the next cell is off
/// the grid, outside the class, or was already claimed by an earlier
/// brick.
pub open spec fn spec_slab_right_maximal(
    g: HeightGrid,
    c: Option<ColorGrid>,
    o: GenOptions,
    bs: Seq<Brick>,
    k: int,
) -> bool {
    let b = bs[k];
    ||| b.x + b.dx == g.width
    ||| !spec_slab_class_cell(g, c, o, b, b.x + b.dx, b.y as int)
    ||| spec_brick_covered_before(bs, k, b.x + b.dx, b.y as int)
}

/// The brick at position `k` could grow no further down: some cell of the
/// next full-width row is off the grid, outside the class, or already
/// claimed.
pub open spec fn spec_slab_down_maximal(
    g: HeightGrid,
    c: Option<ColorGrid>,
    o: GenOptions,
    bs: Seq<Brick>,
    k: int,
) -> bool {
    let b = bs[k];
    ||| b.y + b.dy == g.height
    ||| !(forall|cx: int|
        b.x <= cx < b.x + b.dx ==> #[trigger] spec_slab_class_cell(g, c, o, b, cx, b.y + b.dy)
            && !spec_brick_covered_before(bs, k, cx, b.y + b.dy))
}

/// The seed rule on the emitted slabs: every cell of the brick's own
/// class scanning row-major before its corner was already claimed when
/// the brick was seeded.
pub open spec fn spec_slab_seed_first(
    g: HeightGrid,
    c: Option<ColorGrid>,
    o: GenOptions,
    bs: Seq<Brick>,
    k: int,
) -> bool {
    let b = bs[k];
    forall|cx: int, cy: int|
        0 <= cx < g.width && 0 <= cy && (cy < b.y || (cy == b.y && cx < b.x))
            && #[trigger] spec_slab_class_cell(g, c, o, b, cx, cy) ==> spec_brick_covered_before(
            bs,
            k,
            cx,
            cy,
        )
}

/// A claim by a brick before position `k` is unaffected by what stands at
/// or after `k`.
proof fn lemma_brick_covered_before_stable(
    bs1: Seq<Brick>,
    bs2: Seq<Brick>,
    k: int,
    cx: int,
    cy: int,
)
    requires
        0 <= k <= bs1.len(),
        bs1.len() <= bs2.len(),
        forall|j: int| 0 <= j < k ==> bs1[j] == bs2[j],
    ensures
        spec_brick_covered_before(bs1, k, cx, cy) == spec_brick_covered_before(bs2, k, cx, cy),
{
    if spec_brick_covered_before(bs1, k, cx, cy) {
        let j = choose|j: int| 0 <= j < k && j < bs1.len() && (#[trigger] bs1[j]).covers(cx, cy);
        assert(bs2[j].covers(cx, cy));
    }
    if spec_brick_covered_before(bs2, k, cx, cy) {
        let j = choose|j: int| 0 <= j < k && j < bs2.len() && (#[trigger] bs2[j]).covers(cx, cy);
        assert(bs1[j].covers(cx, cy));
    }
}

/// The growth and seed rules of a brick only look at the bricks before
/// it, so appending more bricks preserves them.
proof fn lemma_slab_rules_stable(
    g: HeightGrid,
    c: Option<ColorGrid>,
    o: GenOptions,
    bs1: Seq<Brick>,
    bs2: Seq<Brick>,
    k: int,
)
    requires
        0 <= k < bs1.len(),
        bs1.len() <= bs2.len(),
        forall|j: int| 0 <= j <= k ==> bs1[j] == bs2[j],
        spec_slab_right_maximal(g, c, o, bs1, k),
        spec_slab_down_maximal(g, c, o, bs1, k),
        spec_slab_seed_first(g, c, o, bs1, k),
    ensures
        spec_slab_right_maximal(g, c, o, bs2, k),
        spec_slab_down_maximal(g, c, o, bs2, k),
        spec_slab_seed_first(g, c, o, bs2, k),
{
    let b = bs1[k];
    assert(bs2[k] == b);
    lemma_brick_covered_before_stable(bs1, bs2, k, b.x + b.dx, b.y as int);
    assert(spec_slab_right_maximal(g, c, o, bs2, k));
    if b.y + b.dy != g.height {
        assert(!(forall|cx: int|
            b.x <= cx < b.x + b.dx ==> #[trigger] spec_slab_class_cell(g, c, o, b, cx, b.y + b.dy)
                && !spec_brick_covered_before(bs1, k, cx, b.y + b.dy)));
        if forall|cx: int|
            b.x <= cx < b.x + b.dx ==> #[trigger] spec_slab_class_cell(g, c, o, b, cx, b.y + b.dy)
                && !spec_brick_covered_before(bs2, k, cx, b.y + b.dy) {
            assert forall|cx: int|
                b.x <= cx < b.x + b.dx implies #[trigger] spec_slab_class_cell(
                g,
                c,
                o,
                b,
                cx,
                b.y + b.dy,
            ) && !spec_brick_covered_before(bs1, k, cx, b.y + b.dy) by {
                assert(spec_slab_class_cell(g, c, o, b, cx, b.y + b.dy)
                    && !spec_brick_covered_before(bs2, k, cx, b.y + b.dy));
                lemma_brick_covered_before_stable(bs1, bs2, k, cx, b.y + b.dy);
            }
            assert(false);
        }
    }
    assert forall|cx: int, cy: int|
        0 <= cx < g.width && 0 <= cy && (cy < b.y || (cy == b.y && cx < b.x))
            && #[trigger] spec_slab_class_cell(g, c, o, b, cx, cy)
            implies spec_brick_covered_before(bs2, k, cx, cy) by {
        assert(spec_brick_covered_before(bs1, k, cx, cy));
        lemma_brick_covered_before_stable(bs1, bs2, k, cx, cy);
    }
}

/// True when `x` occurs in the vector.
fn contains_u32(v: &Vec<u32>, x: u32) -> (r: bool)
    ensures
        r == v@.contains(x),
{
    let n: usize = v.len();
    let mut i: usize = 0;
    while i < n
        invariant
            i <= n,
            n == v@.len(),
            forall|j: int| 0 <= j < i ==> v@[j] != x,
        decreases n - i,
    {
        if v[i] == x {
            return true;
        }
        i = i + 1;
    }
    proof {
        assert(!v@.contains(x));
    }
    false
}

/// True when `x` occurs in the vector.
fn contains_color(v: &Vec<Color>, x: Color) -> (r: bool)
    ensures
        r == v@.contains(x),
{
    let n: usize = v.len();
    let mut i: usize = 0;
    while i < n
        invariant
            i <= n,
            n == v@.len(),
            forall|j: int| 0 <= j < i ==> v@[j] != x,
        decreases n - i,
    {
        if v[i] == x {
            return true;
        }
        i = i + 1;
    }
    proof {
        assert(!v@.contains(x));
    }
    false
}

/// A strictly ascending vector of values.
pub open spec fn spec_strictly_sorted(v: Seq<u32>) -> bool {
    forall|j1: int, j2: int| 0 <= j1 < j2 < v.len() ==> v[j1] < v[j2]
}

/// Inserts a value absent from a strictly ascending vector at its sorted
/// position.
fn sorted_insert(v: &mut Vec<u32>, x: u32)
    requires
        spec_strictly_sorted(old(v)@),
        !old(v)@.contains(x),
        old(v)@.len() < usize::MAX,
    ensures
        spec_strictly_sorted(final(v)@),
        final(v)@.len() == old(v)@.len() + 1,
        final(v)@.contains(x),
        forall|y: u32| #[trigger] old(v)@.contains(y) ==> final(v)@.contains(y),
        forall|j: int|
            0 <= j < final(v)@.len() ==> final(v)@[j] == x || old(v)@.contains(
                #[trigger] final(v)@[j],
            ),
{
    proof {
        assert forall|j: int| 0 <= j < v@.len() implies v@[j] != x by {
            if v@[j] == x {
                assert(v@.contains(x));
            }
        }
    }
    let n: usize = v.len();
    let mut p: usize = 0;
    while p < n && v[p] < x
        invariant
            p <= n,
            n == v@.len(),
            forall|j: int| 0 <= j < p ==> v@[j] < x,
        decreases n - p,
    {
        p = p + 1;
    }
    // v[p] > x for all positions from p on, by sortedness
    proof {
        assert forall|j: int| p <= j < v@.len() implies v@[j] > x by {
            if p < v@.len() {
                if j > p {
                    assert(v@[p as int] < v@[j]);
                }
            }
        }
    }
    let ghost pre = v@;
    v.insert(p, x);
    proof {
        assert(v@ == pre.insert(p as int, x));
        assert(v@[p as int] == x);
        assert forall|j1: int, j2: int| 0 <= j1 < j2 < v@.len() implies v@[j1] < v@[j2] by {
            if j2 < p {
            } else if j1 < p && j2 == p {
                assert(v@[j1] == pre[j1]);
            } else if j1 < p {
                assert(v@[j1] == pre[j1]);
                assert(v@[j2] == pre[j2 - 1]);
            } else if j1 == p {
                assert(v@[j2] == pre[j2 - 1]);
            } else {
                assert(v@[j1] == pre[j1 - 1]);
                assert(v@[j2] == pre[j2 - 1]);
            }
        }
        assert(v@.contains(x));
        assert forall|j: int|
            0 <= j < v@.len() implies v@[j] == x || pre.contains(#[trigger] v@[j]) by {
            if j < p {
                assert(v@[j] == pre[j]);
            } else if j > p {
                assert(v@[j] == pre[j - 1]);
            }
        }
        assert forall|y: u32| pre.contains(y) implies v@.contains(y) by {
            let j0 = choose|j: int| 0 <= j < pre.len() && pre[j] == y;
            if j0 < p {
                assert(v@[j0] == y);
            } else {
                assert(v@[j0 + 1] == y);
            }
        }
    }
}

/// Collects the distinct elevation levels present in the grid, strictly
/// ascending; every cell's elevation occurs in the result.
fn collect_levels(g: &HeightGrid) -> (r: Vec<u32>)
    requires
        g.wf(),
    ensures
        spec_strictly_sorted(r@),
        forall|i: int| 0 <= i < g.data@.len() ==> #[trigger] r@.contains(g.data@[i]),
        forall|j: int| 0 <= j < r@.len() ==> #[trigger] r@[j] <= g.max_intensity,
{
    let n: usize = g.data.len();
    let mut levels: Vec<u32> = Vec::new();
    let mut i: usize = 0;
    while i < n
        invariant
            g.wf(),
            i <= n,
            n == g.data@.len(),
            spec_strictly_sorted(levels@),
            levels@.len() <= i,
            forall|j: int| 0 <= j < levels@.len() ==> #[trigger] levels@[j] <= g.max_intensity,
            forall|i2: int| 0 <= i2 < i ==> #[trigger] levels@.contains(g.data@[i2]),
        decreases n - i,
    {
        let v: u32 = g.data[i];
        let ghost pre = levels@;
        if !contains_u32(&levels, v) {
            sorted_insert(&mut levels, v);
            proof {
                assert forall|j: int|
                    0 <= j < levels@.len() implies #[trigger] levels@[j] <= g.max_intensity by {
                    if levels@[j] != v {
                        assert(pre.contains(levels@[j]));
                        let j0 = choose|j2: int| 0 <= j2 < pre.len() && pre[j2] == levels@[j];
                        assert(pre[j0] <= g.max_intensity);
                    }
                }
            }
        }
        proof {
            assert forall|i2: int| 0 <= i2 < i + 1 implies #[trigger] levels@.contains(
                g.data@[i2],
            ) by {
                if i2 < i {
                    assert(pre.contains(g.data@[i2]));
                } else {
                    assert(levels@.contains(v));
                }
            }
        }
        i = i + 1;
    }
    levels
}

/// Collects the distinct colors of the cells at one elevation level, in
/// order of first appearance; every such cell's color occurs in the
/// result, and no color repeats.
fn collect_colors(g: &HeightGrid, c: &Option<ColorGrid>, lev: u32) -> (r: Vec<Color>)
    requires
        g.wf(),
        match c {
            Some(cg) => cg.wf() && cg.width == g.width && cg.height == g.height,
            None => true,
        },
    ensures
        forall|j1: int, j2: int| 0 <= j1 < j2 < r@.len() ==> r@[j1] != r@[j2],
        forall|cx: int, cy: int|
            0 <= cx < g.width && 0 <= cy < g.height && g.spec_at(cx, cy) == lev
                ==> #[trigger] r@.contains(spec_cell_color(*c, cx, cy)),
{
    let w: usize = g.get_width();
    let h: usize = g.get_height();
    let mut colors: Vec<Color> = Vec::new();
    let mut y: usize = 0;
    while y < h
        invariant
            y <= h,
            w == g.width,
            h == g.height,
            g.wf(),
            match c {
                Some(cg) => cg.wf() && cg.width == g.width && cg.height == g.height,
                None => true,
            },
            forall|j1: int, j2: int| 0 <= j1 < j2 < colors@.len() ==> colors@[j1] != colors@[j2],
            forall|cx: int, cy: int|
                0 <= cx < w && 0 <= cy < y && g.spec_at(cx, cy) == lev
                    ==> #[trigger] colors@.contains(spec_cell_color(*c, cx, cy)),
        decreases h - y,
    {
        let mut x: usize = 0;
        while x < w
            invariant
                x <= w,
                y < h,
                w == g.width,
                h == g.height,
                g.wf(),
                match c {
                    Some(cg) => cg.wf() && cg.width == g.width && cg.height == g.height,
                    None => true,
                },
                forall|j1: int, j2: int| 0 <= j1 < j2 < colors@.len() ==> colors@[j1] != colors@[j2],
                forall|cx: int, cy: int|
                    0 <= cx < w && 0 <= cy < y && g.spec_at(cx, cy) == lev
                        ==> #[trigger] colors@.contains(spec_cell_color(*c, cx, cy)),
                forall|cx: int|
                    0 <= cx < x && g.spec_at(cx, y as int) == lev ==> #[trigger] colors@.contains(
                        spec_cell_color(*c, cx, y as int),
                    ),
            decreases w - x,
        {
            if g.at(x, y) == lev {
                let col: Color = cell_color(c, x, y);
                if !contains_color(&colors, col) {
                    let ghost pre = colors@;
                    colors.push(col);
                    proof {
                        assert(colors@[pre.len() as int] == col);
                        assert(colors@.contains(col));
                        assert forall|cx: int, cy: int|
                            0 <= cx < w && 0 <= cy < y && g.spec_at(cx, cy) == lev
                                implies #[trigger] colors@.contains(
                            spec_cell_color(*c, cx, cy),
                        ) by {
                            assert(pre.contains(spec_cell_color(*c, cx, cy)));
                            let j0 = choose|j: int|
                                0 <= j < pre.len() && pre[j] == spec_cell_color(*c, cx, cy);
                            assert(colors@[j0] == pre[j0]);
                        }
                        assert forall|cx: int|
                            0 <= cx < x && g.spec_at(cx, y as int) == lev
                                implies #[trigger] colors@.contains(
                            spec_cell_color(*c, cx, y as int),
                        ) by {
                            assert(pre.contains(spec_cell_color(*c, cx, y as int)));
                            let j0 = choose|j: int|
                                0 <= j < pre.len() && pre[j] == spec_cell_color(*c, cx, y as int);
                            assert(colors@[j0] == pre[j0]);
                        }
                        assert forall|j1: int, j2: int|
                            0 <= j1 < j2 < colors@.len() implies colors@[j1] != colors@[j2] by {
                            if j2 == pre.len() {
                                if colors@[j1] == col {
                                    assert(pre[j1] == col);
                                    assert(pre.contains(col));
                                }
                            }
                        }
                    }
                }
            }
            x = x + 1;
        }
        y = y + 1;
    }
    colors
}

/// Builds the occupancy mask of one elevation level and color class.
fn build_mask(g: &HeightGrid, c: &Option<ColorGrid>, o: &GenOptions, lev: u32, col: Color) -> (r:
    Vec<bool>)
    requires
        spec_inputs_valid(*g, *c, *o),
    ensures
        r@.len() == g.width * g.height,
        forall|cx: int, cy: int|
            0 <= cx < g.width && 0 <= cy < g.height ==> #[trigger] spec_mask_at(
                r@,
                g.width as int,
                cx,
                cy,
            ) == spec_greedy_cell(*g, *c, *o, lev, col, cx, cy),
{
    let w: usize = g.get_width();
    let h: usize = g.get_height();
    let mut mask: Vec<bool> = Vec::new();
    let mut y: usize = 0;
    while y < h
        invariant
            y <= h,
            w == g.width,
            h == g.height,
            spec_inputs_valid(*g, *c, *o),
            mask@.len() == y * w,
            forall|cx: int, cy: int|
                0 <= cx < w && 0 <= cy < y ==> #[trigger] spec_mask_at(mask@, w as int, cx, cy)
                    == spec_greedy_cell(*g, *c, *o, lev, col, cx, cy),
        decreases h - y,
    {
        let mut x: usize = 0;
        while x < w
            invariant
                x <= w,
                y < h,
                w == g.width,
                h == g.height,
                spec_inputs_valid(*g, *c, *o),
                mask@.len() == y * w + x,
                forall|cx: int, cy: int|
                    0 <= cx < w && 0 <= cy < y ==> #[trigger] spec_mask_at(mask@, w as int, cx, cy)
                        == spec_greedy_cell(*g, *c, *o, lev, col, cx, cy),
                forall|cx: int|
                    0 <= cx < x ==> #[trigger] spec_mask_at(mask@, w as int, cx, y as int)
                        == spec_greedy_cell(*g, *c, *o, lev, col, cx, y as int),
            decreases w - x,
        {
            let keep: bool = !(o.cull && cell_color(c, x, y).is_transparent());
            let cell: bool = g.at(x, y) == lev && {
                let cc: Color = cell_color(c, x, y);
                cc.r == col.r && cc.g == col.g && cc.b == col.b && cc.a == col.a
            } && keep;
            let ghost pre = mask@;
            mask.push(cell);
            proof {
                assert(mask@.len() == y * w + x + 1);
                assert forall|cx: int, cy: int|
                    0 <= cx < w && 0 <= cy <= y && (cy < y || cx <= x) implies #[trigger] spec_mask_at(
                    mask@,
                    w as int,
                    cx,
                    cy,
                ) == spec_greedy_cell(*g, *c, *o, lev, col, cx, cy) by {
                    lemma_index_in_bounds(w as nat, h as nat, cx as nat, cy as nat);
                    if cy < y || (cy == y && cx < x) {
                        assert(spec_mask_at(pre, w as int, cx, cy) == spec_greedy_cell(
                            *g,
                            *c,
                            *o,
                            lev,
                            col,
                            cx,
                            cy,
                        ));
                        assert(cy * w + cx < (y as int) * w + x) by (nonlinear_arith)
                            requires
                                0 <= cx < w,
                                0 <= cy <= y,
                                cy < y || (cy == y && cx < x),
                                0 <= x < w,
                        ;
                        assert(mask@[cy * (w as int) + cx] == pre[cy * (w as int) + cx]);
                    } else {
                        assert(cy == y && cx == x);
                        assert(cy * w + cx == (y as int) * w + x) by (nonlinear_arith)
                            requires
                                cy == y,
                                cx == x,
                        ;
                        assert(mask@[cy * (w as int) + cx] == cell);
                    }
                }
            }
            x = x + 1;
        }
        proof {
            assert((y as int) * w + w == (y + 1) * w) by (nonlinear_arith);
        }
        y = y + 1;
    }
    proof {
        assert((h as int) * (w as int) == (w as int) * (h as int)) by (nonlinear_arith);
    }
    mask
}


/// True when `x` occurs among the first `n` entries of `v`.
pub open spec fn spec_in_prefix(v: Seq<u32>, n: int, x: u32) -> bool {
    exists|j: int| 0 <= j < n && j < v.len() && v[j] == x
}

/// True when `x` occurs among the first `n` entries of `v`.
pub open spec fn spec_color_in_prefix(v: Seq<Color>, n: int, x: Color) -> bool {
    exists|j: int| 0 <= j < n && j < v.len() && v[j] == x
}

/// A brick whose footprint equals the given cell rectangle.
pub open spec fn spec_brick_matches_rect(b: Brick, r: CellRect) -> bool {
    &&& b.x == r.x
    &&& b.y == r.y
    &&& b.dx == r.dx
    &&& b.dy == r.dy
}

/// Runs the greedy strategy: for each distinct elevation level present in
/// the grid, ascending, and for each color class at that level, the
/// occupancy mask of kept cells is merged into maximal axis-aligned
/// rectangles, and each rectangle becomes one flat slab brick at that
/// level's quantized top surface.
///
/// On success the bricks partition the kept cells: each brick covers only
/// kept cells sharing its corner's elevation and color, bricks are
/// pairwise non-overlapping, and every kept cell is covered. Progress is
/// reported and cancellation polled once per elevation level.
pub fn gen_greedy<R: ProgressReporter>(
    g: &HeightGrid,
    c: &Option<ColorGrid>,
    o: &GenOptions,
    rep: &mut R,
) -> (r: Result<Vec<Brick>, ConvertError>)
    requires
        spec_inputs_valid(*g, *c, *o),
    ensures
        r is Ok ==> forall|k: int|
            0 <= k < r->Ok_0@.len() ==> spec_slab_uniform(*g, *c, *o, #[trigger] r->Ok_0@[k]),
        r is Ok ==> forall|k1: int, k2: int, cx: int, cy: int|
            #![trigger r->Ok_0@[k1].covers(cx, cy), r->Ok_0@[k2].covers(cx, cy)]
            0 <= k1 < k2 < r->Ok_0@.len() && r->Ok_0@[k1].covers(cx, cy) ==> !r->Ok_0@[k2].covers(
                cx,
                cy,
            ),
        r is Ok ==> forall|cx: int, cy: int|
            0 <= cx < g.width && 0 <= cy < g.height && spec_greedy_kept(*g, *c, *o, cx, cy)
                ==> #[trigger] spec_brick_covered(r->Ok_0@, cx, cy),
        r is Ok ==> forall|k: int|
            0 <= k < r->Ok_0@.len() ==> #[trigger] spec_slab_right_maximal(
                *g,
                *c,
                *o,
                r->Ok_0@,
                k,
            ),
        r is Ok ==> forall|k: int|
            0 <= k < r->Ok_0@.len() ==> #[trigger] spec_slab_down_maximal(*g, *c, *o, r->Ok_0@, k),
        r is Ok ==> forall|k: int|
            0 <= k < r->Ok_0@.len() ==> #[trigger] spec_slab_seed_first(*g, *c, *o, r->Ok_0@, k),
        r is Err ==> r->Err_0 is Cancelled,
{
    let ghost gg = *g;
    let ghost cc = *c;
    let ghost oo = *o;
    let w: usize = g.get_width();
    let h: usize = g.get_height();
    let levels: Vec<u32> = collect_levels(g);
    let nlev: usize = levels.len();
    let mut bricks: Vec<Brick> = Vec::new();
    let mut li: usize = 0;
    while li < nlev
        invariant
            li <= nlev,
            nlev == levels@.len(),
            w == g.width,
            h == g.height,
            gg == *g,
            cc == *c,
            oo == *o,
            spec_inputs_valid(gg, cc, oo),
            spec_strictly_sorted(levels@),
            forall|j: int| 0 <= j < levels@.len() ==> #[trigger] levels@[j] <= g.max_intensity,
            forall|i: int| 0 <= i < g.data@.len() ==> #[trigger] levels@.contains(g.data@[i]),
            forall|k: int|
                0 <= k < bricks@.len() ==> spec_slab_uniform(gg, cc, oo, #[trigger] bricks@[k]),
            forall|k1: int, k2: int, cx: int, cy: int|
                #![trigger bricks@[k1].covers(cx, cy), bricks@[k2].covers(cx, cy)]
                0 <= k1 < k2 < bricks@.len() && bricks@[k1].covers(cx, cy)
                    ==> !bricks@[k2].covers(cx, cy),
            forall|k: int|
                0 <= k < bricks@.len() ==> spec_in_prefix(
                    levels@,
                    li as int,
                    gg.spec_at((#[trigger] bricks@[k]).x as int, bricks@[k].y as int),
                ),
            forall|cx: int, cy: int|
                0 <= cx < w && 0 <= cy < h && spec_greedy_kept(gg, cc, oo, cx, cy)
                    && spec_in_prefix(levels@, li as int, gg.spec_at(cx, cy))
                    ==> #[trigger] spec_brick_covered(bricks@, cx, cy),
            forall|k: int|
                0 <= k < bricks@.len() ==> #[trigger] spec_slab_right_maximal(
                    gg,
                    cc,
                    oo,
                    bricks@,
                    k,
                ),
            forall|k: int|
                0 <= k < bricks@.len() ==> #[trigger] spec_slab_down_maximal(
                    gg,
                    cc,
                    oo,
                    bricks@,
                    k,
                ),
            forall|k: int|
                0 <= k < bricks@.len() ==> #[trigger] spec_slab_seed_first(gg, cc, oo, bricks@, k),
        decreases nlev - li,
    {
        if !rep.report(Stage::Generating, li, nlev) {
            return Err(ConvertError::Cancelled);
        }
        let lev: u32 = levels[li];
        let colors: Vec<Color> = collect_colors(g, c, lev);
        let ncol: usize = colors.len();
        let mut ci: usize = 0;
        while ci < ncol
            invariant
                ci <= ncol,
                ncol == colors@.len(),
                li < nlev,
                nlev == levels@.len(),
                lev == levels@[li as int],
                w == g.width,
                h == g.height,
                gg == *g,
                cc == *c,
                oo == *o,
                spec_inputs_valid(gg, cc, oo),
                spec_strictly_sorted(levels@),
                forall|j: int| 0 <= j < levels@.len() ==> #[trigger] levels@[j] <= g.max_intensity,
                forall|j1: int, j2: int|
                    0 <= j1 < j2 < colors@.len() ==> colors@[j1] != colors@[j2],
                forall|cx: int, cy: int|
                    0 <= cx < w && 0 <= cy < h && gg.spec_at(cx, cy) == lev
                        ==> #[trigger] colors@.contains(spec_cell_color(cc, cx, cy)),
                forall|k: int|
                    0 <= k < bricks@.len() ==> spec_slab_uniform(gg, cc, oo, #[trigger] bricks@[k]),
                forall|k1: int, k2: int, cx: int, cy: int|
                    #![trigger bricks@[k1].covers(cx, cy), bricks@[k2].covers(cx, cy)]
                    0 <= k1 < k2 < bricks@.len() && bricks@[k1].covers(cx, cy)
                        ==> !bricks@[k2].covers(cx, cy),
                forall|k: int|
                    0 <= k < bricks@.len() ==> spec_in_prefix(
                        levels@,
                        li as int,
                        gg.spec_at((#[trigger] bricks@[k]).x as int, bricks@[k].y as int),
                    ) || (gg.spec_at(bricks@[k].x as int, bricks@[k].y as int) == lev
                        && spec_color_in_prefix(
                        colors@,
                        ci as int,
                        spec_cell_color(cc, bricks@[k].x as int, bricks@[k].y as int),
                    )),
                forall|cx: int, cy: int|
                    0 <= cx < w && 0 <= cy < h && spec_greedy_kept(gg, cc, oo, cx, cy)
                        && (spec_in_prefix(levels@, li as int, gg.spec_at(cx, cy)) || (gg.spec_at(
                        cx,
                        cy,
                    ) == lev && spec_color_in_prefix(
                        colors@,
                        ci as int,
                        spec_cell_color(cc, cx, cy),
                    ))) ==> #[trigger] spec_brick_covered(bricks@, cx, cy),
                forall|k: int|
                    0 <= k < bricks@.len() ==> #[trigger] spec_slab_right_maximal(
                        gg,
                        cc,
                        oo,
                        bricks@,
                        k,
                    ),
                forall|k: int|
                    0 <= k < bricks@.len() ==> #[trigger] spec_slab_down_maximal(
                        gg,
                        cc,
                        oo,
                        bricks@,
                        k,
                    ),
                forall|k: int|
                    0 <= k < bricks@.len() ==> #[trigger] spec_slab_seed_first(
                        gg,
                        cc,
                        oo,
                        bricks@,
                        k,
                    ),
            decreases ncol - ci,
        {
            let col: Color = colors[ci];
            let mask: Vec<bool> = build_mask(g, c, o, lev, col);
            let rects: Vec<CellRect> = cover_mask(&mask, w, h);
            let t: u32 = top_of(lev, g.max_intensity, o.scale);
            let nr: usize = rects.len();
            let ghost base = bricks@.len() as int;
            let ghost old_bricks = bricks@;
            let mut ri: usize = 0;
            while ri < nr
                invariant
                    ri <= nr,
                    nr == rects@.len(),
                    w == g.width,
                    h == g.height,
                    gg == *g,
                    cc == *c,
                    oo == *o,
                    spec_inputs_valid(gg, cc, oo),
                    lev <= g.max_intensity,
                    t == spec_top_of(lev as int, gg.max_intensity as int, oo.scale as int),
                    1 <= t,
                    base == old_bricks.len(),
                    bricks@.len() == base + ri,
                    forall|k: int| 0 <= k < base ==> bricks@[k] == old_bricks[k],
                    forall|j: int|
                        0 <= j < ri ==> spec_brick_matches_rect(
                            #[trigger] bricks@[base + j],
                            rects@[j],
                        ),
                    forall|j: int|
                        0 <= j < ri ==> spec_slab_uniform(gg, cc, oo, #[trigger] bricks@[base + j]),
                    forall|j: int|
                        0 <= j < ri ==> gg.spec_at(
                            (#[trigger] bricks@[base + j]).x as int,
                            bricks@[base + j].y as int,
                        ) == lev && spec_cell_color(
                            cc,
                            bricks@[base + j].x as int,
                            bricks@[base + j].y as int,
                        ) == col,
                    forall|k: int| 0 <= k < rects@.len() ==> (#[trigger] rects@[k]).wf(
                        w as int,
                        h as int,
                    ),
                    forall|k: int, cx: int, cy: int|
                        0 <= k < rects@.len() && #[trigger] rects@[k].covers(cx, cy)
                            ==> spec_mask_at(mask@, w as int, cx, cy),
                    forall|k1: int, k2: int, cx: int, cy: int|
                        #![trigger rects@[k1].covers(cx, cy), rects@[k2].covers(cx, cy)]
                        0 <= k1 < k2 < rects@.len() && rects@[k1].covers(cx, cy)
                            ==> !rects@[k2].covers(cx, cy),
                    forall|cx: int, cy: int|
                        0 <= cx < w && 0 <= cy < h ==> #[trigger] spec_mask_at(
                            mask@,
                            w as int,
                            cx,
                            cy,
                        ) == spec_greedy_cell(gg, cc, oo, lev, col, cx, cy),
                decreases nr - ri,
            {
                let rect: CellRect = rects[ri];
                proof {
                    assert(rect.covers(rect.x as int, rect.y as int));
                    assert(spec_mask_at(mask@, w as int, rect.x as int, rect.y as int));
                }
                let b = Brick {
                    x: rect.x as u32,
                    y: rect.y as u32,
                    dx: rect.dx as u32,
                    dy: rect.dy as u32,
                    z: t - 1,
                    dz: 1,
                    color: col,
                    collision: true,
                    emission: 0,
                    asset: o.asset,
                };
                proof {
                    assert forall|cx: int, cy: int| #[trigger] b.covers(cx, cy) implies
                        spec_greedy_cell(
                        gg,
                        cc,
                        oo,
                        gg.spec_at(b.x as int, b.y as int),
                        spec_cell_color(cc, b.x as int, b.y as int),
                        cx,
                        cy,
                    ) by {
                        assert(rect.covers(cx, cy));
                        assert(spec_mask_at(mask@, w as int, cx, cy));
                    }
                    assert(spec_slab_uniform(gg, cc, oo, b));
                }
                bricks.push(b);
                ri = ri + 1;
            }
            // fold the new slabs into the running invariants
            proof {
                let nb = bricks@;
                assert forall|k: int|
                    0 <= k < nb.len() implies spec_slab_uniform(gg, cc, oo, #[trigger] nb[k]) by {
                    if k < base {
                        assert(nb[k] == old_bricks[k]);
                    } else {
                        let j = k - base;
                        assert(spec_slab_uniform(gg, cc, oo, nb[base + j]));
                    }
                }
                // disjointness: old/old carries over; new/new comes from the
                // rectangle cover; old/new would need one cell in two color
                // classes or two levels at once
                assert forall|k1: int, k2: int, cx: int, cy: int|
                    #![trigger nb[k1].covers(cx, cy), nb[k2].covers(cx, cy)]
                    0 <= k1 < k2 < nb.len() && nb[k1].covers(cx, cy) implies !nb[k2].covers(
                    cx,
                    cy,
                ) by {
                    if nb[k2].covers(cx, cy) {
                        if k2 < base {
                            assert(old_bricks[k1].covers(cx, cy));
                            assert(old_bricks[k2].covers(cx, cy));
                        } else if k1 >= base {
                            let j1 = k1 - base;
                            let j2 = k2 - base;
                            assert(spec_brick_matches_rect(nb[base + j1], rects@[j1]));
                            assert(spec_brick_matches_rect(nb[base + j2], rects@[j2]));
                            assert(rects@[j1].covers(cx, cy));
                            assert(rects@[j2].covers(cx, cy));
                        } else {
                            // k1 is an earlier brick, k2 one of the new slabs
                            let j2 = k2 - base;
                            assert(spec_brick_matches_rect(nb[base + j2], rects@[j2]));
                            assert(rects@[j2].covers(cx, cy));
                            assert(spec_mask_at(mask@, w as int, cx, cy));
                            assert(nb[k2].wf());
                            assert(0 <= cx < w && 0 <= cy < h);
                            assert(spec_greedy_cell(gg, cc, oo, lev, col, cx, cy));
                            let bo = old_bricks[k1];
                            assert(spec_slab_uniform(gg, cc, oo, bo));
                            assert(bo.covers(cx, cy));
                            assert(gg.spec_at(cx, cy) == gg.spec_at(bo.x as int, bo.y as int));
                            assert(spec_cell_color(cc, cx, cy) == spec_cell_color(
                                cc,
                                bo.x as int,
                                bo.y as int,
                            ));
                            // the earlier brick's class is already done
                            if spec_in_prefix(
                                levels@,
                                li as int,
                                gg.spec_at(bo.x as int, bo.y as int),
                            ) {
                                let j0 = choose|j: int|
                                    0 <= j < li && j < levels@.len() && levels@[j] == gg.spec_at(
                                        bo.x as int,
                                        bo.y as int,
                                    );
                                assert(levels@[j0] < levels@[li as int]);
                                assert(false);
                            } else {
                                let j0 = choose|j: int|
                                    0 <= j < ci && j < colors@.len() && colors@[j]
                                        == spec_cell_color(cc, bo.x as int, bo.y as int);
                                assert(colors@[j0] != colors@[ci as int]);
                                assert(false);
                            }
                        }
                    }
                }
                // every kept cell of a finished class is covered
                assert forall|cx: int, cy: int|
                    0 <= cx < w && 0 <= cy < h && spec_greedy_kept(gg, cc, oo, cx, cy)
                        && (spec_in_prefix(levels@, li as int, gg.spec_at(cx, cy)) || (gg.spec_at(
                        cx,
                        cy,
                    ) == lev && spec_color_in_prefix(
                        colors@,
                        ci + 1,
                        spec_cell_color(cc, cx, cy),
                    ))) implies #[trigger] spec_brick_covered(nb, cx, cy) by {
                    let done_before = spec_in_prefix(levels@, li as int, gg.spec_at(cx, cy)) || (
                    gg.spec_at(cx, cy) == lev && spec_color_in_prefix(
                        colors@,
                        ci as int,
                        spec_cell_color(cc, cx, cy),
                    ));
                    if done_before {
                        assert(spec_brick_covered(old_bricks, cx, cy));
                        let k0 = choose|k: int|
                            0 <= k < old_bricks.len() && (#[trigger] old_bricks[k]).covers(cx, cy);
                        assert(nb[k0].covers(cx, cy));
                    } else {
                        assert(gg.spec_at(cx, cy) == lev && spec_cell_color(cc, cx, cy) == col);
                        assert(spec_greedy_cell(gg, cc, oo, lev, col, cx, cy));
                        assert(spec_mask_at(mask@, w as int, cx, cy));
                        assert(spec_covered_by(rects@, cx, cy));
                        let j0 = choose|j: int|
                            0 <= j < rects@.len() && (#[trigger] rects@[j]).covers(cx, cy);
                        assert(spec_brick_matches_rect(nb[base + j0], rects@[j0]));
                        assert(nb[base + j0].covers(cx, cy));
                    }
                }
                // the growth and seed rules hold of every slab: earlier
                // bricks keep them, and each new slab inherits them from
                // its rectangle
                assert forall|k: int|
                    0 <= k < nb.len() implies #[trigger] spec_slab_right_maximal(
                    gg,
                    cc,
                    oo,
                    nb,
                    k,
                ) by {
                    if k < base {
                        assert(nb[k] == old_bricks[k]);
                        lemma_slab_rules_stable(gg, cc, oo, old_bricks, nb, k);
                    } else {
                        let j = k - base;
                        let b2 = nb[base + j];
                        assert(spec_brick_matches_rect(nb[base + j], rects@[j]));
                        assert(rects@[j].wf(w as int, h as int));
                        assert(gg.spec_at(b2.x as int, b2.y as int) == lev && spec_cell_color(
                            cc,
                            b2.x as int,
                            b2.y as int,
                        ) == col);
                        assert(spec_rect_right_maximal(rects@, j, mask@, w as int));
                        if b2.x + b2.dx != g.width {
                            if spec_slab_class_cell(gg, cc, oo, b2, b2.x + b2.dx, b2.y as int) {
                                assert(spec_mask_at(mask@, w as int, b2.x + b2.dx, b2.y as int));
                                assert(spec_covered_before(
                                    rects@,
                                    j,
                                    b2.x + b2.dx,
                                    b2.y as int,
                                ));
                                let j2 = choose|j2: int|
                                    0 <= j2 < j && j2 < rects@.len() && (
                                    #[trigger] rects@[j2]).covers(b2.x + b2.dx, b2.y as int);
                                assert(spec_brick_matches_rect(nb[base + j2], rects@[j2]));
                                assert(nb[base + j2].covers(b2.x + b2.dx, b2.y as int));
                                assert(spec_brick_covered_before(nb, k, b2.x + b2.dx, b2.y as int));
                            }
                        }
                    }
                }
                assert forall|k: int|
                    0 <= k < nb.len() implies #[trigger] spec_slab_down_maximal(
                    gg,
                    cc,
                    oo,
                    nb,
                    k,
                ) by {
                    if k < base {
                        assert(nb[k] == old_bricks[k]);
                        lemma_slab_rules_stable(gg, cc, oo, old_bricks, nb, k);
                    } else {
                        let j = k - base;
                        assert(spec_brick_matches_rect(nb[base + j], rects@[j]));
                        assert(nb[base + j] == nb[k]);
                        let b2 = nb[k];
                        assert(rects@[j].wf(w as int, h as int));
                        assert(gg.spec_at(b2.x as int, b2.y as int) == lev && spec_cell_color(
                            cc,
                            b2.x as int,
                            b2.y as int,
                        ) == col);
                        assert(spec_rect_down_maximal(rects@, j, mask@, w as int, h as int));
                        if b2.y + b2.dy != g.height {
                            assert(!(forall|cx: int|
                                rects@[j].x <= cx < rects@[j].x + rects@[j].dx
                                    ==> #[trigger] spec_mask_at(
                                    mask@,
                                    w as int,
                                    cx,
                                    rects@[j].y + rects@[j].dy,
                                ) && !spec_covered_before(
                                    rects@,
                                    j,
                                    cx,
                                    rects@[j].y + rects@[j].dy,
                                )));
                            if !spec_slab_down_maximal(gg, cc, oo, nb, k) {
                                assert forall|cx: int|
                                    rects@[j].x <= cx < rects@[j].x + rects@[j].dx
                                        implies #[trigger] spec_mask_at(
                                    mask@,
                                    w as int,
                                    cx,
                                    rects@[j].y + rects@[j].dy,
                                ) && !spec_covered_before(
                                    rects@,
                                    j,
                                    cx,
                                    rects@[j].y + rects@[j].dy,
                                ) by {
                                    assert(spec_slab_class_cell(
                                        gg,
                                        cc,
                                        oo,
                                        nb[k],
                                        cx,
                                        nb[k].y + nb[k].dy,
                                    ));
                                    assert(!spec_brick_covered_before(nb, k, cx, nb[k].y
                                        + nb[k].dy));
                                    assert(spec_mask_at(mask@, w as int, cx, b2.y + b2.dy));
                                    if spec_covered_before(rects@, j, cx, b2.y + b2.dy) {
                                        let j2 = choose|j2: int|
                                            0 <= j2 < j && j2 < rects@.len() && (
                                            #[trigger] rects@[j2]).covers(cx, b2.y + b2.dy);
                                        assert(spec_brick_matches_rect(nb[base + j2], rects@[j2]));
                                        assert(nb[base + j2].covers(cx, b2.y + b2.dy));
                                        assert(spec_brick_covered_before(nb, k, cx, b2.y + b2.dy));
                                    }
                                }
                                assert(false);
                            }
                        }
                    }
                }
                assert forall|k: int|
                    0 <= k < nb.len() implies #[trigger] spec_slab_seed_first(
                    gg,
                    cc,
                    oo,
                    nb,
                    k,
                ) by {
                    if k < base {
                        assert(nb[k] == old_bricks[k]);
                        lemma_slab_rules_stable(gg, cc, oo, old_bricks, nb, k);
                    } else {
                        let j = k - base;
                        let b2 = nb[base + j];
                        assert(spec_brick_matches_rect(nb[base + j], rects@[j]));
                        assert(rects@[j].wf(w as int, h as int));
                        assert(gg.spec_at(b2.x as int, b2.y as int) == lev && spec_cell_color(
                            cc,
                            b2.x as int,
                            b2.y as int,
                        ) == col);
                        assert(spec_rect_seed_first(rects@, j, mask@, w as int));
                        assert forall|cx: int, cy: int|
                            0 <= cx < g.width && 0 <= cy && (cy < b2.y || (cy == b2.y && cx < b2.x))
                                && #[trigger] spec_slab_class_cell(gg, cc, oo, b2, cx, cy)
                                implies spec_brick_covered_before(nb, k, cx, cy) by {
                            assert(cy < g.height) by (nonlinear_arith)
                                requires
                                    0 <= cy <= b2.y,
                                    b2.y < g.height,
                            ;
                            assert(spec_mask_at(mask@, w as int, cx, cy));
                            assert(spec_covered_before(rects@, j, cx, cy));
                            let j2 = choose|j2: int|
                                0 <= j2 < j && j2 < rects@.len() && (#[trigger] rects@[j2]).covers(
                                    cx,
                                    cy,
                                );
                            assert(spec_brick_matches_rect(nb[base + j2], rects@[j2]));
                            assert(nb[base + j2].covers(cx, cy));
                        }
                    }
                }
                // class bookkeeping for each brick
                assert forall|k: int|
                    0 <= k < nb.len() implies spec_in_prefix(
                        levels@,
                        li as int,
                        gg.spec_at((#[trigger] nb[k]).x as int, nb[k].y as int),
                    ) || (gg.spec_at(nb[k].x as int, nb[k].y as int) == lev
                        && spec_color_in_prefix(
                        colors@,
                        ci + 1,
                        spec_cell_color(cc, nb[k].x as int, nb[k].y as int),
                    )) by {
                    if k < base {
                        assert(nb[k] == old_bricks[k]);
                        if !spec_in_prefix(
                            levels@,
                            li as int,
                            gg.spec_at(nb[k].x as int, nb[k].y as int),
                        ) {
                            let col2 = spec_cell_color(cc, nb[k].x as int, nb[k].y as int);
                            let j0 = choose|j: int|
                                0 <= j < ci && j < colors@.len() && colors@[j] == col2;
                            assert(0 <= j0 < ci + 1 && j0 < colors@.len() && colors@[j0] == col2);
                        }
                    } else {
                        let j = k - base;
                        assert(gg.spec_at(nb[base + j].x as int, nb[base + j].y as int) == lev);
                        assert(spec_cell_color(cc, nb[base + j].x as int, nb[base + j].y as int)
                            == col);
                        assert(0 <= ci < ci + 1 && ci < colors@.len() && colors@[ci as int] == col);
                    }
                }
            }
            ci = ci + 1;
        }
        // the whole level is now done: every color at this level is in the
        // collected list
        proof {
            assert forall|cx: int, cy: int|
                0 <= cx < w && 0 <= cy < h && spec_greedy_kept(gg, cc, oo, cx, cy)
                    && spec_in_prefix(levels@, li + 1, gg.spec_at(cx, cy))
                    implies #[trigger] spec_brick_covered(bricks@, cx, cy) by {
                if !spec_in_prefix(levels@, li as int, gg.spec_at(cx, cy)) {
                    let j0 = choose|j: int|
                        0 <= j < li + 1 && j < levels@.len() && levels@[j] == gg.spec_at(cx, cy);
                    assert(gg.spec_at(cx, cy) == lev);
                    assert(colors@.contains(spec_cell_color(cc, cx, cy)));
                    let jc = choose|j: int|
                        0 <= j < colors@.len() && colors@[j] == spec_cell_color(cc, cx, cy);
                    assert(spec_color_in_prefix(
                        colors@,
                        ncol as int,
                        spec_cell_color(cc, cx, cy),
                    ));
                }
            }
            assert forall|k: int|
                0 <= k < bricks@.len() implies spec_in_prefix(
                    levels@,
                    li + 1,
                    gg.spec_at((#[trigger] bricks@[k]).x as int, bricks@[k].y as int),
                ) by {
                if !spec_in_prefix(
                    levels@,
                    li as int,
                    gg.spec_at(bricks@[k].x as int, bricks@[k].y as int),
                ) {
                    assert(gg.spec_at(bricks@[k].x as int, bricks@[k].y as int) == lev);
                    assert(0 <= li < li + 1 && li < levels@.len() && levels@[li as int] == lev);
                } else {
                    let j0 = choose|j: int|
                        0 <= j < li && j < levels@.len() && levels@[j] == gg.spec_at(
                            bricks@[k].x as int,
                            bricks@[k].y as int,
                        );
                    assert(0 <= j0 < li + 1);
                }
            }
        }
        li = li + 1;
    }
    // every cell's level was processed
    proof {
        assert forall|cx: int, cy: int|
            0 <= cx < g.width && 0 <= cy < g.height && spec_greedy_kept(gg, cc, oo, cx, cy)
                implies #[trigger] spec_brick_covered(bricks@, cx, cy) by {
            lemma_index_in_bounds(w as nat, h as nat, cx as nat, cy as nat);
            assert(gg.spec_at(cx, cy) == gg.data@[cy * (w as int) + cx]);
            assert(levels@.contains(gg.data@[cy * (w as int) + cx]));
            let j0 = choose|j: int| 0 <= j < levels@.len() && levels@[j] == gg.spec_at(cx, cy);
            assert(spec_in_prefix(levels@, nlev as int, gg.spec_at(cx, cy)));
        }
    }
    Ok(bricks)
}

} // verus!
