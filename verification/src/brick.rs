use vstd::prelude::*;
use vstd::arithmetic::div_mod::lemma_multiply_divide_lt;
use crate::color::Color;
use crate::options::Asset;

verus! {

/// One axis-aligned placed volume of the output geometry, in grid
/// coordinates: the footprint covers cells `[x, x+dx) x [y, y+dy)` and the
/// vertical extent covers units `[z, z+dz)`. Created only by the optimizer
/// and never mutated after creation; the encoder maps it to game units.
#[derive(Debug, Clone, Copy, PartialEq, Eq, Structural)]
pub struct Brick {
    pub x: u32,
    pub y: u32,
    pub dx: u32,
    pub dy: u32,
    pub z: u32,
    pub dz: u32,
    pub color: Color,
    pub collision: bool,
    /// Material emission level; zero means no glow, and the glow policy sets
    /// the lowest non-zero level.
    pub emission: u8,
    pub asset: Asset,
}

impl Brick {
    /// Geometric sanity: a brick covers at least one cell and one vertical
    /// unit.
    pub open spec fn wf(&self) -> bool {
        &&& self.dx >= 1
        &&& self.dy >= 1
        &&& self.dz >= 1
    }

    /// True when cell `(cx, cy)` lies under the brick's footprint.
    pub open spec fn covers(&self, cx: int, cy: int) -> bool {
        &&& self.x <= cx < self.x + self.dx
        &&& self.y <= cy < self.y + self.dy
    }
}

/// The elevation quantization rule, governing all strategies: the sampled
/// intensity is normalized by the sampling ceiling and scaled by the
/// vertical multiplier, with ties rounded half-up:
/// `round(intensity / max * scale) = (2*intensity*scale + max) / (2*max)`.
pub open spec fn spec_quantize(intensity: int, max: int, scale: int) -> int {
    (2 * intensity * scale + max) / (2 * max)
}

/// The quantized value never exceeds the vertical multiplier.
pub proof fn lemma_quantize_le_scale(intensity: int, max: int, scale: int)
    requires
        0 <= intensity <= max,
        1 <= max,
        0 <= scale,
    ensures
        0 <= spec_quantize(intensity, max, scale) <= scale,
{
    let n = 2 * intensity * scale + max;
    let d = 2 * max;
    assert(2 * intensity * scale <= 2 * max * scale) by (nonlinear_arith)
        requires
            0 <= intensity <= max,
            0 <= scale,
    ;
    assert(n < d * (scale + 1)) by (nonlinear_arith)
        requires
            2 * intensity * scale <= 2 * max * scale,
            n == 2 * intensity * scale + max,
            d == 2 * max,
            1 <= max,
    ;
    lemma_multiply_divide_lt(n, d, scale + 1);
    assert(n >= 0) by (nonlinear_arith)
        requires
            n == 2 * intensity * scale + max,
            0 <= intensity,
            0 <= scale,
            1 <= max,
    ;
}

/// Quantizes one sampled intensity to an elevation in `0..=scale`;
/// see [`spec_quantize`].
pub fn quantize(intensity: u32, max: u32, scale: u32) -> (r: u32)
    requires
        intensity <= max,
        max == 255 || max == 0xFFFFFF,
        1 <= scale <= 100,
    ensures
        r == spec_quantize(intensity as int, max as int, scale as int),
        r <= scale,
{
    proof {
        lemma_quantize_le_scale(intensity as int, max as int, scale as int);
    }
    assert((intensity as u64) * (scale as u64) <= 0xFFFFFF * 100) by (nonlinear_arith)
        requires
            intensity <= 0xFFFFFF,
            scale <= 100,
    ;
    let p: u64 = (intensity as u64) * (scale as u64);
    let n: u64 = 2 * p + (max as u64);
    let d: u64 = 2 * (max as u64);
    assert(2 * (intensity as int) * (scale as int) == 2 * ((intensity as int) * (scale as int)))
        by (nonlinear_arith);
    (n / d) as u32
}

/// The top surface of a column of quantized elevation `e`: every brick spans
/// at least one vertical unit, so a zero elevation still yields a unit layer.
pub open spec fn spec_top(e: int) -> int {
    if e == 0 {
        1
    } else {
        e
    }
}

/// The top surface for a cell of sampled intensity `i`; see [`spec_top`].
pub open spec fn spec_top_of(i: int, max: int, scale: int) -> int {
    spec_top(spec_quantize(i, max, scale))
}

/// Computes the top surface of a column; see [`spec_top_of`].
pub fn top_of(intensity: u32, max: u32, scale: u32) -> (r: u32)
    requires
        intensity <= max,
        max == 255 || max == 0xFFFFFF,
        1 <= scale <= 100,
    ensures
        r == spec_top_of(intensity as int, max as int, scale as int),
        1 <= r <= scale,
{
    let q: u32 = quantize(intensity, max, scale);
    if q == 0 {
        1
    } else {
        q
    }
}

} // verus!
