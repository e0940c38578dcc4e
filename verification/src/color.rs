use vstd::prelude::*;

verus! {

/// One RGBA sample of the colormap.
///
/// Merging strategies compare colors with `==`; when the linear-color option
/// is set, every channel is gamma-decoded once at sampling time, so equality
/// is always taken on the post-linearization representation.
#[derive(Debug, Clone, Copy, PartialEq, Eq, Structural)]
pub struct Color {
    pub r: u8,
    pub g: u8,
    pub b: u8,
    pub a: u8,
}

/// The uniform default color used when no colormap is supplied.
pub open spec fn spec_default_color() -> Color {
    Color { r: 255, g: 255, b: 255, a: 255 }
}

/// Gamma decode of one 8-bit channel, as a power-2.0 curve with round-half-up:
/// `round(c^2 / 255)`.
pub open spec fn spec_linearize_channel(c: u8) -> u8 {
    (((2 * (c as int) * (c as int) + 255) / 510) as u8)
}

/// Gamma decode of a sample: every color channel is linearized, the alpha
/// channel is kept as it is.
pub open spec fn spec_linearize(c: Color) -> Color {
    Color {
        r: spec_linearize_channel(c.r),
        g: spec_linearize_channel(c.g),
        b: spec_linearize_channel(c.b),
        a: c.a,
    }
}

impl Color {
    /// The uniform default color used when no colormap is supplied.
    pub fn default_color() -> (r: Color)
        ensures
            r == spec_default_color(),
    {
        Color { r: 255, g: 255, b: 255, a: 255 }
    }

    /// True when the sample is fully transparent; such cells are dropped by
    /// the culling policy.
    pub fn is_transparent(&self) -> (r: bool)
        ensures
            r == (self.a == 0),
    {
        self.a == 0
    }

    /// Gamma decode of this sample into linear color space.
    pub fn linearize(&self) -> (r: Color)
        ensures
            r == spec_linearize(*self),
    {
        Color {
            r: linearize_channel(self.r),
            g: linearize_channel(self.g),
            b: linearize_channel(self.b),
            a: self.a,
        }
    }
}

/// Gamma decode of one channel; see [`spec_linearize_channel`].
fn linearize_channel(c: u8) -> (r: u8)
    ensures
        r == spec_linearize_channel(c),
{
    let cu: u32 = c as u32;
    assert(cu * cu <= 65025) by (nonlinear_arith)
        requires
            cu <= 255,
    ;
    let sq: u32 = cu * cu;
    let w: u32 = 2 * sq + 255;
    assert(2 * (c as int) * (c as int) == 2 * ((c as int) * (c as int))) by (nonlinear_arith);
    assert(w / 510 <= 255);
    (w / 510) as u8
}

} // verus!
