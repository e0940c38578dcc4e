use vstd::prelude::*;

verus! {

/// The brick family a generated brick is recorded as.
///
/// The set of families is closed; the encoder maps each variant to its
/// concrete asset identifier through an exhaustive table.
#[derive(Debug, Clone, Copy, PartialEq, Eq, Structural)]
pub enum Asset {
    Default,
    Tile,
    SmoothTile,
    Stud,
    Micro,
}

/// Immutable configuration controlling every downstream decision.
///
/// `size` is the footprint unit of one grid cell, as a half-extent in game
/// units; [`GenOptions::effective_size`] derives it from a stud count, with
/// the 5x multiplier of the stud-based (non-micro) families applied.
/// `scale` is the vertical unit multiplier: quantized elevations range over
/// `0..=scale`.
///
/// `quadtree` and `greedy` select the merging strategy; `greedy` takes
/// precedence, and with both false the no-optimization strategy runs.
#[derive(Debug, Clone, Copy)]
pub struct GenOptions {
    pub size: u16,
    pub scale: u32,
    pub cull: bool,
    pub asset: Asset,
    pub micro: bool,
    pub stud: bool,
    pub snap: bool,
    pub img: bool,
    pub glow: bool,
    pub hdmap: bool,
    pub lrgb: bool,
    pub nocollide: bool,
    pub quadtree: bool,
    pub greedy: bool,
}

/// The bounds the configuration surface admits: a footprint unit derived
/// from a stud count in `1..=100` (at most 500 after the stud-family
/// multiplier) and a vertical multiplier in `1..=100`.
pub open spec fn spec_options_valid(o: GenOptions) -> bool {
    &&& 1 <= o.size <= 500
    &&& 1 <= o.scale <= 100
}

impl GenOptions {
    /// The footprint unit recorded per cell: micro bricks use the raw stud
    /// count as a fine unit, while every stud-based family spans 5 game
    /// half-extent units per stud.
    pub fn effective_size(studs: u16, micro: bool) -> (r: u16)
        requires
            1 <= studs <= 100,
        ensures
            micro ==> r == studs,
            !micro ==> r == studs * 5,
            1 <= r <= 500,
    {
        if micro {
            studs
        } else {
            studs * 5
        }
    }

    /// True when the configuration is within the admitted bounds.
    pub fn valid(&self) -> (r: bool)
        ensures
            r == spec_options_valid(*self),
    {
        1 <= self.size && self.size <= 500 && 1 <= self.scale && self.scale <= 100
    }
}

} // verus!
