use vstd::prelude::*;
use crate::color::Color;

verus! {

/// Row-major index of cell `(x, y)` in a grid of width `w`.
pub open spec fn spec_index(w: nat, x: nat, y: nat) -> nat {
    y * w + x
}

/// An in-bounds cell indexes inside the backing row-major buffer.
pub proof fn lemma_index_in_bounds(w: nat, h: nat, x: nat, y: nat)
    requires
        x < w,
        y < h,
    ensures
        y * w + x < w * h,
        y * w + x <= (h - 1) * w + x,
    decreases h,
{
    assert(y * w + x < w * h) by (nonlinear_arith)
        requires
            x < w,
            y < h,
    ;
    assert(y * w <= (h - 1) * w) by (nonlinear_arith)
        requires
            y < h,
    ;
}

/// A width x height array of non-negative integer elevations, row-major,
/// pixel-indexed. Built once from decoded images and immutable thereafter.
/// In flat/image mode every value is zero.
///
/// Standard sampling stores 8-bit intensities; high-detail sampling stores
/// 24-bit intensities. `max_intensity` records the ceiling the values were
/// sampled against, which the quantization rule normalizes by.
#[derive(Debug, Clone)]
pub struct HeightGrid {
    pub width: usize,
    pub height: usize,
    pub max_intensity: u32,
    pub data: Vec<u32>,
}

impl HeightGrid {
    /// Well-formedness: the backing buffer holds exactly one elevation per
    /// cell, both dimensions are positive, every elevation is at most the
    /// recorded ceiling, and the ceiling is one of the two sampling depths.
    pub open spec fn wf(&self) -> bool {
        &&& self.data@.len() == self.width * self.height
        &&& self.width >= 1
        &&& self.height >= 1
        &&& (self.max_intensity == 255 || self.max_intensity == 0xFFFFFF)
        &&& forall|i: int| 0 <= i < self.data@.len() ==> self.data@[i] <= self.max_intensity
    }

    /// The elevation of cell `(x, y)`.
    pub open spec fn spec_at(&self, x: int, y: int) -> u32 {
        self.data@[y * self.width + x]
    }

    /// A grid where every cell holds elevation zero, as image mode builds.
    pub open spec fn spec_flat(&self) -> bool {
        forall|i: int| 0 <= i < self.data@.len() ==> self.data@[i] == 0
    }

    /// Builds the all-zero grid of the given dimensions, used when image
    /// mode bypasses heightmap decoding.
    pub fn new_flat(width: usize, height: usize) -> (r: HeightGrid)
        requires
            width >= 1,
            height >= 1,
            width * height <= usize::MAX,
        ensures
            r.wf(),
            r.width == width,
            r.height == height,
            r.max_intensity == 255,
            r.spec_flat(),
    {
        proof {
            lemma_index_in_bounds(width as nat, height as nat, (width - 1) as nat, (height
                - 1) as nat);
        }
        let n: usize = width * height;
        let mut data: Vec<u32> = Vec::new();
        let mut i: usize = 0;
        while i < n
            invariant
                i <= n,
                data@.len() == i,
                forall|j: int| 0 <= j < i ==> data@[j] == 0,
            decreases n - i,
        {
            data.push(0);
            i = i + 1;
        }
        HeightGrid { width, height, max_intensity: 255, data }
    }

    /// Wraps sampled elevations of the given dimensions.
    pub fn from_values(width: usize, height: usize, max_intensity: u32, data: Vec<u32>) -> (r:
        HeightGrid)
        requires
            width >= 1,
            height >= 1,
            data@.len() == width * height,
            max_intensity == 255 || max_intensity == 0xFFFFFF,
            forall|i: int| 0 <= i < data@.len() ==> data@[i] <= max_intensity,
        ensures
            r.wf(),
            r.width == width,
            r.height == height,
            r.max_intensity == max_intensity,
            r.data == data,
    {
        HeightGrid { width, height, max_intensity, data }
    }

    pub fn get_width(&self) -> (r: usize)
        ensures
            r == self.width,
    {
        self.width
    }

    pub fn get_height(&self) -> (r: usize)
        ensures
            r == self.height,
    {
        self.height
    }

    /// The elevation of cell `(x, y)`.
    pub fn at(&self, x: usize, y: usize) -> (r: u32)
        requires
            self.wf(),
            x < self.width,
            y < self.height,
        ensures
            r == self.spec_at(x as int, y as int),
            r <= self.max_intensity,
    {
        proof {
            lemma_index_in_bounds(self.width as nat, self.height as nat, x as nat, y as nat);
        }
        // binding the length keeps the index bound in machine range
        let _len: usize = self.data.len();
        self.data[y * self.width + x]
    }
}

/// A grid of RGBA samples with the same dimensions as the heightmap it
/// colors; absent implies a uniform default color. When the linear-color
/// option is set the stored samples were gamma-decoded at sampling time, so
/// merge comparisons always see the post-linearization representation.
#[derive(Debug, Clone)]
pub struct ColorGrid {
    pub width: usize,
    pub height: usize,
    pub data: Vec<Color>,
}

impl ColorGrid {
    /// Well-formedness: one sample per cell, positive dimensions.
    pub open spec fn wf(&self) -> bool {
        &&& self.data@.len() == self.width * self.height
        &&& self.width >= 1
        &&& self.height >= 1
    }

    /// The sample of cell `(x, y)`.
    pub open spec fn spec_at(&self, x: int, y: int) -> Color {
        self.data@[y * self.width + x]
    }

    /// Wraps sampled colors of the given dimensions.
    pub fn from_values(width: usize, height: usize, data: Vec<Color>) -> (r: ColorGrid)
        requires
            width >= 1,
            height >= 1,
            data@.len() == width * height,
        ensures
            r.wf(),
            r.width == width,
            r.height == height,
            r.data == data,
    {
        ColorGrid { width, height, data }
    }

    pub fn get_width(&self) -> (r: usize)
        ensures
            r == self.width,
    {
        self.width
    }

    pub fn get_height(&self) -> (r: usize)
        ensures
            r == self.height,
    {
        self.height
    }

    /// The sample of cell `(x, y)`.
    pub fn at(&self, x: usize, y: usize) -> (r: Color)
        requires
            self.wf(),
            x < self.width,
            y < self.height,
        ensures
            r == self.spec_at(x as int, y as int),
    {
        proof {
            lemma_index_in_bounds(self.width as nat, self.height as nat, x as nat, y as nat);
        }
        // binding the length keeps the index bound in machine range
        let _len: usize = self.data.len();
        self.data[y * self.width + x]
    }
}

/// The dimension-match invariant between a heightmap and a colormap.
pub open spec fn spec_dims_match(h: &HeightGrid, c: &ColorGrid) -> bool {
    h.width == c.width && h.height == c.height
}

} // verus!
