//! Plain value types shared by shapes, colorings and their serialized forms.

use vstd::prelude::*;

verus! {

/// The color space in which a coloring tween mixes its start and end colors.
#[derive(Clone, Copy, Debug, PartialEq, Eq, Structural)]
pub enum ColorSpace {
    Linear,
    Hsv,
    Lab,
    Lch,
}

/// How the ends of a stroked line are drawn (the serialized form of a line cap).
#[derive(Clone, Copy, Debug, PartialEq, Eq, Structural)]
pub enum LineCapDef {
    Butt,
    Square,
    Round,
}

/// A pair of 32-bit floats packed in a `u64`, as the serialized form of a
/// two-lane vector holds them: the bits of the first lane in the low half,
/// those of the second lane in the high half.
#[derive(Clone, Copy, Debug, PartialEq, Eq, Structural)]
pub struct F32x2Def(pub u64);

/// The packed value of the lanes whose bit patterns are `x` and `y`.
pub open spec fn packed_lanes(x: u32, y: u32) -> u64 {
    (x as u64) | ((y as u64) << 32u64)
}

impl F32x2Def {
    /// Packs the lanes whose bit patterns are `x` (first) and `y` (second).
    pub fn from_lanes(x: u32, y: u32) -> (r: F32x2Def)
        ensures
            r.0 == packed_lanes(x, y),
    {
        F32x2Def((x as u64) | ((y as u64) << 32u64))
    }

    /// The bit patterns of the first and the second lane.
    pub fn lanes(&self) -> (r: (u32, u32))
        ensures
            packed_lanes(r.0, r.1) == self.0,
    {
        let v = self.0;
        let x = (v & 0xFFFF_FFFFu64) as u32;
        let y = (v >> 32u64) as u32;
        assert(((x as u64) | ((y as u64) << 32u64)) == v) by (bit_vector)
            requires
                x == (v & 0xFFFF_FFFFu64) as u32,
                y == (v >> 32u64) as u32,
        ;
        (x, y)
    }
}

/// Packing two lanes and reading them back gives the same lanes.
pub proof fn law_lanes_round_trip(x: u32, y: u32)
    ensures
        ((packed_lanes(x, y) & 0xFFFF_FFFFu64) as u32) == x,
        ((packed_lanes(x, y) >> 32u64) as u32) == y,
{
    assert((((x as u64) | ((y as u64) << 32u64)) & 0xFFFF_FFFFu64) as u32 == x) by (bit_vector);
    assert((((x as u64) | ((y as u64) << 32u64)) >> 32u64) as u32 == y) by (bit_vector);
}

} // verus!
