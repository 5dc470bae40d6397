//! One palette entry.
use vstd::prelude::*;

verus! {

/// A palette entry as stored in a PAL file: one byte per channel, of which
/// the game uses the low six bits.
#[derive(Clone, Copy, Debug, PartialEq, Eq, Structural)]
pub struct PalColor {
    /// red 5 bits
    pub red: u8,
    /// green 6 bits
    pub green: u8,
    /// blue 5 bits
    pub blue: u8,
}

/// A channel scaled from the 0..=63 range to 0..=255, kept to its low byte as
/// a `u8` cast keeps it.
pub open spec fn scale_channel(c: u8) -> u8 {
    ((c as int * 255 / 63) % 256) as u8
}

impl PalColor {
    /// The entry as red, green, blue and alpha bytes; alpha is opaque.
    pub fn to_rgba(&self) -> (r: [u8; 4])
        ensures
            r@ == seq![scale_channel(self.red), scale_channel(self.green), scale_channel(self.blue), 255u8],
    {
        let red = Self::scale(self.red);
        let green = Self::scale(self.green);
        let blue = Self::scale(self.blue);
        [red, green, blue, 255]
    }

    fn scale(c: u8) -> (r: u8)
        ensures
            r == scale_channel(c),
    {
        let v: u32 = (c as u32 * 255) / 63;
        assert(v as u8 == v % 256) by (bit_vector);
        v as u8
    }
}

/// For the six-bit channels that PAL files hold, scaling loses nothing to the
/// byte cast: 0 stays 0, 63 becomes 255, and a larger channel never scales to
/// a smaller value.
pub proof fn lemma_scale_six_bit(c: u8, d: u8)
    requires
        c <= 63,
        d <= 63,
    ensures
        scale_channel(c) == c as int * 255 / 63,
        scale_channel(0) == 0,
        scale_channel(63) == 255,
        c <= d ==> scale_channel(c) <= scale_channel(d),
{
    assert(c as int * 255 / 63 <= 255) by (nonlinear_arith)
        requires c <= 63;
    assert(d as int * 255 / 63 <= 255) by (nonlinear_arith)
        requires d <= 63;
    assert(c <= d ==> c as int * 255 / 63 <= d as int * 255 / 63) by (nonlinear_arith);
}

} // verus!
