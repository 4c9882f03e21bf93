use vstd::prelude::*;

verus! {

/// One pixel: red, green, blue and alpha channels.
#[derive(Debug, Clone, Copy, PartialEq, Eq, Structural)]
pub struct Rgba {
    pub r: u8,
    pub g: u8,
    pub b: u8,
    pub a: u8,
}

impl Rgba {
    /// Splits `0xRRGGBBAA` into its four channels.
    pub fn from_u32(n: u32) -> (c: Rgba)
        ensures
            c.r == n / 0x100_0000,
            c.g == (n / 0x1_0000) % 0x100,
            c.b == (n / 0x100) % 0x100,
            c.a == n % 0x100,
    {
        assert(((n & 0xff000000u32) >> 24u32) == n / 0x100_0000) by (bit_vector);
        assert(((n & 0x00ff0000u32) >> 16u32) == (n / 0x1_0000) % 0x100) by (bit_vector);
        assert(((n & 0x0000ff00u32) >> 8u32) == (n / 0x100) % 0x100) by (bit_vector);
        assert((n & 0x000000ffu32) == n % 0x100) by (bit_vector);
        Rgba {
            r: ((n & 0xff000000u32) >> 24u32) as u8,
            g: ((n & 0x00ff0000u32) >> 16u32) as u8,
            b: ((n & 0x0000ff00u32) >> 8u32) as u8,
            a: (n & 0x000000ffu32) as u8,
        }
    }
}

} // verus!
