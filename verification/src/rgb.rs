//! An exact 8-bit RGB color with saturating channel arithmetic.

use vstd::prelude::*;

verus! {

/// An RGB color; each channel saturates at its bounds.
#[derive(Clone, Copy, PartialEq, Eq, Structural, Debug)]
pub struct Rgb {
    pub r: u8,
    pub g: u8,
    pub b: u8,
}

/// A channel sum clamped to the channel's maximum.
pub open spec fn sat_add(a: u8, b: u8) -> u8 {
    if a + b > 255 {
        255u8
    } else {
        (a + b) as u8
    }
}

/// A channel difference clamped to zero.
pub open spec fn sat_sub(a: u8, b: u8) -> u8 {
    if a < b {
        0u8
    } else {
        (a - b) as u8
    }
}

/// A channel product clamped to the channel's maximum.
pub open spec fn sat_mul(a: u8, b: u8) -> u8 {
    if a * b > 255 {
        255u8
    } else {
        (a * b) as u8
    }
}

/// Multiplies one channel, clamping at the maximum.
fn mul_channel(a: u8, b: u8) -> (c: u8)
    ensures
        c == sat_mul(a, b),
{
    proof {
        assert(a as int * b as int <= 255 * 255) by (nonlinear_arith)
            requires
                a <= 255,
                b <= 255,
        ;
    }
    let prod: u16 = (a as u16) * (b as u16);
    if prod > 255 {
        255
    } else {
        prod as u8
    }
}

impl Rgb {
    /// The color with the given channels.
    pub fn new(r: u8, g: u8, b: u8) -> (c: Rgb)
        ensures
            c == (Rgb { r, g, b }),
    {
        Rgb { r, g, b }
    }

    /// Channel-wise saturating sum.
    pub fn add(self, other: Rgb) -> (c: Rgb)
        ensures
            c.r == sat_add(self.r, other.r),
            c.g == sat_add(self.g, other.g),
            c.b == sat_add(self.b, other.b),
    {
        Rgb {
            r: self.r.saturating_add(other.r),
            g: self.g.saturating_add(other.g),
            b: self.b.saturating_add(other.b),
        }
    }

    /// Channel-wise saturating difference.
    pub fn sub(self, other: Rgb) -> (c: Rgb)
        ensures
            c.r == sat_sub(self.r, other.r),
            c.g == sat_sub(self.g, other.g),
            c.b == sat_sub(self.b, other.b),
    {
        Rgb {
            r: self.r.saturating_sub(other.r),
            g: self.g.saturating_sub(other.g),
            b: self.b.saturating_sub(other.b),
        }
    }

    /// Channel-wise saturating product.
    pub fn mul(self, other: Rgb) -> (c: Rgb)
        ensures
            c.r == sat_mul(self.r, other.r),
            c.g == sat_mul(self.g, other.g),
            c.b == sat_mul(self.b, other.b),
    {
        Rgb { r: mul_channel(self.r, other.r), g: mul_channel(self.g, other.g), b: mul_channel(
            self.b,
            other.b,
        ) }
    }

    /// Channel-wise division. A zero channel in the divisor fails, and
    /// nothing is divided.
    pub fn div(self, other: Rgb) -> (c: Option<Rgb>)
        ensures
            c is Some <==> (other.r != 0 && other.g != 0 && other.b != 0),
            c matches Some(v) ==> v == (Rgb {
                r: (self.r / other.r) as u8,
                g: (self.g / other.g) as u8,
                b: (self.b / other.b) as u8,
            }),
    {
        if other.r == 0 || other.g == 0 || other.b == 0 {
            None
        } else {
            Some(Rgb { r: self.r / other.r, g: self.g / other.g, b: self.b / other.b })
        }
    }
}

} // verus!
