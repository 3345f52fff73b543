//! Pixel lengths, points and sizes.

use vstd::prelude::*;

verus! {

/// How many units one pixel has.
pub const UNITS_PER_PIXEL: i64 = 0x1_0000_0000;

/// A length or a coordinate in pixels, as a fixed-point number with 32 fractional bits.
///
/// Every single-precision number between 2^-9 and 2^31 in magnitude is a whole number of
/// units, so ordinary pixel coordinates are represented without loss. Results that leave the
/// range of the type stop at its ends, where a floating-point sum would run into infinity.
///
/// The view of a length is its number of units.
#[derive(Clone, Copy, Debug, PartialEq, Eq, PartialOrd, Ord, Hash, Default, Structural)]
pub struct Pixels {
    /// The length in units of 2^-32 pixel.
    pub units: i64,
}

impl View for Pixels {
    type V = int;

    open spec fn view(&self) -> int {
        self.units as int
    }
}

impl Pixels {
    /// The length of `units` units, or the nearest length there is.
    pub open spec fn nearest(units: int) -> Pixels {
        if units < i64::MIN {
            Pixels { units: i64::MIN }
        } else if units > i64::MAX {
            Pixels { units: i64::MAX }
        } else {
            Pixels { units: units as i64 }
        }
    }

    /// The length of nothing.
    pub fn zero() -> (length: Pixels)
        ensures
            length@ == 0,
    {
        Pixels { units: 0 }
    }

    /// The greatest length.
    pub fn max_value() -> (length: Pixels)
        ensures
            length@ == i64::MAX,
            forall|other: Pixels| other@ <= length@,
    {
        Pixels { units: i64::MAX }
    }

    /// The length of `units` units, or the nearest length there is.
    pub fn saturating(units: i128) -> (length: Pixels)
        ensures
            length == Pixels::nearest(units as int),
    {
        if units < i64::MIN as i128 {
            Pixels { units: i64::MIN }
        } else if units > i64::MAX as i128 {
            Pixels { units: i64::MAX }
        } else {
            Pixels { units: units as i64 }
        }
    }

    /// The sum of two lengths.
    pub fn plus(self, other: Pixels) -> (length: Pixels)
        ensures
            length == Pixels::nearest(self@ + other@),
    {
        Pixels::saturating(self.units as i128 + other.units as i128)
    }

    /// What is left of this length without `other`.
    pub fn minus(self, other: Pixels) -> (length: Pixels)
        ensures
            length == Pixels::nearest(self@ - other@),
    {
        Pixels::saturating(self.units as i128 - other.units as i128)
    }

    /// This length `count` times in a row.
    pub fn times(self, count: i128) -> (length: Pixels)
        requires
            0 <= count <= 0x1_0000_0000_0000_0000,
        ensures
            length == Pixels::nearest(count * self@),
    {
        let units: i128 = self.units as i128;
        assert(-0x8000_0000_0000_0000_0000_0000_0000_0000 <= count * units
            <= 0x7fff_ffff_ffff_ffff_ffff_ffff_ffff_ffff) by (nonlinear_arith)
            requires
                0 <= count <= 0x1_0000_0000_0000_0000,
                -0x8000_0000_0000_0000 <= units <= 0x7fff_ffff_ffff_ffff,
        ;
        Pixels::saturating(count * units)
    }

    /// The shorter of two lengths.
    pub fn smaller(self, other: Pixels) -> (length: Pixels)
        ensures
            length == (if self@ <= other@ {
                self
            } else {
                other
            }),
    {
        if self.units <= other.units {
            self
        } else {
            other
        }
    }

    /// Whether two optional lengths are the same.
    pub fn same_option(a: Option<Pixels>, b: Option<Pixels>) -> (same: bool)
        ensures
            same == (a == b),
    {
        match (a, b) {
            (Some(a), Some(b)) => a.units == b.units,
            (None, None) => true,
            _ => false,
        }
    }
}

/// The length of a whole number of pixels.
pub fn px(whole: i32) -> (length: Pixels)
    ensures
        length@ == whole * UNITS_PER_PIXEL,
{
    Pixels { units: whole as i64 * UNITS_PER_PIXEL }
}

/// A place in the plane.
#[derive(Clone, Copy, Debug, PartialEq, Eq, Default, Structural)]
pub struct Point<T> {
    /// How far to the right.
    pub x: T,
    /// How far down.
    pub y: T,
}

/// The place at the given coordinates.
pub fn point<T>(x: T, y: T) -> (place: Point<T>)
    ensures
        place == (Point { x, y }),
{
    Point { x, y }
}

/// A width and a height.
#[derive(Clone, Copy, Debug, PartialEq, Eq, Default, Structural)]
pub struct Size<T> {
    /// How wide.
    pub width: T,
    /// How high.
    pub height: T,
}

} // verus!
