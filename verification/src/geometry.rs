//! Geometry kernel: sizes, rectangles, box constraints, points, and the
//! saturating pixel arithmetic the layout engine is specified over.

use vstd::prelude::*;

verus! {

/// Saturating addition on pixel dimensions: the mathematical sum, capped at
/// `u32::MAX`.
pub open spec fn sat_add_spec(a: int, b: int) -> int {
    if a + b > u32::MAX {
        u32::MAX as int
    } else {
        a + b
    }
}

/// Saturating subtraction on pixel dimensions, floored at zero.
pub open spec fn sat_sub_spec(a: int, b: int) -> int {
    if a - b < 0 {
        0
    } else {
        a - b
    }
}

/// Saturating multiplication of a dimension by a count.
pub open spec fn sat_mul_spec(a: int, n: int) -> int {
    if a * n > u32::MAX {
        u32::MAX as int
    } else {
        a * n
    }
}

/// `v` clamped into `[lo, hi]` the way the layout engine does it:
/// first capped at `hi`, then raised to `lo` (so `lo` wins if `lo > hi`).
pub open spec fn clamp_spec(v: int, lo: int, hi: int) -> int {
    let capped = if v < hi {
        v
    } else {
        hi
    };
    if capped < lo {
        lo
    } else {
        capped
    }
}

pub fn sat_add(a: u32, b: u32) -> (r: u32)
    ensures
        r == sat_add_spec(a as int, b as int),
{
    if a > u32::MAX - b {
        u32::MAX
    } else {
        a + b
    }
}

pub fn sat_sub(a: u32, b: u32) -> (r: u32)
    ensures
        r == sat_sub_spec(a as int, b as int),
{
    if a > b {
        a - b
    } else {
        0
    }
}

pub fn sat_mul(a: u32, n: usize) -> (r: u32)
    ensures
        r == sat_mul_spec(a as int, n as int),
{
    if a == 0 {
        assert(a as int * n as int == 0) by (nonlinear_arith)
            requires
                a as int == 0,
        ;
        0
    } else if n as u64 > (u32::MAX / a) as u64 {
        proof {
            let q = (u32::MAX / a) as int;
            assert(a as int * n as int >= a as int * (q + 1)) by (nonlinear_arith)
                requires
                    n as int >= q + 1,
                    a as int > 0,
            ;
            assert(a as int * (q + 1) > u32::MAX) by (nonlinear_arith)
                requires
                    q == u32::MAX as int / a as int,
                    0 < a as int <= u32::MAX,
            ;
        }
        u32::MAX
    } else {
        proof {
            let q = (u32::MAX / a) as int;
            assert(a as int * n as int <= a as int * q) by (nonlinear_arith)
                requires
                    n as int <= q,
                    a as int > 0,
            ;
            assert(a as int * q <= u32::MAX) by (nonlinear_arith)
                requires
                    q == u32::MAX as int / a as int,
                    0 < a as int <= u32::MAX,
            ;
        }
        a * (n as u32)
    }
}

/// `v` clamped into `[lo, hi]`.
pub fn clamp(v: u32, lo: u32, hi: u32) -> (r: u32)
    ensures
        r == clamp_spec(v as int, lo as int, hi as int),
{
    let capped = if v < hi {
        v
    } else {
        hi
    };
    if capped < lo {
        lo
    } else {
        capped
    }
}

/// 2D size in whole logical pixels.
#[derive(Debug, Clone, Copy, PartialEq, Eq, Structural)]
pub struct Size {
    pub width: u32,
    pub height: u32,
}

impl Size {
    pub fn new(width: u32, height: u32) -> (r: Size)
        ensures
            r.width == width,
            r.height == height,
    {
        Size { width, height }
    }

    /// The component-wise maximum of two sizes.
    pub fn max(self, other: Size) -> (r: Size)
        ensures
            r.width == if self.width >= other.width { self.width } else { other.width },
            r.height == if self.height >= other.height { self.height } else { other.height },
    {
        Size {
            width: if self.width >= other.width {
                self.width
            } else {
                other.width
            },
            height: if self.height >= other.height {
                self.height
            } else {
                other.height
            },
        }
    }
}

/// Axis-aligned rectangle: position relative to the parent, plus size.
#[derive(Debug, Clone, Copy, PartialEq, Eq, Structural)]
pub struct Rectangle {
    pub x: u32,
    pub y: u32,
    pub width: u32,
    pub height: u32,
}

impl Rectangle {
    pub fn new(x: u32, y: u32, width: u32, height: u32) -> (r: Rectangle)
        ensures
            r == (Rectangle { x, y, width, height }),
    {
        Rectangle { x, y, width, height }
    }

    pub fn size(&self) -> (r: Size)
        ensures
            r.width == self.width,
            r.height == self.height,
    {
        Size { width: self.width, height: self.height }
    }
}

/// Min/max box constraints for layout. Well-formed limits have
/// `min <= max` on both axes; layout keeps that invariant when narrowing.
#[derive(Debug, Clone, Copy, PartialEq, Eq, Structural)]
pub struct Limits {
    pub min_width: u32,
    pub min_height: u32,
    pub max_width: u32,
    pub max_height: u32,
}

impl Limits {
    /// `min <= max` on both axes.
    pub open spec fn wf(self) -> bool {
        self.min_width <= self.max_width && self.min_height <= self.max_height
    }

    /// Limits with zero minimums.
    pub fn loose(max_width: u32, max_height: u32) -> (r: Limits)
        ensures
            r == (Limits { min_width: 0, min_height: 0, max_width, max_height }),
            r.wf(),
    {
        Limits { min_width: 0, min_height: 0, max_width, max_height }
    }

    pub fn new(min: Size, max: Size) -> (r: Limits)
        ensures
            r.min_width == min.width,
            r.min_height == min.height,
            r.max_width == max.width,
            r.max_height == max.height,
    {
        Limits {
            min_width: min.width,
            min_height: min.height,
            max_width: max.width,
            max_height: max.height,
        }
    }

    /// Narrows the maximum width to at most `w`. Narrowing below the minimum
    /// would break well-formedness, so callers may not do it.
    pub fn constrain_width(self, w: u32) -> (r: Limits)
        requires
            self.wf(),
            w >= self.min_width,
        ensures
            r == (Limits {
                max_width: if w < self.max_width { w } else { self.max_width },
                ..self
            }),
            r.wf(),
    {
        Limits {
            max_width: if w < self.max_width {
                w
            } else {
                self.max_width
            },
            ..self
        }
    }

    /// Narrows the maximum height to at most `h`; same rules as
    /// `constrain_width`.
    pub fn constrain_height(self, h: u32) -> (r: Limits)
        requires
            self.wf(),
            h >= self.min_height,
        ensures
            r == (Limits {
                max_height: if h < self.max_height { h } else { self.max_height },
                ..self
            }),
            r.wf(),
    {
        Limits {
            max_height: if h < self.max_height {
                h
            } else {
                self.max_height
            },
            ..self
        }
    }

    /// The limits a padded stack hands to its content: every bound lowered by
    /// twice the padding, floored at zero.
    pub open spec fn spec_shrink(self, padding: int) -> Limits {
        Limits {
            min_width: sat_sub_spec(self.min_width as int, 2 * padding) as u32,
            min_height: sat_sub_spec(self.min_height as int, 2 * padding) as u32,
            max_width: sat_sub_spec(self.max_width as int, 2 * padding) as u32,
            max_height: sat_sub_spec(self.max_height as int, 2 * padding) as u32,
        }
    }

    /// Shrinks every bound by twice the padding, floored at zero.
    pub fn shrink(self, padding: u32) -> (r: Limits)
        ensures
            r == self.spec_shrink(padding as int),
            self.wf() ==> r.wf(),
    {
        let double = sat_mul(padding, 2);
        Limits {
            min_width: sat_sub(self.min_width, double),
            min_height: sat_sub(self.min_height, double),
            max_width: sat_sub(self.max_width, double),
            max_height: sat_sub(self.max_height, double),
        }
    }
}

/// A 2D point in logical pixels; cursor positions may lie outside the
/// window, so coordinates are signed.
#[derive(Debug, Clone, Copy, PartialEq, Eq, Structural, Default)]
pub struct Point {
    pub x: i64,
    pub y: i64,
}

impl Point {
    pub fn new(x: i64, y: i64) -> (r: Point)
        ensures
            r == (Point { x, y }),
    {
        Point { x, y }
    }
}

/// A 2D displacement in logical pixels.
#[derive(Debug, Clone, Copy, PartialEq, Eq, Structural)]
pub struct Vector {
    pub x: i64,
    pub y: i64,
}

impl Vector {
    pub fn new(x: i64, y: i64) -> (r: Vector)
        ensures
            r == (Vector { x, y }),
    {
        Vector { x, y }
    }
}

/// A length request for one widget axis.
#[derive(Debug, Clone, Copy, PartialEq, Eq, Structural)]
pub enum Length {
    /// Shrink to fit the content.
    Shrink,
    /// Fill the available space.
    Fill,
    /// A fixed size in pixels.
    Fixed(u32),
}

impl Length {
    /// What the length means given the available space and the content's
    /// intrinsic size.
    pub open spec fn spec_resolve(self, available: int, intrinsic: int) -> int {
        match self {
            Length::Shrink => intrinsic,
            Length::Fill => available,
            Length::Fixed(v) => if v < available {
                v as int
            } else {
                available
            },
        }
    }

    /// Resolves the length to a concrete pixel value.
    pub fn resolve(self, available: u32, intrinsic: u32) -> (r: u32)
        ensures
            r == self.spec_resolve(available as int, intrinsic as int),
    {
        match self {
            Length::Shrink => intrinsic,
            Length::Fill => available,
            Length::Fixed(v) => if v < available {
                v
            } else {
                available
            },
        }
    }
}

impl Default for Length {
    fn default() -> (r: Length)
        ensures
            r == Length::Shrink,
    {
        Length::Shrink
    }
}

impl From<u32> for Length {
    fn from(value: u32) -> Length {
        Length::Fixed(value)
    }
}

impl vstd::std_specs::convert::FromSpecImpl<u32> for Length {
    open spec fn obeys_from_spec() -> bool {
        true
    }

    open spec fn from_spec(value: u32) -> Length {
        Length::Fixed(value)
    }
}

} // verus!
