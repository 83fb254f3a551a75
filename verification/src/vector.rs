//! Points, displacements and rectangles of the plane.
use vstd::prelude::*;

verus! {

/// A vector of the plane with unbounded integer coordinates: the mathematical
/// value of a [`Vec2`] or a [`Delta`].
pub struct Vector {
    pub x: int,
    pub y: int,
}

impl Vector {
    pub open spec fn zero() -> Vector {
        Vector { x: 0, y: 0 }
    }

    pub open spec fn plus(self, other: Vector) -> Vector {
        Vector { x: self.x + other.x, y: self.y + other.y }
    }

    pub open spec fn minus(self, other: Vector) -> Vector {
        Vector { x: self.x - other.x, y: self.y - other.y }
    }

    pub open spec fn dot(self, other: Vector) -> int {
        self.x * other.x + self.y * other.y
    }

    /// The squared Euclidean length.
    pub open spec fn norm_sq(self) -> int {
        self.x * self.x + self.y * self.y
    }

    /// Both coordinates lie within `bound` of zero.
    pub open spec fn within(self, bound: int) -> bool {
        -bound <= self.x <= bound && -bound <= self.y <= bound
    }
}

/// A position or a velocity, in thousandths of a world unit.
#[derive(Clone, Copy, Debug, PartialEq, Eq, Structural)]
pub struct Vec2 {
    pub x: i32,
    pub y: i32,
}

impl View for Vec2 {
    type V = Vector;

    open spec fn view(&self) -> Vector {
        Vector { x: self.x as int, y: self.y as int }
    }
}

/// A displacement between two positions or a steering contribution: a vector
/// whose coordinates may exceed those of a [`Vec2`].
#[derive(Clone, Copy, Debug, PartialEq, Eq, Structural)]
pub struct Delta {
    pub x: i64,
    pub y: i64,
}

impl View for Delta {
    type V = Vector;

    open spec fn view(&self) -> Vector {
        Vector { x: self.x as int, y: self.y as int }
    }
}

/// The largest distance along one axis between two positions.
pub open spec fn span() -> int {
    0xFFFF_FFFF
}

impl Vec2 {
    pub fn new(x: i32, y: i32) -> (v: Vec2)
        ensures
            v.x == x,
            v.y == y,
    {
        Vec2 { x, y }
    }

    /// The displacement that leads from `self` to `target`.
    pub fn offset_to(&self, target: &Vec2) -> (d: Delta)
        ensures
            d@ == target@.minus(self@),
            d@.within(span()),
    {
        Delta { x: target.x as i64 - self.x as i64, y: target.y as i64 - self.y as i64 }
    }

    /// This vector with 64-bit coordinates.
    pub fn widen(&self) -> (d: Delta)
        ensures
            d@ == self@,
    {
        Delta { x: self.x as i64, y: self.y as i64 }
    }

    /// The squared Euclidean length.
    pub fn norm_sq(&self) -> (n: u64)
        ensures
            n == self@.norm_sq(),
            n <= 0x8000_0000_0000_0000,
    {
        self.widen().norm_sq() as u64
    }
}

impl Delta {
    pub fn new(x: i64, y: i64) -> (d: Delta)
        ensures
            d.x == x,
            d.y == y,
    {
        Delta { x, y }
    }

    /// The squared Euclidean length.
    pub fn norm_sq(&self) -> (n: u128)
        ensures
            n == self@.norm_sq(),
            self@.within(span()) ==> n <= 2 * span() * span(),
            self@.within(0x8000_0000) ==> n <= 0x8000_0000_0000_0000,
    {
        let x: i128 = self.x as i128;
        let y: i128 = self.y as i128;
        assert(0 <= x * x <= 0x4000_0000_0000_0000_0000_0000_0000_0000 && 0 <= y * y
            <= 0x4000_0000_0000_0000_0000_0000_0000_0000) by (nonlinear_arith)
            requires
                -0x8000_0000_0000_0000 <= x <= 0x8000_0000_0000_0000,
                -0x8000_0000_0000_0000 <= y <= 0x8000_0000_0000_0000,
        ;
        assert(self@.within(span()) ==> x * x <= span() * span() && y * y <= span() * span())
            by (nonlinear_arith)
            requires
                x == self@.x,
                y == self@.y,
        ;
        assert(self@.within(0x8000_0000) ==> x * x <= 0x4000_0000_0000_0000 && y * y
            <= 0x4000_0000_0000_0000) by (nonlinear_arith)
            requires
                x == self@.x,
                y == self@.y,
        ;
        (x * x) as u128 + (y * y) as u128
    }
}

/// An axis-aligned rectangle: a corner and the extent from it along each axis.
#[derive(Clone, Copy, Debug, PartialEq, Eq, Structural)]
pub struct Rect {
    pub x: i32,
    pub y: i32,
    pub w: i32,
    pub h: i32,
}

impl Rect {
    pub fn new(x: i32, y: i32, w: i32, h: i32) -> (r: Rect)
        ensures
            r == (Rect { x, y, w, h }),
    {
        Rect { x, y, w, h }
    }

    pub open spec fn spec_left(&self) -> int {
        self.x as int
    }

    pub open spec fn spec_right(&self) -> int {
        self.x + self.w
    }

    pub open spec fn spec_top(&self) -> int {
        self.y as int
    }

    pub open spec fn spec_bottom(&self) -> int {
        self.y + self.h
    }

    pub fn left(&self) -> (v: i64)
        ensures
            v == self.spec_left(),
    {
        self.x as i64
    }

    pub fn right(&self) -> (v: i64)
        ensures
            v == self.spec_right(),
    {
        self.x as i64 + self.w as i64
    }

    pub fn top(&self) -> (v: i64)
        ensures
            v == self.spec_top(),
    {
        self.y as i64
    }

    pub fn bottom(&self) -> (v: i64)
        ensures
            v == self.spec_bottom(),
    {
        self.y as i64 + self.h as i64
    }
}

} // verus!
