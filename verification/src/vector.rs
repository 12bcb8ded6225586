use vstd::prelude::*;

verus! {

/// A two-dimensional integer vector, used both as a free-form world position
/// and, with its derived equality and hash, as a chunk-coordinate key.
///
/// Callers must convert explicitly between world space and chunk space; the
/// type itself carries no coordinate system.
#[derive(Clone, Copy, PartialEq, Eq, Hash, Debug, Structural)]
pub struct Vector2D {
    pub x: i32,
    pub y: i32,
}

impl Vector2D {
    pub fn new(x: i32, y: i32) -> (v: Vector2D)
        ensures
            v.x == x,
            v.y == y,
    {
        Vector2D { x, y }
    }

    /// Component-wise sum.
    pub fn plus(self, other: Vector2D) -> (v: Vector2D)
        requires
            i32::MIN <= self.x + other.x <= i32::MAX,
            i32::MIN <= self.y + other.y <= i32::MAX,
        ensures
            v.x == self.x + other.x,
            v.y == self.y + other.y,
    {
        Vector2D { x: self.x + other.x, y: self.y + other.y }
    }

    /// Component-wise negation.
    pub fn neg(self) -> (v: Vector2D)
        requires
            self.x > i32::MIN,
            self.y > i32::MIN,
        ensures
            v.x == -self.x,
            v.y == -self.y,
    {
        Vector2D { x: -self.x, y: -self.y }
    }
}

pub open spec fn clamp_spec(value: int, min: int, max: int) -> int {
    if value < min {
        min
    } else if value > max {
        max
    } else {
        value
    }
}

/// Clamp `value` into the inclusive range `[min, max]`; used to turn an
/// arbitrary movement offset into a unit step.
pub fn clamp(value: i32, min: i32, max: i32) -> (r: i32)
    requires
        min <= max,
    ensures
        r == clamp_spec(value as int, min as int, max as int),
{
    if value < min {
        min
    } else if value > max {
        max
    } else {
        value
    }
}

/// Unit step towards the top of the screen (screen y grows downward).
pub fn up() -> (v: Vector2D)
    ensures
        v.x == 0 && v.y == -1,
{
    Vector2D { x: 0, y: -1 }
}

/// Unit step towards the bottom of the screen.
pub fn down() -> (v: Vector2D)
    ensures
        v.x == 0 && v.y == 1,
{
    Vector2D { x: 0, y: 1 }
}

/// Unit step to the left.
pub fn left() -> (v: Vector2D)
    ensures
        v.x == -1 && v.y == 0,
{
    Vector2D { x: -1, y: 0 }
}

/// Unit step to the right.
pub fn right() -> (v: Vector2D)
    ensures
        v.x == 1 && v.y == 0,
{
    Vector2D { x: 1, y: 0 }
}

} // verus!
