//! Two-component vectors.
use vstd::prelude::*;

verus! {

#[derive(Debug, Default, Clone, Copy, PartialEq, Eq, Hash)]
pub struct Vec2<T> {
    pub x: T,
    pub y: T,
}

impl<T> Vec2<T> {
    pub fn new(x: T, y: T) -> (r: Vec2<T>)
        ensures
            r.x == x,
            r.y == y,
    {
        Vec2 { x, y }
    }
}

impl Vec2<u64> {
    /// `x * y`.
    pub fn area(self) -> (r: u64)
        requires
            self.x * self.y <= u64::MAX,
        ensures
            r == self.x * self.y,
    {
        self.x * self.y
    }
}

impl Vec2<u32> {
    /// `x * y`.
    pub fn area(self) -> (r: u32)
        requires
            self.x * self.y <= u32::MAX,
        ensures
            r == self.x * self.y,
    {
        self.x * self.y
    }
}

} // verus!
