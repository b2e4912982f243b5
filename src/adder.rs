use vstd::prelude::*;

verus! {

/// Adds two to `a`.
pub fn add_two(a: i32) -> (r: i32)
    requires
        a <= i32::MAX - 2,
    ensures
        r == a + 2,
{
    a + 2
}

/// An axis-aligned rectangle given by its width and height.
#[derive(Debug)]
pub struct Rectangle {
    pub width: u32,
    pub height: u32,
}

impl Rectangle {
    /// Whether `other` fits strictly inside `self` in both dimensions.
    pub fn can_hold(&self, other: &Rectangle) -> (r: bool)
        ensures
            r == (self.width > other.width && self.height > other.height),
    {
        self.width > other.width && self.height > other.height
    }
}

/// A guess in the range 1 to 100.
pub struct Guess {
    pub value: i32,
}

impl Guess {
    /// Whether the guess holds a value in range.
    pub open spec fn wf(&self) -> bool {
        1 <= self.value <= 100
    }

    /// Makes a guess of `value`, which must lie in 1 to 100.
    pub fn new(value: i32) -> (g: Guess)
        requires
            1 <= value <= 100,
        ensures
            g.value == value,
            g.wf(),
    {
        Guess { value }
    }
}

} // verus!
