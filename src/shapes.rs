//! Rectangles and whether one fits inside another.
use vstd::prelude::*;

verus! {

#[derive(Debug)]
pub struct Rectangle {
    pub length: u32,
    pub width: u32,
}

impl Rectangle {
    /// Whether `other` fits strictly inside `self`, side by side.
    pub fn can_hold(&self, other: &Rectangle) -> (r: bool)
        ensures
            r == (self.length > other.length && self.width > other.width),
    {
        self.length > other.length && self.width > other.width
    }
}

} // verus!
