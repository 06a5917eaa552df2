use vstd::prelude::*;

verus! {

#[derive(PartialEq, Eq, Structural, Debug)]
pub struct Rectangle {
    width: u32,
    height: u32,
}

impl Rectangle {
    pub closed spec fn spec_width(&self) -> u32 {
        self.width
    }

    pub closed spec fn spec_height(&self) -> u32 {
        self.height
    }

    /// Whether `other` fits strictly inside this rectangle, side by side.
    pub fn can_hold(&self, other: &Rectangle) -> (r: bool)
        ensures
            r == (self.spec_width() > other.spec_width() && self.spec_height()
                > other.spec_height()),
    {
        self.width > other.width && self.height > other.height
    }

    pub fn new(width: u32, height: u32) -> (r: Self)
        ensures
            r.spec_width() == width,
            r.spec_height() == height,
    {
        Rectangle { width, height }
    }
}

} // verus!
