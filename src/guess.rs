use vstd::prelude::*;

verus! {

/// A guess between 1 and 100.
pub struct Guess {
    value: u32,
}

impl Guess {
    pub closed spec fn spec_value(&self) -> u32 {
        self.value
    }

    pub fn new(num: u32) -> (r: Self)
        requires
            1 <= num <= 100,
        ensures
            r.spec_value() == num,
    {
        Guess { value: num }
    }

    pub fn value(&self) -> (r: u32)
        ensures
            r == self.spec_value(),
    {
        self.value
    }
}

} // verus!
