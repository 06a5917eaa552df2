use vstd::prelude::*;

verus! {

#[derive(Debug)]
pub struct Shoe {
    pub size: u32,
    pub style: String,
}

impl Shoe {
    pub fn new(size: u32, style: String) -> (r: Shoe)
        ensures
            r.size == size,
            r.style == style,
    {
        Shoe { size, style }
    }
}

pub open spec fn fits(shoe_size: u32) -> spec_fn(Shoe) -> bool {
    |s: Shoe| s.size == shoe_size
}

/// The shoes of size `shoe_size`, in their order.
pub fn shoes_in_my_size(shoes: Vec<Shoe>, shoe_size: u32) -> (r: Vec<Shoe>)
    ensures
        r@ == shoes@.filter(fits(shoe_size)),
{
    let mut out: Vec<Shoe> = Vec::new();
    let mut i: usize = 0;
    while i < shoes.len()
        invariant
            0 <= i <= shoes.len(),
            out@ == shoes@.take(i as int).filter(fits(shoe_size)),
        decreases shoes.len() - i,
    {
        proof {
            assert(shoes@.take(i + 1).drop_last() =~= shoes@.take(i as int));
        }
        proof {
            assert(shoes@.take(i + 1).last() == shoes@[i as int]);
            assert(fits(shoe_size)(shoes@[i as int]) == (shoes@[i as int].size == shoe_size));
            reveal(Seq::filter);
            assert(shoes@.take(i + 1).filter(fits(shoe_size)) == if shoes@[i as int].size == shoe_size {
                shoes@.take(i as int).filter(fits(shoe_size)).push(shoes@[i as int])
            } else {
                shoes@.take(i as int).filter(fits(shoe_size))
            });
        }
        if shoes[i].size == shoe_size {
            let shoe = Shoe { size: shoes[i].size, style: shoes[i].style.clone() };
            proof {
                assert(shoe == shoes@[i as int]);
            }
            out.push(shoe);
        }
        i = i + 1;
    }
    proof {
        assert(shoes@.take(shoes.len() as int) =~= shoes@);
    }
    out
}

} // verus!
