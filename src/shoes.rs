//! Picking the shoes of one size out of a collection.
use vstd::prelude::*;

verus! {

#[derive(PartialEq, Debug)]
pub struct Shoe {
    pub size: u32,
    pub style: String,
}

/// The shoes of `s` whose size is `size`, in order.
pub open spec fn of_size(s: Seq<Shoe>, size: u32) -> Seq<Shoe>
    decreases s.len(),
{
    if s.len() == 0 {
        Seq::empty()
    } else if s.last().size == size {
        of_size(s.drop_last(), size).push(s.last())
    } else {
        of_size(s.drop_last(), size)
    }
}

/// The shoes of size `shoe_size`, in the order they came in.
pub fn shoes_in_my_size(shoes: Vec<Shoe>, shoe_size: u32) -> (r: Vec<Shoe>)
    ensures
        r@ == of_size(shoes@, shoe_size),
{
    let ghost all = shoes@;
    let mut rest = shoes;
    let mut out: Vec<Shoe> = Vec::new();
    let ghost mut k: int = 0;
    while rest.len() > 0
        invariant
            0 <= k <= all.len(),
            rest@ == all.skip(k),
            out@ == of_size(all.take(k), shoe_size),
        decreases rest@.len(),
    {
        let shoe = rest.remove(0);
        assert(all.take(k + 1).drop_last() =~= all.take(k));
        assert(shoe == all[k]);
        if shoe.size == shoe_size {
            out.push(shoe);
        }
        proof {
            k = k + 1;
        }
        assert(rest@ =~= all.skip(k));
    }
    assert(all.take(k) =~= all);
    out
}

} // verus!
