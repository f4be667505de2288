use vstd::prelude::*;

verus! {

/// Hands out element identifiers 0, 1, 2, ... in order.
pub struct IDGenerator {
    counter: usize,
}

impl View for IDGenerator {
    type V = nat;

    /// The next identifier to be handed out.
    closed spec fn view(&self) -> nat {
        self.counter as nat
    }
}

impl IDGenerator {
    pub fn new() -> (r: IDGenerator)
        ensures
            r@ == 0,
    {
        IDGenerator { counter: 0 }
    }

    pub fn get_next(&mut self) -> (r: usize)
        requires
            old(self)@ < usize::MAX,
        ensures
            r == old(self)@,
            final(self)@ == old(self)@ + 1,
    {
        self.counter += 1;
        self.counter - 1
    }
}

} // verus!
