//! Identifiers handed out in order.
use vstd::prelude::*;

verus! {

/// A source of identifiers: each call of `next` hands out the value after the
/// one it handed out before, starting from zero. The owner lends it to
/// whoever needs identifiers; it is not copied, so no identifier is handed
/// out twice.
pub struct Sequence {
    value: usize,
}

impl View for Sequence {
    type V = nat;

    /// The value that the next call of `next` hands out.
    closed spec fn view(&self) -> nat {
        self.value as nat
    }
}

impl Sequence {
    pub fn new() -> (s: Sequence)
        ensures
            s@ == 0,
    {
        Sequence { value: 0 }
    }

    pub fn next(&mut self) -> (id: usize)
        requires
            old(self)@ < usize::MAX,
        ensures
            id == old(self)@,
            final(self)@ == old(self)@ + 1,
    {
        let id = self.value;
        self.value = id + 1;
        id
    }
}

impl Default for Sequence {
    fn default() -> (s: Self)
        ensures
            s@ == 0,
    {
        Sequence::new()
    }
}

/// Two calls of `next` hand out two distinct identifiers, the later one
/// greater than the earlier.
pub proof fn lemma_next_ids_increase(a: Sequence, b: Sequence, c: Sequence, id1: usize, id2: usize)
    requires
        id1 == a@,
        b@ == a@ + 1,
        id2 == b@,
        c@ == b@ + 1,
    ensures
        id1 < id2,
        c@ == a@ + 2,
{
}

} // verus!
