use vstd::prelude::*;

verus! {

/// The archetypes observed in a world: distinct component-type combinations,
/// each given by a signature, numbered in the order they were first observed.
pub struct Archetypes {
    signatures: Vec<u64>,
}

impl View for Archetypes {
    type V = Seq<u64>;

    closed spec fn view(&self) -> Seq<u64> {
        self.signatures@
    }
}

impl Archetypes {
    /// No archetype observed yet.
    pub fn new() -> (r: Archetypes)
        ensures
            r@ == Seq::<u64>::empty(),
    {
        Archetypes { signatures: Vec::new() }
    }

    /// Records that an entity with the given combination exists; a new
    /// combination becomes the next archetype.
    pub fn observe(&mut self, signature: u64)
        ensures
            final(self)@ == if old(self)@.contains(signature) {
                old(self)@
            } else {
                old(self)@.push(signature)
            },
    {
        if !self.contains(signature) {
            self.signatures.push(signature);
        }
    }

    pub fn contains(&self, signature: u64) -> (r: bool)
        ensures
            r == self@.contains(signature),
    {
        let mut i: usize = 0;
        while i < self.signatures.len()
            invariant
                i <= self@.len(),
                forall|j: int| 0 <= j < i ==> self@[j] != signature,
            decreases self@.len() - i,
        {
            if self.signatures[i] == signature {
                assert(self@[i as int] == signature);
                return true;
            }
            i += 1;
        }
        false
    }

    /// How many archetypes have been observed.
    pub fn generation(&self) -> (r: usize)
        ensures
            r == self@.len(),
    {
        self.signatures.len()
    }
}

} // verus!
