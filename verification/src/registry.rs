//! In-memory membership registry over chain addresses.
//!
//! One instance tracks the pools whose metadata has been materialized in
//! the graph; another instance of the same structure tracks the token
//! addresses for which a node-creation statement has been issued.

use vstd::prelude::*;
use crate::address::Address;

verus! {

/// A set of chain addresses, owned by one pipeline instance.
pub struct PairRegistry {
    pub entries: Vec<Address>,
}

impl View for PairRegistry {
    type V = Set<Seq<u8>>;

    open spec fn view(&self) -> Set<Seq<u8>> {
        Set::new(
            |a: Seq<u8>|
                exists|i: int| 0 <= i < self.entries@.len() && self.entries@[i]@ == a,
        )
    }
}

impl PairRegistry {
    /// An empty registry: no address is known.
    pub fn new() -> (r: PairRegistry)
        ensures
            r@ == Set::<Seq<u8>>::empty(),
    {
        let r = PairRegistry { entries: Vec::new() };
        proof {
            assert(r@ =~= Set::<Seq<u8>>::empty());
        }
        r
    }

    /// Whether `addr` has been marked known.
    pub fn is_known(&self, addr: &Address) -> (r: bool)
        ensures
            r == self@.contains(addr@),
    {
        let n = self.entries.len();
        let mut i: usize = 0;
        while i < n
            invariant
                i <= n,
                n == self.entries@.len(),
                forall|j: int| 0 <= j < i ==> self.entries@[j]@ != addr@,
            decreases n - i,
        {
            if self.entries[i].same_as(addr) {
                return true;
            }
            i = i + 1;
        }
        false
    }

    /// Marks `addr` known; a no-op if it already is.
    pub fn mark_known(&mut self, addr: Address)
        ensures
            final(self)@ == old(self)@.insert(addr@),
    {
        if self.is_known(&addr) {
            proof {
                assert(final(self)@ =~= old(self)@.insert(addr@));
            }
        } else {
            self.entries.push(addr);
            proof {
                assert forall|a: Seq<u8>| final(self)@.contains(a) implies old(self)@.insert(
                    addr@,
                ).contains(a) by {
                    let i = choose|i: int|
                        0 <= i < final(self).entries@.len() && final(self).entries@[i]@ == a;
                    if i < old(self).entries@.len() {
                        assert(old(self)@.contains(a));
                    }
                }
                assert forall|a: Seq<u8>| old(self)@.insert(addr@).contains(a)
                    implies final(self)@.contains(a) by {
                    if a == addr@ {
                        let n = old(self).entries@.len() as int;
                        assert(final(self).entries@[n]@ == a);
                    } else {
                        let i = choose|i: int|
                            0 <= i < old(self).entries@.len() && old(self).entries@[i]@ == a;
                        assert(final(self).entries@[i]@ == a);
                    }
                }
                assert(final(self)@ =~= old(self)@.insert(addr@));
            }
        }
    }
}

} // verus!
