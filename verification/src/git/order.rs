//! The order of object ids.
use core::cmp::Ordering;

use vstd::prelude::*;

use crate::git::object::ObjectId;

verus! {

/// How two byte strings compare, byte by byte from the first: the first
/// byte in which they differ decides, and a string that ends where the other
/// goes on is less.
pub open spec fn bytes_order(a: Seq<u8>, b: Seq<u8>) -> Ordering
    decreases a.len(),
{
    if a.len() == 0 && b.len() == 0 {
        Ordering::Equal
    } else if a.len() == 0 {
        Ordering::Less
    } else if b.len() == 0 {
        Ordering::Greater
    } else if a[0] < b[0] {
        Ordering::Less
    } else if a[0] > b[0] {
        Ordering::Greater
    } else {
        bytes_order(a.skip(1), b.skip(1))
    }
}

/// Byte strings of one length compare as equal just where they are the same.
pub proof fn lemma_equal_order(a: Seq<u8>, b: Seq<u8>)
    requires
        a.len() == b.len(),
    ensures
        bytes_order(a, b) == Ordering::Equal <==> a == b,
    decreases a.len(),
{
    if a.len() == 0 {
        assert(a =~= b);
    } else if a[0] == b[0] {
        lemma_equal_order(a.skip(1), b.skip(1));
        if a.skip(1) == b.skip(1) {
            assert forall|i: int| 0 <= i < a.len() implies a[i] == b[i] by {
                if i > 0 {
                    assert(a.skip(1)[i - 1] == b.skip(1)[i - 1]);
                }
            }
            assert(a =~= b);
        }
    }
}

impl PartialOrd for ObjectId {
    fn partial_cmp(&self, other: &Self) -> (r: Option<Ordering>) {
        let mut i: usize = 0;
        let ghost mut done: int = 0;
        proof {
            assert(self.bytes@.skip(0) =~= self.bytes@);
            assert(other.bytes@.skip(0) =~= other.bytes@);
        }
        while i < 20
            invariant
                i <= 20,
                done == i,
                bytes_order(self.bytes@, other.bytes@) == bytes_order(
                    self.bytes@.skip(done),
                    other.bytes@.skip(done),
                ),
            decreases 20 - i,
        {
            proof {
                assert(self.bytes@.skip(done)[0] == self.bytes@[done]);
                assert(other.bytes@.skip(done)[0] == other.bytes@[done]);
                assert(self.bytes@.skip(done).skip(1) =~= self.bytes@.skip(done + 1));
                assert(other.bytes@.skip(done).skip(1) =~= other.bytes@.skip(done + 1));
            }
            if self.bytes[i] < other.bytes[i] {
                return Some(Ordering::Less);
            }
            if self.bytes[i] > other.bytes[i] {
                return Some(Ordering::Greater);
            }
            i += 1;
            proof {
                done = done + 1;
            }
        }
        Some(Ordering::Equal)
    }
}

impl vstd::std_specs::cmp::PartialOrdSpecImpl for ObjectId {
    open spec fn obeys_partial_cmp_spec() -> bool {
        true
    }

    open spec fn partial_cmp_spec(&self, other: &Self) -> Option<Ordering> {
        Some(bytes_order(self.bytes@, other.bytes@))
    }
}

} // verus!
