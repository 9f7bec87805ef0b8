//! The order of digests: byte by byte, and the first difference decides.

use std::cmp::Ordering;
use vstd::prelude::*;
use crate::digest::Digest;

verus! {

/// Whether `a` comes before `b`: at the first place where the two differ, `a`
/// has the smaller byte.
pub open spec fn comes_before(a: Seq<u8>, b: Seq<u8>) -> bool {
    exists|k: int|
        0 <= k < a.len() && k < b.len() && #[trigger] a.subrange(0, k) == b.subrange(0, k) && a[k]
            < b[k]
}

impl PartialOrd for Digest {
    fn partial_cmp(&self, other: &Digest) -> (r: Option<Ordering>) {
        let a = self.as_bytes();
        let b = other.as_bytes();
        let mut i: usize = 0;
        while i < 32
            invariant
                i <= 32,
                a@ == self@,
                b@ == other@,
                a@.len() == 32,
                b@.len() == 32,
                forall|k: int| 0 <= k < i ==> a@[k] == b@[k],
            decreases 32 - i,
        {
            if a[i] < b[i] {
                proof {
                    assert(a@.subrange(0, i + 0) =~= b@.subrange(0, i + 0));
                    assert(comes_before(self@, other@));
                    assert(self@[i + 0] != other@[i + 0]);
                }
                return Some(Ordering::Less);
            }
            if a[i] > b[i] {
                proof {
                    assert(self@[i + 0] != other@[i + 0]);
                    assert forall|k: int|
                        0 <= k < 32 && #[trigger] self@.subrange(0, k) == other@.subrange(
                            0,
                            k,
                        ) implies !(self@[k] < other@[k]) by {
                        if k > i {
                            assert(self@.subrange(0, k)[i + 0] == other@.subrange(0, k)[i + 0]);
                        }
                    }
                }
                return Some(Ordering::Greater);
            }
            i += 1;
        }
        assert(self@ =~= other@);
        Some(Ordering::Equal)
    }
}

impl vstd::std_specs::cmp::PartialOrdSpecImpl for Digest {
    open spec fn obeys_partial_cmp_spec() -> bool {
        true
    }

    open spec fn partial_cmp_spec(&self, other: &Digest) -> Option<Ordering> {
        if self@ == other@ {
            Some(Ordering::Equal)
        } else if comes_before(self@, other@) {
            Some(Ordering::Less)
        } else {
            Some(Ordering::Greater)
        }
    }
}

} // verus!
