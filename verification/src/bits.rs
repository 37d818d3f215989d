//! The bit vector of the `bit-vec` crate, as verified code sees it: an opaque
//! value whose contents are a sequence of booleans. Nothing in this file is
//! proved; each contract restates what the crate's code does.

use bit_vec::BitVec;
use vstd::prelude::*;

verus! {

/// `bit_vec::BitVec`, declared so that it can stand in fields and
/// signatures. Verified code sees nothing inside it.
#[verifier::external_type_specification]
#[verifier::external_body]
#[verifier::reject_recursive_types(B)]
pub struct ExBitVec<B>(BitVec<B>);

/// The bits that a bit vector holds, in index order. The three functions
/// below say what the crate's constructor, `set` and `get` do to them.
pub uninterp spec fn bits(v: BitVec<u32>) -> Seq<bool>;

/// `BitVec::from_elem`: a vector of `len` bits, each equal to `bit`.
#[verifier::external_body]
pub(crate) fn bitvec_from_elem(len: usize, bit: bool) -> (v: BitVec<u32>)
    ensures
        bits(v) == Seq::new(len as nat, |i: int| bit),
{
    BitVec::from_elem(len, bit)
}

/// `BitVec::set`: overwrites the bit at index `i`, which has to exist (the
/// crate panics on an index past the end), and leaves every other bit alone.
#[verifier::external_body]
pub(crate) fn bitvec_set(v: &mut BitVec<u32>, i: usize, bit: bool)
    requires
        i < bits(*old(v)).len(),
    ensures
        bits(*final(v)) == bits(*old(v)).update(i as int, bit),
{
    v.set(i, bit)
}

/// `BitVec::get`: the bit at index `i`, or `None` past the end.
#[verifier::external_body]
pub(crate) fn bitvec_get(v: &BitVec<u32>, i: usize) -> (bit: Option<bool>)
    ensures
        bit == if i < bits(*v).len() {
            Some(bits(*v)[i as int])
        } else {
            None
        },
{
    v.get(i)
}

} // verus!
