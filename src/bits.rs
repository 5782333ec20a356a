//! Dense bit storage for canvases, backed by `bit_vec::BitVec`.
use vstd::prelude::*;

use bit_vec::BitVec;

verus! {

#[verifier::external_type_specification]
#[verifier::external_body]
#[verifier::reject_recursive_types(B)]
pub struct ExBitVec<B>(BitVec<B>);

/// The bits that a bit vector holds, in index order.
pub uninterp spec fn bits_of(v: BitVec<u32>) -> Seq<bool>;

/// Relies on `BitVec::from_elem`: a vector of `n` bits, each equal to `false`.
#[verifier::external_body]
pub(crate) fn bits_all_clear(n: usize) -> (r: BitVec<u32>)
    ensures
        bits_of(r) == Seq::new(n as nat, |i: int| false),
{
    BitVec::from_elem(n, false)
}

/// Relies on `BitVec::set`: bit `i` becomes `true`, the others stay.
/// `set` panics when `i` is not below the length.
#[verifier::external_body]
pub(crate) fn bits_raise(v: &mut BitVec<u32>, i: usize)
    requires
        (i as int) < bits_of(*old(v)).len(),
    ensures
        bits_of(*final(v)) == bits_of(*old(v)).update(i as int, true),
{
    v.set(i, true)
}

/// Relies on indexing a `BitVec`, which reads bit `i` and panics when `i` is
/// not below the length.
#[verifier::external_body]
pub(crate) fn bits_read(v: &BitVec<u32>, i: usize) -> (r: bool)
    requires
        (i as int) < bits_of(*v).len(),
    ensures
        r == bits_of(*v)[i as int],
{
    v[i]
}

} // verus!
