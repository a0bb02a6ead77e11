//! The fixed-capacity buffers of the engine.
//!
//! Matrix data and operation lists live in `heapless::Vec`, whose capacity is
//! part of its type. Verus does not look inside that type; what it knows of
//! it is stated here and taken on trust.

use vstd::prelude::*;
use crate::op::Operation;

verus! {

/// Most elements that a matrix can hold.
pub const MAX_ELEMENTS: usize = 36;

/// Most operations that a work item can hold.
pub const MAX_OPERATIONS: usize = 5;

#[verifier::external_type_specification]
#[verifier::external_body]
#[verifier::reject_recursive_types(T)]
pub struct ExBoundedVec<T, const N: usize>(heapless::Vec<T, N>);

/// The elements that a matrix buffer holds, in order.
pub uninterp spec fn elements(v: heapless::Vec<u64, 36>) -> Seq<u64>;

/// The operations that an operation buffer holds, in order.
pub uninterp spec fn operations(v: heapless::Vec<Operation, 5>) -> Seq<Operation>;

/// `heapless::Vec::new`: the new buffer is empty.
#[verifier::external_body]
pub(crate) fn elements_new() -> (v: heapless::Vec<u64, 36>)
    ensures
        elements(v).len() == 0,
{
    heapless::Vec::new()
}

/// `heapless::Vec::push`: below capacity the item is appended; at capacity
/// the buffer stays as it is and the item comes back.
#[verifier::external_body]
pub(crate) fn elements_push(v: &mut heapless::Vec<u64, 36>, item: u64) -> (r: Result<(), u64>)
    ensures
        r.is_ok() == (elements(*old(v)).len() < 36),
        r.is_ok() ==> elements(*final(v)) == elements(*old(v)).push(item),
        r matches Err(back) ==> back == item && elements(*final(v)) == elements(*old(v)),
{
    v.push(item)
}

/// `heapless::Vec::as_slice`: the slice holds the buffer's elements.
#[verifier::external_body]
pub(crate) fn elements_slice(v: &heapless::Vec<u64, 36>) -> (s: &[u64])
    ensures
        s@ == elements(*v),
{
    v.as_slice()
}

/// `heapless::Vec::new`: the new buffer is empty.
#[verifier::external_body]
pub(crate) fn operations_new() -> (v: heapless::Vec<Operation, 5>)
    ensures
        operations(v).len() == 0,
{
    heapless::Vec::new()
}

/// `heapless::Vec::push`: below capacity the item is appended; at capacity
/// the buffer stays as it is and the item comes back. It does not panic.
#[verifier::external_body]
pub(crate) fn operations_push(v: &mut heapless::Vec<Operation, 5>, item: Operation) -> (r: Result<
    (),
    Operation,
>)
    ensures
        r.is_ok() == (operations(*old(v)).len() < 5),
        r.is_ok() ==> operations(*final(v)) == operations(*old(v)).push(item),
        r matches Err(back) ==> back == item && operations(*final(v)) == operations(*old(v)),
    no_unwind
{
    v.push(item)
}

/// `heapless::Vec::as_slice`: the slice holds the buffer's operations.
#[verifier::external_body]
pub(crate) fn operations_slice(v: &heapless::Vec<Operation, 5>) -> (s: &[Operation])
    ensures
        s@ == operations(*v),
{
    v.as_slice()
}

/// `heapless::Vec::remove`, which panics on an index out of bounds: the item
/// at `index` leaves and is returned, the items behind it move up by one.
#[verifier::external_body]
pub(crate) fn operations_remove(v: &mut heapless::Vec<Operation, 5>, index: usize) -> (item:
    Operation)
    requires
        index < operations(*old(v)).len(),
    ensures
        item == operations(*old(v))[index as int],
        operations(*final(v)) == operations(*old(v)).remove(index as int),
{
    v.remove(index)
}

} // verus!
