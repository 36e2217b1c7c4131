//! Storage that lives as long as the process.
use vstd::prelude::*;

verus! {

/// `Box::leak`: hands the boxed value out as a shared reference that is never freed. The contract
/// claims that the referenced value is the boxed one.
#[verifier::external_body]
pub(crate) fn leak_box<T>(value: Box<T>) -> (leaked: &'static T)
    ensures
        *leaked == *value,
{
    Box::leak(value)
}

/// `Vec::leak`: hands the vector's elements out as a slice that is never freed. The contract
/// claims that the slice holds the vector's elements in order.
#[verifier::external_body]
pub(crate) fn leak_vec<T>(values: Vec<T>) -> (leaked: &'static [T])
    ensures
        leaked@ == values@,
{
    values.leak()
}

} // verus!
