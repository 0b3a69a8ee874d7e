//! Sharing of immutable values between the writer and its readers.

use std::sync::Arc;
use vstd::prelude::*;

verus! {

/// `Arc::clone` of the standard library: another pointer to the same
/// value. Nothing is copied but the pointer.
#[verifier::external_body]
pub(crate) fn share<T>(value: &Arc<T>) -> (shared: Arc<T>)
    ensures
        shared == *value,
{
    Arc::clone(value)
}

} // verus!
