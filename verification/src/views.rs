//! What lists and optional values of viewed things stand for.

use vstd::prelude::*;

verus! {

/// What an optional value stands for.
pub open spec fn optional<T: View>(value: Option<T>) -> Option<T::V> {
    match value {
        Some(v) => Some(v@),
        None => None,
    }
}

/// What the elements of a list stand for, in order.
pub open spec fn each<T: View>(items: Seq<T>) -> Seq<T::V> {
    items.map_values(|x: T| x@)
}

} // verus!
