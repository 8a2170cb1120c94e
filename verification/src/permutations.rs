//! The enumeration of all orders of a list, by the `permute` crate.

use crate::neighbourhood::routes_of;
use vstd::prelude::*;

verus! {

/// The list of rearrangements that `permute::permute` returns for `values`,
/// in the order in which Heap's algorithm produces them.
pub uninterp spec fn heap_permutations(values: Seq<usize>) -> Seq<Seq<usize>>;

/// `list` holds rearrangements of `values` only, and every rearrangement of
/// `values` is in it.
pub open spec fn lists_all_orders(list: Seq<Seq<usize>>, values: Seq<usize>) -> bool {
    &&& forall|k: int|
        0 <= k < list.len() ==> (#[trigger] list[k]).to_multiset() == values.to_multiset()
    &&& forall|order: Seq<usize>|
        order.to_multiset() == values.to_multiset() ==> #[trigger] list.contains(order)
}

/// `permute::permute`: all permutations of `values`, generated by Heap's
/// algorithm. The result is a function of `values` alone and is named
/// `heap_permutations`; each of its entries holds the entries of `values`,
/// each as often as `values` does, and every such order is among them. The
/// call allocates one vector for each of the `values.len()!` orders.
#[verifier::external_body]
pub(crate) fn permutations(values: Vec<usize>) -> (list: Vec<Vec<usize>>)
    ensures
        routes_of(list@) == heap_permutations(values@),
        lists_all_orders(routes_of(list@), values@),
{
    permute::permute(values)
}

} // verus!
