//! Node orderings of raw VTK elements.

use vstd::prelude::*;

use crate::roots::{lemma_round_sqrt, round_sqrt, round_sqrt_small};

verus! {

/// The polynomial order of a VTK element with `n` nodes: the number of
/// nodes along an axis, `sqrt(n)` rounded to the nearest integer, less one.
pub open spec fn vtk_element_order(n: nat) -> int {
    round_sqrt(n) - 1
}

/// `element` with the nodes at positions 2 and 3 exchanged.
pub open spec fn swap_last_corners(element: Seq<usize>) -> Seq<usize> {
    element.update(2, element[3]).update(3, element[2])
}

/// Reorders the nodes of an element as a mesh generator writes them into
/// the tensor-product order of the basis. A first order element has its
/// last two corners exchanged; elements of order 2 and 3 are kept as they
/// are. Orders other than 1 to 3 are not supported.
pub fn reorder_raw_vtk_element(element: Vec<usize>) -> (result: Vec<usize>)
    requires
        4 <= element.len() <= 20,
    ensures
        1 <= vtk_element_order(element@.len()) <= 3,
        result@ == if vtk_element_order(element@.len()) == 1 {
            swap_last_corners(element@)
        } else {
            element@
        },
{
    let npoints = element.len();
    let r = round_sqrt_small(npoints);
    proof {
        lemma_round_sqrt(npoints as nat);
        let q = round_sqrt(npoints as nat);
        if q <= 1 {
            assert(q * (q + 1) <= 2) by (nonlinear_arith)
                requires
                    q <= 1,
            ;
        }
        if q >= 5 {
            assert(q * (q - 1) >= 20) by (nonlinear_arith)
                requires
                    q >= 5,
            ;
        }
    }
    let order = r - 1;
    let mut result = element.clone();
    if order == 1 {
        assert(result@ == element@);
        let a = element[0];
        let b = element[1];
        let c = element[3];
        let d = element[2];
        result.set(0, a);
        result.set(1, b);
        result.set(2, c);
        result.set(3, d);
        assert(result@ =~= swap_last_corners(element@));
    }
    result
}

/// Law: on a first order element, reordering twice gives back the element.
pub proof fn lemma_reorder_first_order_involution(element: Seq<usize>)
    requires
        element.len() >= 4,
    ensures
        swap_last_corners(swap_last_corners(element)) == element,
{
    assert(swap_last_corners(swap_last_corners(element)) =~= element);
}

/// Law: reordering only permutes the nodes of an element.
pub proof fn lemma_reorder_permutes(element: Seq<usize>)
    requires
        element.len() >= 4,
    ensures
        swap_last_corners(element).to_multiset() == element.to_multiset(),
{
    broadcast use vstd::seq_lib::group_to_multiset_ensures;
    let once = element.update(2, element[3]);
    assert(once.to_multiset() =~= element.to_multiset().insert(element[3]).remove(element[2]));
    assert(swap_last_corners(element).to_multiset() =~= once.to_multiset().insert(element[2]).remove(once[3]));
}

} // verus!
