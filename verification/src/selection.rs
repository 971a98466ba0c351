//! Selection of list items by chosen positions.
//!
//! The pure half of an interactive multi-select: the terminal hands
//! back the positions the user picked, and the list is narrowed to
//! exactly those items, in their original order.

use vstd::prelude::*;

verus! {

/// The items at the chosen positions among the first `n`, in list
/// order.
pub open spec fn selected_prefix(items: Seq<String>, keep: Seq<usize>, n: int) -> Seq<
    String,
>
    decreases n,
{
    if n <= 0 {
        Seq::empty()
    } else {
        selected_prefix(items, keep, n - 1) + (if keep.contains((n - 1) as usize) {
            seq![items[n - 1]]
        } else {
            Seq::empty()
        })
    }
}

/// Whether the chosen positions hold `x`.
fn keeps(keep: &Vec<usize>, x: usize) -> (b: bool)
    ensures
        b == keep@.contains(x),
{
    let n = keep.len();
    let mut i: usize = 0;
    while i < n
        invariant
            n == keep@.len(),
            i <= n,
            forall|k: int| 0 <= k < i ==> keep@[k] != x,
        decreases n - i,
    {
        if keep[i] == x {
            return true;
        }
        i += 1;
    }
    false
}

/// Keep exactly the items whose position was chosen, in their original
/// order.
pub fn select_by_indices(items: &Vec<String>, keep: &Vec<usize>) -> (r: Vec<String>)
    ensures
        r@ == selected_prefix(items@, keep@, items@.len() as int),
{
    let mut r: Vec<String> = Vec::new();
    let n = items.len();
    let mut i: usize = 0;
    while i < n
        invariant
            n == items@.len(),
            i <= n,
            r@ == selected_prefix(items@, keep@, i as int),
        decreases n - i,
    {
        if keeps(keep, i) {
            r.push(items[i].clone());
        }
        proof {
            assert(r@ =~= selected_prefix(items@, keep@, i as int + 1));
        }
        i += 1;
    }
    r
}

} // verus!
