//! Lists.
use vstd::prelude::*;

verus! {

/// The items in the opposite order.
pub fn reversed<T>(items: Vec<T>) -> (r: Vec<T>)
    ensures
        r@.len() == items@.len(),
        forall|i: int| 0 <= i < r@.len() ==> #[trigger] r@[i] == items@[items@.len() - 1 - i],
{
    let ghost all = items@;
    let mut items: Vec<T> = items;
    let mut out: Vec<T> = Vec::new();
    while 0 < items.len()
        invariant
            items@.len() + out@.len() == all.len(),
            forall|i: int| 0 <= i < items@.len() ==> #[trigger] items@[i] == all[i],
            forall|i: int| 0 <= i < out@.len() ==> #[trigger] out@[i] == all[all.len() - 1 - i],
        decreases items@.len(),
    {
        if let Some(item) = items.pop() {
            out.push(item);
        }
    }
    out
}

}
