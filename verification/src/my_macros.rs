//! Vectors that hold each item twice.

use vstd::prelude::*;

verus! {

/// The vector that holds each of `items` twice over, in their order.
pub fn my_vec<T: Copy>(items: &[T]) -> (v: Vec<T>)
    requires
        items@.len() * 2 <= usize::MAX,
    ensures
        v@.len() == 2 * items@.len(),
        forall|i: int| 0 <= i < items@.len() ==> v@[2 * i] == items@[i] && v@[2 * i + 1] == items@[i],
{
    let mut temp_vec: Vec<T> = Vec::new();
    let mut i: usize = 0;
    while i < items.len()
        invariant
            i <= items@.len(),
            temp_vec@.len() == 2 * i,
            forall|j: int|
                0 <= j < i ==> temp_vec@[2 * j] == items@[j] && temp_vec@[2 * j + 1] == items@[j],
        decreases items@.len() - i,
    {
        temp_vec.push(items[i]);
        temp_vec.push(items[i]);
        i = i + 1;
    }
    temp_vec
}

} // verus!
