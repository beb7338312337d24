//! A box of one value.

use std::fmt::Display;
use std::ops::Deref;
use vstd::prelude::*;

verus! {

/// A value held in a box of its own.
pub struct MyBox<T: Display>(T);

impl<T: Display> View for MyBox<T> {
    type V = T;

    /// What the box holds.
    closed spec fn view(&self) -> T {
        self.0
    }
}

impl<T: Display> MyBox<T> {
    /// The box that holds `x`.
    pub fn new(x: T) -> (b: MyBox<T>)
        ensures
            b@ == x,
    {
        MyBox(x)
    }
}

impl<T: Display> Deref for MyBox<T> {
    type Target = T;

    /// The value in the box.
    fn deref(&self) -> (x: &T)
        ensures
            *x == self@,
    {
        &self.0
    }
}

} // verus!
