//! Boxed cloning for values handled through indirection.
use vstd::prelude::*;

verus! {

/// Cloning into a fresh box.
pub trait BoxClone {
    fn box_clone(&self) -> Box<Self>;
}

impl<T: Clone> BoxClone for T {
    fn box_clone(&self) -> Box<T> {
        Box::new(self.clone())
    }
}

} // verus!
