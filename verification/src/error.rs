//! A result that can succeed while still carrying warnings.

use vstd::prelude::*;

verus! {

/// A computation's outcome: success, success with warnings, or failure.
#[derive(Debug)]
pub enum ResultWarningsGeneric<T, W, E> {
    Done(T),
    DoneWarn(T, Vec<W>),
    Failed(E),
}

impl<T, W, E> ResultWarningsGeneric<T, W, E> {
    /// A success, carrying its warnings only when there are any.
    pub fn ok(value: T, warnings: Vec<W>) -> (r: ResultWarningsGeneric<T, W, E>)
        ensures
            warnings@.len() == 0 ==> r == ResultWarningsGeneric::<T, W, E>::Done(value),
            warnings@.len() > 0 ==> r == ResultWarningsGeneric::<T, W, E>::DoneWarn(
                value,
                warnings,
            ),
    {
        if warnings.len() == 0 {
            ResultWarningsGeneric::Done(value)
        } else {
            ResultWarningsGeneric::DoneWarn(value, warnings)
        }
    }
}

} // verus!
