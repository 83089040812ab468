//! Building a collection from the index of each of its items.
use vstd::prelude::*;

verus! {

/// Collections that are built by a function from index to item.
pub trait Initializer<T, U, F> {
    /// Whether `made` is what `f` gives for the indices below `count`, in
    /// their order.
    spec fn initialized(count: usize, f: F, made: T) -> bool;

    /// Whether `f` accepts every index below `count`.
    spec fn accepts(count: usize, f: F) -> bool;

    /// The collection of `f(0)`, `f(1)` and so on, up to `count` items.
    fn initialize(count: usize, f: F) -> (made: T)
        requires
            Self::accepts(count, f),
        ensures
            Self::initialized(count, f, made),
    ;
}

impl<U, F: Fn(usize) -> U> Initializer<Vec<U>, U, F> for Vec<U> {
    open spec fn initialized(count: usize, f: F, made: Vec<U>) -> bool {
        &&& made@.len() == count
        &&& forall|i: int| 0 <= i < count ==> call_ensures(f, (i as usize,), #[trigger] made@[i])
    }

    open spec fn accepts(count: usize, f: F) -> bool {
        forall|i: usize| i < count ==> call_requires(f, (i,))
    }

    fn initialize(count: usize, f: F) -> (made: Vec<U>) {
        let mut made: Vec<U> = Vec::new();
        let mut i: usize = 0;
        while i < count
            invariant
                i <= count,
                made@.len() == i,
                forall|j: usize| j < count ==> call_requires(f, (j,)),
                forall|j: int| 0 <= j < i ==> call_ensures(f, (j as usize,), #[trigger] made@[j]),
            decreases count - i,
        {
            made.push(f(i));
            i = i + 1;
        }
        made
    }
}

} // verus!
