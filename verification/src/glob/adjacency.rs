//! Items with their neighbors.

use vstd::prelude::*;

verus! {

/// An item with its neighbors: the only item, the first (with the item to
/// its right), a middle item (with both neighbors), or the last (with the
/// item to its left).
#[derive(Debug, PartialEq, Eq)]
pub enum Adjacency<T> {
    Only(T),
    First(T, T),
    Middle(T, T, T),
    Last(T, T),
}

impl<T> Adjacency<T> {
    /// The left neighbor, the item and the right neighbor.
    pub open spec fn tuple_spec(self) -> (Option<T>, T, Option<T>) {
        match self {
            Adjacency::Only(item) => (None, item, None),
            Adjacency::First(item, right) => (None, item, Some(right)),
            Adjacency::Middle(left, item, right) => (Some(left), item, Some(right)),
            Adjacency::Last(left, item) => (Some(left), item, None),
        }
    }

    /// The left neighbor, the item and the right neighbor.
    pub fn into_tuple(self) -> (r: (Option<T>, T, Option<T>))
        ensures
            r == self.tuple_spec(),
    {
        match self {
            Adjacency::Only(item) => (None, item, None),
            Adjacency::First(item, right) => (None, item, Some(right)),
            Adjacency::Middle(left, item, right) => (Some(left), item, Some(right)),
            Adjacency::Last(left, item) => (Some(left), item, None),
        }
    }
}

/// The adjacency of the item at `i` among `items`.
pub open spec fn adjacency_at<T>(items: Seq<T>, i: int) -> Adjacency<T> {
    if items.len() == 1 {
        Adjacency::Only(items[0])
    } else if i == 0 {
        Adjacency::First(items[0], items[1])
    } else if i == items.len() - 1 {
        Adjacency::Last(items[i - 1], items[i])
    } else {
        Adjacency::Middle(items[i - 1], items[i], items[i + 1])
    }
}

/// Each item with its neighbors, in order.
pub fn adjacent<T: Copy>(items: &[T]) -> (r: Vec<Adjacency<T>>)
    ensures
        r@.len() == items@.len(),
        forall|i: int| 0 <= i < items@.len() ==> #[trigger] r@[i] == adjacency_at(items@, i),
{
    let n = items.len();
    let mut out: Vec<Adjacency<T>> = Vec::new();
    let mut i: usize = 0;
    while i < n
        invariant
            n == items@.len(),
            i <= n,
            out@.len() == i,
            forall|k: int| 0 <= k < i ==> #[trigger] out@[k] == adjacency_at(items@, k),
        decreases n - i,
    {
        let a = if n == 1 {
            Adjacency::Only(items[0])
        } else if i == 0 {
            Adjacency::First(items[0], items[1])
        } else if i == n - 1 {
            Adjacency::Last(items[i - 1], items[i])
        } else {
            Adjacency::Middle(items[i - 1], items[i], items[i + 1])
        };
        out.push(a);
        i = i + 1;
    }
    out
}

} // verus!
