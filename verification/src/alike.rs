//! Value equality of plain data, as contracts and code share it.
use crate::binary64::{Real32, Real64};
use vstd::prelude::*;

verus! {

/// Data that can be compared by what it holds.
pub trait Alike: Sized {
    /// Whether two values hold the same data.
    spec fn alike(&self, other: &Self) -> bool;

    fn same(&self, other: &Self) -> (out: bool)
        ensures
            out == self.alike(other),
    ;
}

impl Alike for String {
    open spec fn alike(&self, other: &Self) -> bool {
        self@ == other@
    }

    fn same(&self, other: &Self) -> (out: bool) {
        *self == *other
    }
}

impl Alike for Real64 {
    open spec fn alike(&self, other: &Self) -> bool {
        Real64::same(*self, *other)
    }

    fn same(&self, other: &Self) -> (out: bool) {
        self.equals(*other)
    }
}

impl Alike for Real32 {
    open spec fn alike(&self, other: &Self) -> bool {
        Real32::same(*self, *other)
    }

    fn same(&self, other: &Self) -> (out: bool) {
        self.equals(*other)
    }
}

/// Two lists hold the same data at each place.
pub open spec fn lists_alike<T: Alike>(a: Seq<T>, b: Seq<T>) -> bool {
    a.len() == b.len() && forall|i: int| 0 <= i < a.len() ==> (#[trigger] a[i]).alike(&b[i])
}

pub fn same_list<T: Alike>(a: &Vec<T>, b: &Vec<T>) -> (out: bool)
    ensures
        out == lists_alike(a@, b@),
{
    if a.len() != b.len() {
        return false;
    }
    let mut i: usize = 0;
    while i < a.len()
        invariant
            a@.len() == b@.len(),
            i <= a@.len(),
            forall|k: int| 0 <= k < i ==> (#[trigger] a@[k]).alike(&b@[k]),
        decreases a@.len() - i,
    {
        if !a[i].same(&b[i]) {
            return false;
        }
        i = i + 1;
    }
    true
}

/// Two options are both empty or hold the same data.
pub open spec fn options_alike<T: Alike>(a: Option<T>, b: Option<T>) -> bool {
    match (a, b) {
        (Some(x), Some(y)) => x.alike(&y),
        (None, None) => true,
        _ => false,
    }
}

pub fn same_option<T: Alike>(a: &Option<T>, b: &Option<T>) -> (out: bool)
    ensures
        out == options_alike(*a, *b),
{
    match (a, b) {
        (Some(x), Some(y)) => x.same(y),
        (None, None) => true,
        _ => false,
    }
}

} // verus!
