//! Copies that are known to be copies.

use crate::metric::{Amount, Metric};
use crate::models::{Moment, SecurityPosture};
use vstd::prelude::*;
use vstd::string::*;

verus! {

/// A value that can be copied, part by part.
pub trait Copied: Sized {
    /// Whether two values hold the same.
    spec fn same_as(&self, other: &Self) -> bool;

    /// A copy of the value.
    fn copied(&self) -> (r: Self)
        ensures
            self.same_as(&r),
    ;
}

impl Copied for bool {
    open spec fn same_as(&self, other: &Self) -> bool {
        *self == *other
    }

    fn copied(&self) -> (r: Self) {
        *self
    }
}

impl Copied for u8 {
    open spec fn same_as(&self, other: &Self) -> bool {
        *self == *other
    }

    fn copied(&self) -> (r: Self) {
        *self
    }
}

impl Copied for u32 {
    open spec fn same_as(&self, other: &Self) -> bool {
        *self == *other
    }

    fn copied(&self) -> (r: Self) {
        *self
    }
}

impl Copied for u64 {
    open spec fn same_as(&self, other: &Self) -> bool {
        *self == *other
    }

    fn copied(&self) -> (r: Self) {
        *self
    }
}

impl Copied for i64 {
    open spec fn same_as(&self, other: &Self) -> bool {
        *self == *other
    }

    fn copied(&self) -> (r: Self) {
        *self
    }
}

impl Copied for usize {
    open spec fn same_as(&self, other: &Self) -> bool {
        *self == *other
    }

    fn copied(&self) -> (r: Self) {
        *self
    }
}

impl Copied for Metric {
    open spec fn same_as(&self, other: &Self) -> bool {
        *self == *other
    }

    fn copied(&self) -> (r: Self) {
        *self
    }
}

impl Copied for Amount {
    open spec fn same_as(&self, other: &Self) -> bool {
        *self == *other
    }

    fn copied(&self) -> (r: Self) {
        *self
    }
}

impl Copied for Moment {
    open spec fn same_as(&self, other: &Self) -> bool {
        *self == *other
    }

    fn copied(&self) -> (r: Self) {
        *self
    }
}

impl Copied for SecurityPosture {
    open spec fn same_as(&self, other: &Self) -> bool {
        *self == *other
    }

    fn copied(&self) -> (r: Self) {
        *self
    }
}

impl Copied for String {
    open spec fn same_as(&self, other: &Self) -> bool {
        self@ == other@
    }

    fn copied(&self) -> (r: Self) {
        self.clone()
    }
}

impl<T: Copied> Copied for Option<T> {
    open spec fn same_as(&self, other: &Self) -> bool {
        match (self, other) {
            (Some(a), Some(b)) => a.same_as(b),
            (None, None) => true,
            _ => false,
        }
    }

    fn copied(&self) -> (r: Self) {
        match self {
            Some(a) => Some(a.copied()),
            None => None,
        }
    }
}

impl<T: Copied> Copied for Vec<T> {
    open spec fn same_as(&self, other: &Self) -> bool {
        self@.len() == other@.len() && forall|i: int|
            0 <= i < self@.len() ==> (#[trigger] self@[i]).same_as(&other@[i])
    }

    fn copied(&self) -> (r: Self) {
        let mut r: Vec<T> = Vec::new();
        let mut i: usize = 0;
        while i < self.len()
            invariant
                i <= self@.len(),
                r@.len() == i,
                forall|k: int| 0 <= k < i ==> (#[trigger] self@[k]).same_as(&r@[k]),
            decreases self@.len() - i,
        {
            let item = self[i].copied();
            r.push(item);
            i += 1;
        }
        r
    }
}

} // verus!
