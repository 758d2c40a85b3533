//! How positions are ordered: by their byte offset.
use crate::model::Position;
use core::cmp::Ordering;
use vstd::prelude::*;

verus! {

/// The order of two byte offsets.
pub open spec fn offset_order(a: usize, b: usize) -> Option<Ordering> {
    if a < b {
        Some(Ordering::Less)
    } else if a == b {
        Some(Ordering::Equal)
    } else {
        Some(Ordering::Greater)
    }
}

impl PartialOrd for Position {
    /// Positions are ordered by their byte offset alone.
    fn partial_cmp(&self, other: &Self) -> (res: Option<Ordering>) {
        if self.offset < other.offset {
            Some(Ordering::Less)
        } else if self.offset == other.offset {
            Some(Ordering::Equal)
        } else {
            Some(Ordering::Greater)
        }
    }
}

impl vstd::std_specs::cmp::PartialOrdSpecImpl for Position {
    open spec fn obeys_partial_cmp_spec() -> bool {
        true
    }

    open spec fn partial_cmp_spec(&self, other: &Self) -> Option<Ordering> {
        offset_order(self.offset, other.offset)
    }
}

} // verus!
