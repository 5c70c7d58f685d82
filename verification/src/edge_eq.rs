//! When two edges are the same edge.

use crate::graph::Edge;
use vstd::prelude::*;
use vstd::std_specs::cmp::PartialEqSpecImpl;

verus! {

impl PartialEq for Edge {
    /// Two edges are the same edge when they have the same identifier.
    fn eq(&self, rhs: &Self) -> (same: bool) {
        self.id == rhs.id
    }
}

impl PartialEqSpecImpl for Edge {
    open spec fn obeys_eq_spec() -> bool {
        true
    }

    open spec fn eq_spec(&self, rhs: &Self) -> bool {
        self.id == rhs.id
    }
}

} // verus!
