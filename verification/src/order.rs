use std::cmp::Ordering;
use vstd::prelude::*;
use vstd::std_specs::cmp::PartialOrdSpecImpl;
use crate::cache::Evr;
use crate::prelude::Nevra;
use crate::rank::Rank;

verus! {

/// The ordering that a rank stands for.
pub open spec fn ordering_of(r: Rank) -> Ordering {
    match r {
        Rank::Before => Ordering::Less,
        Rank::Same => Ordering::Equal,
        Rank::After => Ordering::Greater,
    }
}

fn to_ordering(r: Rank) -> (o: Ordering)
    ensures
        o == ordering_of(r),
{
    match r {
        Rank::Before => Ordering::Less,
        Rank::Same => Ordering::Equal,
        Rank::After => Ordering::Greater,
    }
}

impl PartialOrd for Evr {
    /// Orders by epoch, then version, then release, as plain values.
    fn partial_cmp(&self, other: &Evr) -> (r: Option<Ordering>) {
        Some(to_ordering(self.rank(other)))
    }
}

impl PartialOrdSpecImpl for Evr {
    open spec fn obeys_partial_cmp_spec() -> bool {
        true
    }

    open spec fn partial_cmp_spec(&self, other: &Evr) -> Option<Ordering> {
        Some(ordering_of(self@.rank(other@)))
    }
}

impl PartialOrd for Nevra {
    /// Orders by name, then epoch, version, release and architecture, as plain values.
    fn partial_cmp(&self, other: &Nevra) -> (r: Option<Ordering>) {
        Some(to_ordering(self.rank(other)))
    }
}

impl PartialOrdSpecImpl for Nevra {
    open spec fn obeys_partial_cmp_spec() -> bool {
        true
    }

    open spec fn partial_cmp_spec(&self, other: &Nevra) -> Option<Ordering> {
        Some(ordering_of(self@.rank(other@)))
    }
}

} // verus!
