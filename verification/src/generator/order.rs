use vstd::prelude::*;

use core::cmp::Ordering;
use vstd::std_specs::cmp::PartialOrdSpecImpl;

use crate::generator::locations::{loc_gt, Location};
use crate::generator::registers::{Registers, X86Registers};

verus! {

/// How `a` compares with `b` when `a` greater means `a` is handed out first.
pub open spec fn order_of(a_first: bool, b_first: bool) -> Ordering {
    if a_first {
        Ordering::Greater
    } else if b_first {
        Ordering::Less
    } else {
        Ordering::Equal
    }
}

/// Registers compare by rank: a register declared earlier is greater.
impl PartialOrd for X86Registers {
    fn partial_cmp(&self, other: &Self) -> (r: Option<Ordering>) {
        let a = self.outranks(other);
        let b = other.outranks(self);
        if a {
            Some(Ordering::Greater)
        } else if b {
            Some(Ordering::Less)
        } else {
            Some(Ordering::Equal)
        }
    }
}

impl PartialOrdSpecImpl for X86Registers {
    open spec fn obeys_partial_cmp_spec() -> bool {
        true
    }

    open spec fn partial_cmp_spec(&self, other: &Self) -> Option<Ordering> {
        Some(order_of(self.rank() > other.rank(), other.rank() > self.rank()))
    }
}

/// Locations compare in the order in which free ones are handed out: the
/// greater is handed out first.
impl<R: Registers + PartialEq> PartialOrd for Location<R> {
    fn partial_cmp(&self, other: &Self) -> (r: Option<Ordering>) {
        let o = match (self, other) {
            (Location::Register(a), Location::Register(b)) => {
                if a.outranks(b) {
                    Ordering::Greater
                } else if b.outranks(a) {
                    Ordering::Less
                } else {
                    Ordering::Equal
                }
            },
            (Location::Stack(a), Location::Stack(b)) => {
                if *a < *b {
                    Ordering::Greater
                } else if *b < *a {
                    Ordering::Less
                } else {
                    Ordering::Equal
                }
            },
            (Location::Hardcoded(_), Location::Hardcoded(_)) => Ordering::Equal,
            (Location::Register(_), _) => Ordering::Greater,
            (Location::Stack(_), Location::Register(_)) => Ordering::Less,
            (Location::Stack(_), Location::Hardcoded(_)) => Ordering::Greater,
            (Location::Hardcoded(_), _) => Ordering::Less,
        };
        Some(o)
    }
}

impl<R: Registers + PartialEq> PartialOrdSpecImpl for Location<R> {
    open spec fn obeys_partial_cmp_spec() -> bool {
        true
    }

    open spec fn partial_cmp_spec(&self, other: &Self) -> Option<Ordering> {
        Some(order_of(loc_gt(self@, other@), loc_gt(other@, self@)))
    }
}

} // verus!
