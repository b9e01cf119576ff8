//! `PartialOrd` for the library's types, following [`crate::order`].

use std::cmp::Ordering;

use vstd::prelude::*;
use vstd::std_specs::cmp::PartialOrdSpecImpl;

use crate::address::Address;
use crate::domain::Domain;
use crate::host::Host;
use crate::link::Link;
use crate::order::{
    address_order, host_order, link_order, path_order, protocol_order, text_order, Order,
};
use crate::path::{PathBuf, PathSegment};
use crate::protocol::Protocol;

verus! {

/// The standard ordering that an [`Order`] stands for.
pub open spec fn std_order(o: Order) -> Ordering {
    match o {
        Order::Less => Ordering::Less,
        Order::Equal => Ordering::Equal,
        Order::Greater => Ordering::Greater,
    }
}

fn to_ordering(o: Order) -> (r: Ordering)
    ensures
        r == std_order(o),
{
    match o {
        Order::Less => Ordering::Less,
        Order::Equal => Ordering::Equal,
        Order::Greater => Ordering::Greater,
    }
}

impl PartialOrd for Protocol {
    fn partial_cmp(&self, other: &Protocol) -> (r: Option<Ordering>)
        ensures
            r == Some(std_order(protocol_order(*self, *other))),
    {
        Some(to_ordering(self.compare(other)))
    }
}

impl PartialOrdSpecImpl for Protocol {
    open spec fn obeys_partial_cmp_spec() -> bool {
        true
    }

    open spec fn partial_cmp_spec(&self, other: &Protocol) -> Option<Ordering> {
        Some(std_order(protocol_order(*self, *other)))
    }
}

impl PartialOrd for Domain {
    fn partial_cmp(&self, other: &Domain) -> (r: Option<Ordering>)
        ensures
            r == Some(std_order(text_order(self@, other@))),
    {
        Some(to_ordering(self.compare(other)))
    }
}

impl PartialOrdSpecImpl for Domain {
    open spec fn obeys_partial_cmp_spec() -> bool {
        true
    }

    open spec fn partial_cmp_spec(&self, other: &Domain) -> Option<Ordering> {
        Some(std_order(text_order(self@, other@)))
    }
}

impl PartialOrd for Address {
    fn partial_cmp(&self, other: &Address) -> (r: Option<Ordering>)
        ensures
            r == Some(std_order(address_order(self@, other@))),
    {
        Some(to_ordering(self.compare(other)))
    }
}

impl PartialOrdSpecImpl for Address {
    open spec fn obeys_partial_cmp_spec() -> bool {
        true
    }

    open spec fn partial_cmp_spec(&self, other: &Address) -> Option<Ordering> {
        Some(std_order(address_order(self@, other@)))
    }
}

impl PartialOrd for Host {
    fn partial_cmp(&self, other: &Host) -> (r: Option<Ordering>)
        ensures
            r == Some(std_order(host_order(self@, other@))),
    {
        Some(to_ordering(self.compare(other)))
    }
}

impl PartialOrdSpecImpl for Host {
    open spec fn obeys_partial_cmp_spec() -> bool {
        true
    }

    open spec fn partial_cmp_spec(&self, other: &Host) -> Option<Ordering> {
        Some(std_order(host_order(self@, other@)))
    }
}

impl PartialOrd for PathSegment {
    fn partial_cmp(&self, other: &PathSegment) -> (r: Option<Ordering>)
        ensures
            r == Some(std_order(text_order(self@, other@))),
    {
        Some(to_ordering(self.compare(other)))
    }
}

impl PartialOrdSpecImpl for PathSegment {
    open spec fn obeys_partial_cmp_spec() -> bool {
        true
    }

    open spec fn partial_cmp_spec(&self, other: &PathSegment) -> Option<Ordering> {
        Some(std_order(text_order(self@, other@)))
    }
}

impl PartialOrd for PathBuf {
    fn partial_cmp(&self, other: &PathBuf) -> (r: Option<Ordering>)
        ensures
            r == Some(std_order(path_order(self@, other@))),
    {
        Some(to_ordering(self.compare(other)))
    }
}

impl PartialOrdSpecImpl for PathBuf {
    open spec fn obeys_partial_cmp_spec() -> bool {
        true
    }

    open spec fn partial_cmp_spec(&self, other: &PathBuf) -> Option<Ordering> {
        Some(std_order(path_order(self@, other@)))
    }
}

impl PartialOrd for Link {
    fn partial_cmp(&self, other: &Link) -> (r: Option<Ordering>)
        ensures
            r == Some(std_order(link_order(self@, other@))),
    {
        Some(to_ordering(self.compare(other)))
    }
}

impl PartialOrdSpecImpl for Link {
    open spec fn obeys_partial_cmp_spec() -> bool {
        true
    }

    open spec fn partial_cmp_spec(&self, other: &Link) -> Option<Ordering> {
        Some(std_order(link_order(self@, other@)))
    }
}

} // verus!
