use vstd::prelude::*;

use crate::address::Address;
use crate::message::SourceAddress;
use crate::routing_table::{holds, RoutingTable};

verus! {

/// Most peers without an address that a node relays for at once.
pub const MAX_RELAYS: usize = 8;

/// Whether some entry of `s` has endpoint `e`.
pub open spec fn has_endpoint(s: Seq<(u64, Seq<u8>)>, e: u64) -> bool {
    exists|i: int| 0 <= i < s.len() && s[i].0 == e
}

/// Whether some entry of `s` has placeholder address `a`.
pub open spec fn has_placeholder(s: Seq<(u64, Seq<u8>)>, a: Seq<u8>) -> bool {
    exists|i: int| 0 <= i < s.len() && s[i].1 == a
}

/// Peers connected to this node that have no address in the network, each under a
/// placeholder address.
pub struct RelayMap {
    entries: Vec<(u64, Address)>,
}

impl RelayMap {
    pub closed spec fn view(&self) -> Seq<(u64, Seq<u8>)> {
        self.entries@.map_values(|e: (u64, Address)| (e.0, e.1@))
    }

    pub open spec fn wf(&self) -> bool {
        &&& self@.len() <= MAX_RELAYS
        &&& forall|i: int, j: int| 0 <= i < self@.len() && 0 <= j < self@.len() && i != j
            ==> self@[i].0 != self@[j].0 && self@[i].1 != self@[j].1
    }

    pub fn new() -> (r: RelayMap)
        ensures
            r.wf(),
            r@.len() == 0,
    {
        let r = RelayMap { entries: Vec::new() };
        assert(r@ =~= Seq::<(u64, Seq<u8>)>::empty());
        r
    }

    pub fn len(&self) -> (r: usize)
        ensures
            r == self@.len(),
    {
        self.entries.len()
    }

    fn index_of_endpoint(&self, endpoint: u64) -> (r: Option<usize>)
        ensures
            r is None ==> !has_endpoint(self@, endpoint),
            r matches Some(i) ==> i < self@.len() && self@[i as int].0 == endpoint,
    {
        let mut i: usize = 0;
        while i < self.entries.len()
            invariant
                i <= self@.len(),
                forall|k: int| 0 <= k < i ==> self@[k].0 != endpoint,
            decreases self@.len() - i,
        {
            if self.entries[i].0 == endpoint {
                return Some(i);
            }
            i = i + 1;
        }
        None
    }

    fn index_of_placeholder(&self, placeholder: &Address) -> (r: Option<usize>)
        ensures
            r is None ==> !has_placeholder(self@, placeholder@),
            r matches Some(i) ==> i < self@.len() && self@[i as int].1 == placeholder@,
    {
        let mut i: usize = 0;
        while i < self.entries.len()
            invariant
                i <= self@.len(),
                forall|k: int| 0 <= k < i ==> self@[k].1 != placeholder@,
            decreases self@.len() - i,
        {
            if self.entries[i].1.same_as(placeholder) {
                return Some(i);
            }
            i = i + 1;
        }
        None
    }

    /// Admits the peer at `endpoint` under `placeholder`. Refused when the map is full, or
    /// when the endpoint or the placeholder is already in use.
    pub fn add(&mut self, endpoint: u64, placeholder: Address) -> (r: bool)
        requires
            old(self).wf(),
        ensures
            final(self).wf(),
            r == (old(self)@.len() < MAX_RELAYS && !has_endpoint(old(self)@, endpoint)
                && !has_placeholder(old(self)@, placeholder@)),
            r ==> final(self)@ == old(self)@.push((endpoint, placeholder@)),
            !r ==> final(self)@ == old(self)@,
    {
        if self.entries.len() >= MAX_RELAYS {
            return false;
        }
        if self.index_of_endpoint(endpoint).is_some() || self.index_of_placeholder(&placeholder).is_some() {
            return false;
        }
        let ghost s0 = self@;
        let ghost p = placeholder@;
        self.entries.push((endpoint, placeholder));
        assert(self@ =~= s0.push((endpoint, p)));
        true
    }

    /// Releases the peer at `endpoint`, on disconnection or relocation, and gives back its
    /// placeholder.
    pub fn remove(&mut self, endpoint: u64) -> (r: Option<Address>)
        requires
            old(self).wf(),
        ensures
            final(self).wf(),
            r is Some == has_endpoint(old(self)@, endpoint),
            !has_endpoint(final(self)@, endpoint),
            r is None ==> final(self)@ == old(self)@,
            r matches Some(a) ==> exists|k: int| 0 <= k < old(self)@.len() && old(self)@[k] == (endpoint, a@)
                && final(self)@ == old(self)@.remove(k),
    {
        match self.index_of_endpoint(endpoint) {
            None => None,
            Some(k) => {
                let ghost s0 = self@;
                let (_, a) = self.entries.remove(k);
                assert(self@ =~= s0.remove(k as int));
                assert forall|i: int| 0 <= i < self@.len() implies self@[i].0 != endpoint by {
                    if i < k {
                        assert(self@[i] == s0[i]);
                    } else {
                        assert(self@[i] == s0[i + 1]);
                    }
                }
                Some(a)
            },
        }
    }

    /// The connection of the peer known under `placeholder`.
    pub fn endpoint_for(&self, placeholder: &Address) -> (r: Option<u64>)
        ensures
            r is Some == has_placeholder(self@, placeholder@),
            r matches Some(e) ==> self@.contains((e, placeholder@)),
    {
        match self.index_of_placeholder(placeholder) {
            Some(i) => {
                assert(self@[i as int] == (self.entries@[i as int].0, placeholder@));
                Some(self.entries[i].0)
            },
            None => None,
        }
    }

    /// The placeholder of the peer at `endpoint`.
    pub fn placeholder_for(&self, endpoint: u64) -> (r: Option<Address>)
        ensures
            r is Some == has_endpoint(self@, endpoint),
            r matches Some(a) ==> self@.contains((endpoint, a@)),
    {
        match self.index_of_endpoint(endpoint) {
            Some(i) => {
                let a = self.entries[i].1.copy();
                assert(self@[i as int] == (endpoint, a@));
                Some(a)
            },
            None => None,
        }
    }

    /// The source to put on a message that arrived from the relayed peer at `endpoint`,
    /// so that replies come back through this node at `our_name`.
    pub fn relayed_source(&self, endpoint: u64, our_name: &Address) -> (r: Option<SourceAddress>)
        ensures
            r is Some == has_endpoint(self@, endpoint),
            r matches Some(s) ==> (s matches SourceAddress::RelayedForNode(a, b)
                && self@.contains((endpoint, a@)) && b@ == our_name@),
    {
        match self.placeholder_for(endpoint) {
            Some(a) => Some(SourceAddress::RelayedForNode(a, our_name.copy())),
            None => None,
        }
    }
}

/// The connection that a message to `destination` leaves by: the relayed peer's own
/// connection if the destination is one of them, else the connection of a routing-table
/// entry with that address.
pub fn next_hop(relays: &RelayMap, table: &RoutingTable, destination: &Address) -> (r: Option<u64>)
    ensures
        has_placeholder(relays@, destination@) ==> (r matches Some(e) && relays@.contains((e, destination@))),
        !has_placeholder(relays@, destination@) ==> (r is Some == holds(table@, destination@)),
        !has_placeholder(relays@, destination@) ==> (r matches Some(e) ==> table@.contains((destination@, e))),
{
    match relays.endpoint_for(destination) {
        Some(e) => Some(e),
        None => match table.get(destination) {
            Some(n) => Some(n.endpoint),
            None => None,
        },
    }
}

} // verus!
