use vstd::prelude::*;

use crate::address::Address;
use crate::codec::{lemma_u64_round_trip, u64_of};
use crate::crypto::SIGNATURE_LEN;
use crate::envelope::{open, open_error};
use crate::filter::{seen, MessageFilter, MessageIdentity};
use crate::message::{
    destination_address, encoded, source_first, DestinationAddress, EnvelopeError, RoutingMessage,
    SourceAddress,
};
use crate::relay::{has_placeholder, RelayMap};
use crate::address::closer;
use crate::routing_table::{
    closest, count_closer, holds, in_close_group, nodes_view, uses_endpoint, NodeInfo,
    RoutingTable, GROUP_SIZE, ROUTING_TABLE_SIZE,
};

verus! {

/// What the routing core does with an envelope that arrived.
pub enum CoreStep {
    /// The envelope did not open.
    Rejected(EnvelopeError),
    /// The message was handled already.
    Duplicate,
    /// The message is for this node, or for a group this node belongs to.
    Deliver(RoutingMessage),
    /// The envelope goes on, unchanged, to these peers.
    Forward(Vec<NodeInfo>),
}

/// The logical identity of the message whose wire form is `body`: its id, the first address
/// of its source, its kind.
pub open spec fn identity_of(body: Seq<u8>) -> (u64, Seq<u8>, u64) {
    (u64_of(body.subrange(0, 8)), body.subrange(9, 73), body[203] as u64)
}

/// The routing core of a node that has its address: its routing table, the peers it relays
/// for, and the messages it handled lately.
pub struct RoutingCore {
    name: Address,
    table: RoutingTable,
    relays: RelayMap,
    filter: MessageFilter,
}

impl RoutingCore {
    pub closed spec fn name(&self) -> Seq<u8> {
        self.name@
    }

    pub closed spec fn table(&self) -> RoutingTable {
        self.table
    }

    pub closed spec fn relays(&self) -> RelayMap {
        self.relays
    }

    pub closed spec fn handled(&self) -> Seq<((u64, Seq<u8>, u64), u64)> {
        self.filter@
    }

    pub open spec fn wf(&self) -> bool {
        &&& self.table().wf()
        &&& self.table().owner() == self.name()
        &&& self.relays().wf()
    }

    /// Whether a message to `d` is this node's to handle: sent to it directly, or to a group
    /// whose close group it belongs to.
    pub open spec fn is_for_us(&self, d: DestinationAddress) -> bool {
        match d {
            DestinationAddress::Direct(a) => a@ == self.name(),
            DestinationAddress::Group(a) => count_closer(self.table()@, self.name(), a@) < GROUP_SIZE,
        }
    }

    /// A core at address `name`, knowing no peers yet.
    pub fn new(name: &Address) -> (r: RoutingCore)
        ensures
            r.wf(),
            r.name() == name@,
            r.table()@.len() == 0,
            r.relays()@.len() == 0,
            r.handled().len() == 0,
    {
        RoutingCore { name: name.copy(), table: RoutingTable::new(name), relays: RelayMap::new(), filter: MessageFilter::new() }
    }

    /// Adds a peer to the routing table, as `RoutingTable::add` does.
    pub fn add_peer(&mut self, node: NodeInfo) -> (r: bool)
        requires
            old(self).wf(),
        ensures
            final(self).wf(),
            final(self).name() == old(self).name(),
            final(self).relays() == old(self).relays(),
            final(self).handled() == old(self).handled(),
            node@.0 == old(self).name() || holds(old(self).table()@, node@.0) || uses_endpoint(old(self).table()@, node@.1)
                ==> !r && final(self).table()@ == old(self).table()@,
            node@.0 != old(self).name() && !holds(old(self).table()@, node@.0) && !uses_endpoint(old(self).table()@, node@.1)
                && old(self).table()@.len() < ROUTING_TABLE_SIZE ==> r && final(self).table()@ == old(self).table()@.push(node@),
            node@.0 != old(self).name() && !holds(old(self).table()@, node@.0) && !uses_endpoint(old(self).table()@, node@.1)
                && old(self).table()@.len() == ROUTING_TABLE_SIZE ==> {
                &&& r == exists|j: int| 0 <= j < old(self).table()@.len() && closer(node@.0, old(self).table()@[j].0, old(self).name())
                &&& !r ==> final(self).table()@ == old(self).table()@
                &&& r ==> exists|k: int| 0 <= k < old(self).table()@.len()
                    && final(self).table()@ == old(self).table()@.update(k, node@)
                    && forall|j: int| 0 <= j < old(self).table()@.len() ==> !closer(old(self).table()@[k].0, old(self).table()@[j].0, old(self).name())
            },
    {
        self.table.add(node)
    }

    /// Drops a peer that has disconnected from the routing table.
    pub fn remove_peer(&mut self, address: &Address) -> (r: bool)
        requires
            old(self).wf(),
        ensures
            final(self).wf(),
            final(self).name() == old(self).name(),
            final(self).relays() == old(self).relays(),
            final(self).handled() == old(self).handled(),
            r == holds(old(self).table()@, address@),
            !holds(final(self).table()@, address@),
            !r ==> final(self).table()@ == old(self).table()@,
            r ==> exists|k: int| 0 <= k < old(self).table()@.len() && old(self).table()@[k].0 == address@
                && final(self).table()@ == old(self).table()@.remove(k),
    {
        self.table.remove(address)
    }

    /// Admits a peer without an address, as `RelayMap::add` does.
    pub fn admit_relay(&mut self, endpoint: u64, placeholder: Address) -> (r: bool)
        requires
            old(self).wf(),
        ensures
            final(self).wf(),
            final(self).name() == old(self).name(),
            final(self).table() == old(self).table(),
            final(self).handled() == old(self).handled(),
            r == (old(self).relays()@.len() < crate::relay::MAX_RELAYS
                && !crate::relay::has_endpoint(old(self).relays()@, endpoint)
                && !has_placeholder(old(self).relays()@, placeholder@)),
            r ==> final(self).relays()@ == old(self).relays()@.push((endpoint, placeholder@)),
            !r ==> final(self).relays()@ == old(self).relays()@,
    {
        self.relays.add(endpoint, placeholder)
    }

    /// Releases the relayed peer at `endpoint`.
    pub fn release_relay(&mut self, endpoint: u64) -> (r: Option<Address>)
        requires
            old(self).wf(),
        ensures
            final(self).wf(),
            final(self).name() == old(self).name(),
            final(self).table() == old(self).table(),
            final(self).handled() == old(self).handled(),
            r is Some == crate::relay::has_endpoint(old(self).relays()@, endpoint),
            !crate::relay::has_endpoint(final(self).relays()@, endpoint),
            r is None ==> final(self).relays()@ == old(self).relays()@,
            r matches Some(a) ==> exists|k: int| 0 <= k < old(self).relays()@.len() && old(self).relays()@[k] == (endpoint, a@)
                && final(self).relays()@ == old(self).relays()@.remove(k),
    {
        self.relays.remove(endpoint)
    }

    /// The source to tag a message from the relayed peer at `endpoint` with.
    pub fn relayed_source(&self, endpoint: u64) -> (r: Option<SourceAddress>)
        ensures
            r is Some == crate::relay::has_endpoint(self.relays()@, endpoint),
            r matches Some(s) ==> (s matches SourceAddress::RelayedForNode(a, b)
                && self.relays()@.contains((endpoint, a@)) && b@ == self.name()),
    {
        self.relays.relayed_source(endpoint, &self.name)
    }

    /// Forgets the handled messages whose filter entries have expired at `now`; meant to be
    /// called periodically, so that the filter holds only what arrived within its expiry.
    pub fn sweep(&mut self, now: u64)
        requires
            old(self).wf(),
        ensures
            final(self).wf(),
            final(self).name() == old(self).name(),
            final(self).table() == old(self).table(),
            final(self).relays() == old(self).relays(),
            forall|i: int| 0 <= i < final(self).handled().len() ==> crate::filter::live(final(self).handled()[i].1, now)
                && old(self).handled().contains(final(self).handled()[i]),
            forall|i: int| 0 <= i < old(self).handled().len() && crate::filter::live(old(self).handled()[i].1, now)
                ==> final(self).handled().contains(old(self).handled()[i]),
    {
        self.filter.remove_expired(now);
    }

    /// Handles the envelope `e`, signed by the holder of `public_key`, arriving at `now`.
    /// An envelope that does not open is rejected; a message handled within the filter's
    /// expiry is a duplicate; any other is recorded as handled and then delivered if it is
    /// this node's, else forwarded: to the relayed peer it is addressed to, or to the
    /// routing table's candidates for its destination.
    pub fn handle_envelope(&mut self, e: &Vec<u8>, public_key: &Vec<u8>, now: u64) -> (r: CoreStep)
        requires
            old(self).wf(),
        ensures
            final(self).wf(),
            final(self).name() == old(self).name(),
            final(self).table() == old(self).table(),
            final(self).relays() == old(self).relays(),
            open_error(e@, public_key@) matches Some(x) ==> (r matches CoreStep::Rejected(y) && y == x)
                && final(self).handled() == old(self).handled(),
            open_error(e@, public_key@) is None && seen(old(self).handled(), identity_of(e@.skip(SIGNATURE_LEN as int)), now)
                ==> r is Duplicate && final(self).handled() == old(self).handled(),
            open_error(e@, public_key@) is None && !seen(old(self).handled(), identity_of(e@.skip(SIGNATURE_LEN as int)), now)
                ==> final(self).handled() == old(self).handled().push((identity_of(e@.skip(SIGNATURE_LEN as int)), now)),
            r matches CoreStep::Deliver(m) ==> m@ == e@.skip(SIGNATURE_LEN as int) && old(self).is_for_us(m.destination)
                && open_error(e@, public_key@) is None,
            r matches CoreStep::Forward(v) ==> open_error(e@, public_key@) is None && exists|m: RoutingMessage|
                #[trigger] encoded(m) == e@.skip(SIGNATURE_LEN as int) && !old(self).is_for_us(m.destination)
                && forwards_to(old(self).relays(), old(self).table(), destination_address(m.destination), nodes_view(v@)),
            open_error(e@, public_key@) is None && !seen(old(self).handled(), identity_of(e@.skip(SIGNATURE_LEN as int)), now)
                ==> r is Deliver || r is Forward,
    {
        let m = match open(e, public_key) {
            Ok(m) => m,
            Err(x) => return CoreStep::Rejected(x),
        };
        let ghost body = e@.skip(SIGNATURE_LEN as int);
        let source = match &m.source {
            SourceAddress::Direct(a) => a.copy(),
            SourceAddress::RelayedForNode(a, _) => a.copy(),
            SourceAddress::Group(a) => a.copy(),
        };
        let identity = MessageIdentity { id: m.message_id, source, kind: m.kind as u64 };
        proof {
            lemma_u64_round_trip(m.message_id);
            assert(body.subrange(0, 8) =~= crate::codec::u64_be(m.message_id));
            assert(body.subrange(9, 73) =~= source_first(m.source));
            assert(body[203] == m.kind);
            assert(identity@ == identity_of(body));
        }
        if !self.filter.check_and_insert(&identity, now) {
            return CoreStep::Duplicate;
        }
        let ours = match &m.destination {
            DestinationAddress::Direct(a) => a.same_as(&self.name),
            DestinationAddress::Group(a) => self.table.is_close(a),
        };
        if ours {
            return CoreStep::Deliver(m);
        }
        let dest = match &m.destination {
            DestinationAddress::Direct(a) => a.copy(),
            DestinationAddress::Group(a) => a.copy(),
        };
        let hops = match self.relays.endpoint_for(&dest) {
            Some(endpoint) => {
                let mut v: Vec<NodeInfo> = Vec::new();
                v.push(NodeInfo { address: dest, endpoint });
                assert(nodes_view(v@) =~= seq![(destination_address(m.destination), endpoint)]);
                v
            },
            None => self.table.target_nodes(&dest),
        };
        assert(encoded(m) == body);
        CoreStep::Forward(hops)
    }
}

/// Whether `v` is where a message for `destination` goes on to: the relayed peer known
/// under that address, else the routing table's candidates for it: the one entry at the
/// destination if it is in the close group, or else the closest entries.
pub open spec fn forwards_to(relays: RelayMap, table: RoutingTable, destination: Seq<u8>, v: Seq<(Seq<u8>, u64)>) -> bool {
    if has_placeholder(relays@, destination) {
        v.len() == 1 && v[0].0 == destination && relays@.contains((v[0].1, destination))
    } else if in_close_group(table@, table.owner(), destination) {
        v.len() == 1 && v[0].0 == destination && table@.contains(v[0])
    } else {
        closest(table@, destination, v)
    }
}

} // verus!
