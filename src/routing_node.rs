use vstd::prelude::*;

use crate::address::Address;
use crate::codec::{push_address, push_u64, read_address, u64_be};
use crate::crypto::{
    generate_keypair, init, random_u64, sha512, sha512_of, signature_of, signature_valid, PUBLIC_KEY_LEN, SECRET_KEY_LEN,
    SIGNATURE_LEN,
};
use crate::envelope::{construct, envelope_of, lemma_envelope_round_trip, open_error};
use crate::message::{
    authority_code, decode, encoded, push_bytes, well_formed, zeros, Authority,
    DestinationAddress, RoutingMessage, SourceAddress, HEADER_LEN, KIND_GET_DATA, KIND_PUT_DATA,
    KIND_PUT_PUBLIC_ID, KIND_PUT_PUBLIC_ID_RESPONSE, KIND_UNAUTHORISED_PUT,
};

verus! {

/// Number of bytes in the wire form of a public identity: the public key, then the address.
pub const PUBLIC_ID_LEN: usize = 96;

/// What the connection fabric reports.
pub enum FabricEvent {
    NewConnection(u64),
    NewBootstrapConnection(u64),
    LostConnection(u64),
    NewMessage(u64, Vec<u8>),
    /// The event stream has ended.
    Closed,
}

/// Where a node is on its way to a network-assigned address.
pub enum BootstrapState {
    AwaitingFirstEvent,
    /// A relocation request went to this bootstrap connection.
    AwaitingRelocation(u64),
    Relocated(Address),
    FailedToBootstrap,
}

/// What the fabric is to do after an event.
pub enum BootstrapStep {
    Nothing,
    Send(u64, Vec<u8>),
    DropConnection(u64),
    /// Relocation is done: start the routing core at this address.
    StartCore(Address),
    Failed,
}

/// The wire form of the request for an address that a node sends to its bootstrap peer: its
/// public identity, sent on its own behalf and relayed by itself, to its own address.
pub open spec fn relocation_request(id: u64, own: Seq<u8>, public_key: Seq<u8>) -> Seq<u8> {
    u64_be(id) + seq![1u8] + own + own + seq![0u8] + own + seq![3u8, KIND_PUT_PUBLIC_ID, 0u8]
        + u64_be(0u64) + u64_be(PUBLIC_ID_LEN as u64) + (public_key + own)
}

/// The address handed to a node by the relocation response `body`: a response addressed
/// directly to `own` that carries the node's public key and its new address.
pub open spec fn relocated_name(body: Seq<u8>, own: Seq<u8>, public_key: Seq<u8>) -> Option<Seq<u8>> {
    if well_formed(body) && body[203] == KIND_PUT_PUBLIC_ID_RESPONSE && body[137] == 0
        && body.subrange(138, 202) == own && body.len() == HEADER_LEN + PUBLIC_ID_LEN
        && body.subrange(221, 253) == public_key {
        Some(body.subrange(253, 317))
    } else {
        None
    }
}

/// The address carried by the relocation response in envelope `e`, if it holds one.
pub open spec fn relocation_in(e: Seq<u8>, own: Seq<u8>, public_key: Seq<u8>) -> Option<Seq<u8>> {
    if e.len() >= SIGNATURE_LEN {
        relocated_name(e.skip(SIGNATURE_LEN as int), own, public_key)
    } else {
        None
    }
}

/// A node's identity and its progress towards a network-assigned address.
pub struct RoutingNode {
    public_key: Vec<u8>,
    secret_key: Vec<u8>,
    own_name: Address,
    next_message_id: u64,
    state: BootstrapState,
}

impl RoutingNode {
    pub closed spec fn public_key(&self) -> Seq<u8> {
        self.public_key@
    }

    pub closed spec fn secret_key(&self) -> Seq<u8> {
        self.secret_key@
    }

    /// The address derived from the public key, held until relocation.
    pub closed spec fn own_name(&self) -> Seq<u8> {
        self.own_name@
    }

    pub closed spec fn next_id(&self) -> u64 {
        self.next_message_id
    }

    pub closed spec fn state(&self) -> BootstrapState {
        self.state
    }

    pub open spec fn wf(&self) -> bool {
        &&& self.public_key().len() == PUBLIC_KEY_LEN
        &&& self.secret_key().len() == SECRET_KEY_LEN
        &&& self.own_name() == sha512_of(self.public_key())
    }

    /// Whether the public key checks every signature made with the secret key, as for a
    /// generated key pair.
    pub open spec fn keys_match(&self) -> bool {
        &&& forall|m: Seq<u8>| #[trigger] signature_valid(signature_of(m, self.secret_key()), m, self.public_key())
        &&& forall|m: Seq<u8>| #[trigger] signature_of(m, self.secret_key()).len() == SIGNATURE_LEN
    }

    /// A node with the given keys, whose first message gets id `first_message_id`.
    pub fn with_keys(public_key: Vec<u8>, secret_key: Vec<u8>, first_message_id: u64) -> (r: RoutingNode)
        requires
            public_key@.len() == PUBLIC_KEY_LEN,
            secret_key@.len() == SECRET_KEY_LEN,
        ensures
            r.wf(),
            r.public_key() == public_key@,
            r.secret_key() == secret_key@,
            r.next_id() == first_message_id,
            r.state() is AwaitingFirstEvent,
    {
        let own_name = Address { bytes: sha512(public_key.as_slice()) };
        RoutingNode { public_key, secret_key, own_name, next_message_id: first_message_id, state: BootstrapState::AwaitingFirstEvent }
    }

    /// The address derived from the public key.
    pub fn name(&self) -> (r: Address)
        ensures
            r@ == self.own_name(),
    {
        self.own_name.copy()
    }

    pub fn public_key_bytes(&self) -> (r: &Vec<u8>)
        ensures
            r@ == self.public_key(),
    {
        &self.public_key
    }

    pub fn secret_key_bytes(&self) -> (r: &Vec<u8>)
        ensures
            r@ == self.secret_key(),
    {
        &self.secret_key
    }

    /// Hands out the next message id; ids count up, wrapping at the top.
    pub fn get_next_message_id(&mut self) -> (r: u64)
        ensures
            r == old(self).next_id(),
            final(self).next_id() == old(self).next_id().wrapping_add(1),
            final(self).public_key() == old(self).public_key(),
            final(self).secret_key() == old(self).secret_key(),
            final(self).own_name() == old(self).own_name(),
            final(self).state() == old(self).state(),
    {
        let id = self.next_message_id;
        self.next_message_id = self.next_message_id.wrapping_add(1);
        id
    }

    /// The new address in the relocation response held by envelope `e`, if it holds one.
    fn relocation_from(&self, e: &Vec<u8>) -> (r: Option<Address>)
        requires
            self.wf(),
        ensures
            r is None ==> relocation_in(e@, self.own_name(), self.public_key()) is None,
            r matches Some(a) ==> relocation_in(e@, self.own_name(), self.public_key()) == Some(a@),
    {
        if e.len() < SIGNATURE_LEN {
            return None;
        }
        let mut body: Vec<u8> = Vec::new();
        push_bytes(&mut body, e.as_slice(), SIGNATURE_LEN);
        assert(body@ =~= e@.skip(SIGNATURE_LEN as int));
        let m = match decode(body.as_slice()) {
            Some(m) => m,
            None => return None,
        };
        let ghost b = body@;
        assert(b[203] == m.kind);
        assert(b[137] == crate::message::destination_tag(m.destination));
        assert(b.subrange(138, 202) =~= crate::message::destination_address(m.destination));
        assert(b.subrange(221, b.len() as int) =~= m.payload@);
        if m.kind != KIND_PUT_PUBLIC_ID_RESPONSE || m.payload.len() != PUBLIC_ID_LEN {
            return None;
        }
        let to_us = match &m.destination {
            DestinationAddress::Direct(a) => a.same_as(&self.own_name),
            DestinationAddress::Group(_) => false,
        };
        if !to_us {
            return None;
        }
        assert(b.len() == HEADER_LEN + PUBLIC_ID_LEN);
        let mut i: usize = 0;
        while i < PUBLIC_KEY_LEN
            invariant
                i <= PUBLIC_KEY_LEN,
                m.payload@.len() == PUBLIC_ID_LEN,
                b.len() == HEADER_LEN + PUBLIC_ID_LEN,
                b.subrange(221, b.len() as int) == m.payload@,
                e@.len() >= SIGNATURE_LEN,
                b == e@.skip(SIGNATURE_LEN as int),
                self.public_key@.len() == PUBLIC_KEY_LEN,
                forall|k: int| 0 <= k < i ==> m.payload@[k] == self.public_key@[k],
            decreases PUBLIC_KEY_LEN - i,
        {
            if m.payload[i] != self.public_key[i] {
                assert(b.subrange(221, 253)[i as int] == b.subrange(221, b.len() as int)[i as int]);
                assert(b.subrange(221, 253)[i as int] != self.public_key@[i as int]);
                assert(b.subrange(221, 253) != self.public_key@);
                return None;
            }
            i = i + 1;
        }
        assert(b.subrange(221, 253) =~= self.public_key@);
        let a = read_address(m.payload.as_slice(), PUBLIC_KEY_LEN);
        assert(b.subrange(253, 317) =~= a@);
        Some(a)
    }

    /// Decides what an event from the fabric means while the node has no network-assigned
    /// address. An inbound connection before any bootstrap connection makes the node the
    /// first of the network, at the hash of its own address. The first bootstrap connection
    /// gets the request for an address, and rules out the first-node case; other offers are
    /// refused. A response to the request from that connection gives the node its address.
    /// Losing that connection, or the end of the event stream, is fatal.
    pub fn handle_bootstrap_event(&mut self, event: FabricEvent) -> (r: BootstrapStep)
        requires
            old(self).wf(),
        ensures
            final(self).wf(),
            final(self).public_key() == old(self).public_key(),
            final(self).secret_key() == old(self).secret_key(),
            final(self).own_name() == old(self).own_name(),
            old(self).state() is Relocated || old(self).state() is FailedToBootstrap ==> r is Nothing
                && final(self).state() == old(self).state() && final(self).next_id() == old(self).next_id(),
            old(self).state() is AwaitingFirstEvent || old(self).state() is AwaitingRelocation ==> match event {
                FabricEvent::Closed => r is Failed && final(self).state() is FailedToBootstrap
                    && final(self).next_id() == old(self).next_id(),
                FabricEvent::NewConnection(e) => if old(self).state() is AwaitingFirstEvent {
                    &&& r matches BootstrapStep::StartCore(a) && a@ == sha512_of(old(self).own_name())
                    &&& final(self).state() matches BootstrapState::Relocated(a) && a@ == sha512_of(old(self).own_name())
                    &&& final(self).next_id() == old(self).next_id()
                } else {
                    &&& r matches BootstrapStep::DropConnection(x) && x == e
                    &&& final(self).state() == old(self).state() && final(self).next_id() == old(self).next_id()
                },
                FabricEvent::NewBootstrapConnection(e) => if old(self).state() is AwaitingFirstEvent {
                    &&& r matches BootstrapStep::Send(x, bytes) && x == e && bytes@ == envelope_of_bytes(
                        relocation_request(old(self).next_id(), old(self).own_name(), old(self).public_key()),
                        old(self).secret_key())
                    &&& signature_of(relocation_request(old(self).next_id(), old(self).own_name(), old(self).public_key()),
                        old(self).secret_key()).len() == SIGNATURE_LEN
                    &&& final(self).state() matches BootstrapState::AwaitingRelocation(x) && x == e
                    &&& final(self).next_id() == old(self).next_id().wrapping_add(1)
                } else {
                    &&& r matches BootstrapStep::DropConnection(x) && x == e
                    &&& final(self).state() == old(self).state() && final(self).next_id() == old(self).next_id()
                },
                FabricEvent::LostConnection(e) => if old(self).state() == BootstrapState::AwaitingRelocation(e) {
                    r is Failed && final(self).state() is FailedToBootstrap && final(self).next_id() == old(self).next_id()
                } else {
                    r is Nothing && final(self).state() == old(self).state() && final(self).next_id() == old(self).next_id()
                },
                FabricEvent::NewMessage(e, bytes) => if old(self).state() == BootstrapState::AwaitingRelocation(e)
                    && relocation_in(bytes@, old(self).own_name(), old(self).public_key()) is Some {
                    &&& r matches BootstrapStep::StartCore(a)
                        && Some(a@) == relocation_in(bytes@, old(self).own_name(), old(self).public_key())
                    &&& final(self).state() matches BootstrapState::Relocated(a)
                        && Some(a@) == relocation_in(bytes@, old(self).own_name(), old(self).public_key())
                    &&& final(self).next_id() == old(self).next_id()
                } else {
                    r is Nothing && final(self).state() == old(self).state() && final(self).next_id() == old(self).next_id()
                },
            },
    {
        let waiting_on: Option<u64> = match &self.state {
            BootstrapState::AwaitingFirstEvent => None,
            BootstrapState::AwaitingRelocation(b) => Some(*b),
            _ => return BootstrapStep::Nothing,
        };
        match event {
            FabricEvent::Closed => {
                self.state = BootstrapState::FailedToBootstrap;
                BootstrapStep::Failed
            },
            FabricEvent::NewConnection(e) => {
                if waiting_on.is_none() {
                    let name = Address { bytes: sha512(self.own_name.bytes.as_slice()) };
                    self.state = BootstrapState::Relocated(name.copy());
                    BootstrapStep::StartCore(name)
                } else {
                    BootstrapStep::DropConnection(e)
                }
            },
            FabricEvent::NewBootstrapConnection(e) => {
                if waiting_on.is_none() {
                    let id = self.get_next_message_id();
                    let bytes = self.relocation_request_envelope(id);
                    self.state = BootstrapState::AwaitingRelocation(e);
                    BootstrapStep::Send(e, bytes)
                } else {
                    BootstrapStep::DropConnection(e)
                }
            },
            FabricEvent::LostConnection(e) => {
                if waiting_on == Some(e) {
                    self.state = BootstrapState::FailedToBootstrap;
                    BootstrapStep::Failed
                } else {
                    BootstrapStep::Nothing
                }
            },
            FabricEvent::NewMessage(e, bytes) => {
                if waiting_on == Some(e) {
                    match self.relocation_from(&bytes) {
                        Some(a) => {
                            self.state = BootstrapState::Relocated(a.copy());
                            BootstrapStep::StartCore(a)
                        },
                        None => BootstrapStep::Nothing,
                    }
                } else {
                    BootstrapStep::Nothing
                }
            },
        }
    }

    /// A node with fresh random keys, whose message ids start at a random number.
    pub fn new() -> (r: RoutingNode)
        ensures
            r.wf(),
            r.keys_match(),
            r.state() is AwaitingFirstEvent,
    {
        let _ = init();
        let (public_key, secret_key) = generate_keypair();
        RoutingNode::with_keys(public_key, secret_key, random_u64())
    }

    /// Signs a request sent directly from this node, with the next message id.
    fn request_envelope(&mut self, destination: &Address, authority: Authority, kind: u8, payload: Vec<u8>) -> (r: Vec<u8>)
        requires
            old(self).wf(),
        ensures
            final(self).wf(),
            r@ == envelope_of_bytes(
                request(old(self).next_id(), old(self).own_name(), destination@, authority_code(authority), kind, payload@),
                old(self).secret_key()),
            signature_of(request(old(self).next_id(), old(self).own_name(), destination@, authority_code(authority), kind, payload@),
                old(self).secret_key()).len() == SIGNATURE_LEN,
            old(self).keys_match() && payload@.len() + HEADER_LEN <= u64::MAX ==> open_error(r@, old(self).public_key()) is None
                && r@.skip(SIGNATURE_LEN as int) == request(old(self).next_id(), old(self).own_name(), destination@,
                    authority_code(authority), kind, payload@),
            final(self).next_id() == old(self).next_id().wrapping_add(1),
            final(self).public_key() == old(self).public_key(),
            final(self).secret_key() == old(self).secret_key(),
            final(self).own_name() == old(self).own_name(),
            final(self).state() == old(self).state(),
    {
        let id = self.get_next_message_id();
        let ghost p = payload@;
        let m = RoutingMessage {
            message_id: id,
            source: SourceAddress::Direct(self.own_name.copy()),
            destination: DestinationAddress::Direct(destination.copy()),
            authority,
            kind,
            orig_message: None,
            payload,
        };
        assert(crate::message::source_second(m.source) == zeros(64));
        assert(encoded(m) =~= request(id, self.own_name@, destination@, authority_code(authority), kind, p));
        proof {
            if self.keys_match() && p.len() + HEADER_LEN <= u64::MAX {
                lemma_own_envelope_opens(self, m);
            }
        }
        construct(&m, &self.secret_key)
    }

    /// A request for the data of type `type_id` at `name`, to be forwarded towards `name`.
    pub fn get(&mut self, type_id: u64, name: &Address) -> (r: Vec<u8>)
        requires
            old(self).wf(),
        ensures
            final(self).wf(),
            r@ == envelope_of_bytes(
                request(old(self).next_id(), old(self).own_name(), name@, authority_code(Authority::Client),
                    KIND_GET_DATA, name@ + u64_be(type_id)),
                old(self).secret_key()),
            signature_of(request(old(self).next_id(), old(self).own_name(), name@, authority_code(Authority::Client),
                KIND_GET_DATA, name@ + u64_be(type_id)), old(self).secret_key()).len() == SIGNATURE_LEN,
            old(self).keys_match() ==> open_error(r@, old(self).public_key()) is None
                && r@.skip(SIGNATURE_LEN as int) == request(old(self).next_id(), old(self).own_name(), name@,
                    authority_code(Authority::Client), KIND_GET_DATA, name@ + u64_be(type_id)),
            final(self).next_id() == old(self).next_id().wrapping_add(1),
            final(self).state() == old(self).state(),
            final(self).public_key() == old(self).public_key(),
            final(self).secret_key() == old(self).secret_key(),
            final(self).own_name() == old(self).own_name(),
            final(self).keys_match() == old(self).keys_match(),
    {
        let mut payload: Vec<u8> = Vec::new();
        push_address(&mut payload, name);
        push_u64(&mut payload, type_id);
        self.request_envelope(name, Authority::Client, KIND_GET_DATA, payload)
    }

    fn put_payload(name: &Address, data: &Vec<u8>) -> (r: Vec<u8>)
        ensures
            r@ == name@ + data@,
    {
        let mut payload: Vec<u8> = Vec::new();
        push_address(&mut payload, name);
        push_bytes(&mut payload, data.as_slice(), 0);
        assert(data@.subrange(0, data@.len() as int) =~= data@);
        payload
    }

    /// A request to store `data` under `name` at `destination`, through the managers of this
    /// node's own address, to be forwarded towards this node's own address.
    pub fn put(&mut self, destination: &Address, name: &Address, data: &Vec<u8>) -> (r: Vec<u8>)
        requires
            old(self).wf(),
        ensures
            final(self).wf(),
            r@ == envelope_of_bytes(
                request(old(self).next_id(), old(self).own_name(), destination@, authority_code(Authority::ManagedNode),
                    KIND_PUT_DATA, name@ + data@),
                old(self).secret_key()),
            signature_of(request(old(self).next_id(), old(self).own_name(), destination@, authority_code(Authority::ManagedNode),
                KIND_PUT_DATA, name@ + data@), old(self).secret_key()).len() == SIGNATURE_LEN,
            old(self).keys_match() && data@.len() + 64 + HEADER_LEN <= u64::MAX ==> open_error(r@, old(self).public_key()) is None
                && r@.skip(SIGNATURE_LEN as int) == request(old(self).next_id(), old(self).own_name(), destination@,
                    authority_code(Authority::ManagedNode), KIND_PUT_DATA, name@ + data@),
            final(self).next_id() == old(self).next_id().wrapping_add(1),
            final(self).state() == old(self).state(),
            final(self).public_key() == old(self).public_key(),
            final(self).secret_key() == old(self).secret_key(),
            final(self).own_name() == old(self).own_name(),
            final(self).keys_match() == old(self).keys_match(),
    {
        let payload = Self::put_payload(name, data);
        self.request_envelope(destination, Authority::ManagedNode, KIND_PUT_DATA, payload)
    }

    /// A request to store `data` under `name` at `destination` without claiming authority.
    pub fn unauthorised_put(&mut self, destination: &Address, name: &Address, data: &Vec<u8>) -> (r: Vec<u8>)
        requires
            old(self).wf(),
        ensures
            final(self).wf(),
            r@ == envelope_of_bytes(
                request(old(self).next_id(), old(self).own_name(), destination@, authority_code(Authority::Unknown),
                    KIND_UNAUTHORISED_PUT, name@ + data@),
                old(self).secret_key()),
            signature_of(request(old(self).next_id(), old(self).own_name(), destination@, authority_code(Authority::Unknown),
                KIND_UNAUTHORISED_PUT, name@ + data@), old(self).secret_key()).len() == SIGNATURE_LEN,
            old(self).keys_match() && data@.len() + 64 + HEADER_LEN <= u64::MAX ==> open_error(r@, old(self).public_key()) is None
                && r@.skip(SIGNATURE_LEN as int) == request(old(self).next_id(), old(self).own_name(), destination@,
                    authority_code(Authority::Unknown), KIND_UNAUTHORISED_PUT, name@ + data@),
            final(self).next_id() == old(self).next_id().wrapping_add(1),
            final(self).state() == old(self).state(),
            final(self).public_key() == old(self).public_key(),
            final(self).secret_key() == old(self).secret_key(),
            final(self).own_name() == old(self).own_name(),
            final(self).keys_match() == old(self).keys_match(),
    {
        let payload = Self::put_payload(name, data);
        self.request_envelope(destination, Authority::Unknown, KIND_UNAUTHORISED_PUT, payload)
    }

    /// Where the node is on its way to an address.
    pub fn bootstrap_state(&self) -> (r: &BootstrapState)
        ensures
            *r == self.state(),
    {
        &self.state
    }

    /// The signed request for an address, with message id `id`.
    fn relocation_request_envelope(&self, id: u64) -> (r: Vec<u8>)
        requires
            self.wf(),
        ensures
            r@ == envelope_of_bytes(relocation_request(id, self.own_name(), self.public_key()), self.secret_key()),
            signature_of(relocation_request(id, self.own_name(), self.public_key()), self.secret_key()).len() == SIGNATURE_LEN,
    {
        let mut payload: Vec<u8> = Vec::new();
        push_bytes(&mut payload, self.public_key.as_slice(), 0);
        push_address(&mut payload, &self.own_name);
        assert(self.public_key@.subrange(0, self.public_key@.len() as int) =~= self.public_key@);
        let m = RoutingMessage {
            message_id: id,
            source: SourceAddress::RelayedForNode(self.own_name.copy(), self.own_name.copy()),
            destination: DestinationAddress::Direct(self.own_name.copy()),
            authority: Authority::ManagedNode,
            kind: KIND_PUT_PUBLIC_ID,
            orig_message: None,
            payload,
        };
        assert(encoded(m) =~= relocation_request(id, self.own_name(), self.public_key()));
        construct(&m, &self.secret_key)
    }
}

/// The wire form of a request with id `id` sent directly by the node at `own` to
/// `destination`, claiming `authority`, of kind `kind`, carrying `payload`.
pub open spec fn request(id: u64, own: Seq<u8>, destination: Seq<u8>, authority: u8, kind: u8, payload: Seq<u8>) -> Seq<u8> {
    u64_be(id) + seq![0u8] + own + zeros(64) + seq![0u8] + destination + seq![authority, kind, 0u8]
        + u64_be(0u64) + u64_be(payload.len() as u64) + payload
}

/// The signature of `body` under `secret_key`, then `body`.
pub open spec fn envelope_of_bytes(body: Seq<u8>, secret_key: Seq<u8>) -> Seq<u8> {
    signature_of(body, secret_key) + body
}

/// An envelope a node signs opens under the node's own public key, when its keys were
/// generated together, and gives back the message signed.
pub proof fn lemma_own_envelope_opens(node: &RoutingNode, m: RoutingMessage)
    requires
        node.keys_match(),
        m.payload@.len() + HEADER_LEN <= u64::MAX,
    ensures
        open_error(envelope_of(m, node.secret_key()), node.public_key()) is None,
        envelope_of(m, node.secret_key()).skip(SIGNATURE_LEN as int) == encoded(m),
{
    assert(signature_valid(signature_of(encoded(m), node.secret_key()), encoded(m), node.public_key()));
    assert(signature_of(encoded(m), node.secret_key()).len() == SIGNATURE_LEN);
    lemma_envelope_round_trip(m, node.secret_key(), node.public_key());
}

} // verus!
