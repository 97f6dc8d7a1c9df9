use vstd::prelude::*;

use crate::address::Address;
use crate::codec::{
    lemma_u64_round_trip, push_address, push_u64, read_address, read_u64, u64_be, u64_of,
};

verus! {

/// Payload kind: a node's unrelocated public identity, asking the network for an address.
pub const KIND_PUT_PUBLIC_ID: u8 = 1;

/// Payload kind: the relocated public identity handed back to a joining node.
pub const KIND_PUT_PUBLIC_ID_RESPONSE: u8 = 2;

/// Payload kind: a request for data.
pub const KIND_GET_DATA: u8 = 3;

/// Payload kind: data to be stored through the client's managers.
pub const KIND_PUT_DATA: u8 = 4;

/// Payload kind: data to be stored without authority.
pub const KIND_UNAUTHORISED_PUT: u8 = 5;

/// Payload kind: a reply to a request.
pub const KIND_RESPONSE: u8 = 6;

/// Number of bytes before the payload in an encoded message.
pub const HEADER_LEN: usize = 221;

/// Where a message comes from.
pub enum SourceAddress {
    Direct(Address),
    /// Sent by a relay node (second) for a peer that has no address yet (first).
    RelayedForNode(Address, Address),
    Group(Address),
}

/// Where a message goes.
pub enum DestinationAddress {
    Direct(Address),
    Group(Address),
}

/// The authority a message claims.
#[derive(PartialEq, Eq, Structural, Clone, Copy)]
pub enum Authority {
    ClientManager,
    NaeManager,
    NodeManager,
    ManagedNode,
    Client,
    Unknown,
}

/// A logical message.
pub struct RoutingMessage {
    pub message_id: u64,
    pub source: SourceAddress,
    pub destination: DestinationAddress,
    pub authority: Authority,
    pub kind: u8,
    pub orig_message: Option<u64>,
    pub payload: Vec<u8>,
}

/// Why an envelope was not accepted.
#[derive(PartialEq, Eq, Structural, Clone, Copy)]
pub enum EnvelopeError {
    DecodeError,
    SignatureInvalid,
}

pub open spec fn zeros(n: nat) -> Seq<u8> {
    Seq::new(n, |i: int| 0u8)
}

pub open spec fn source_tag(s: SourceAddress) -> u8 {
    match s {
        SourceAddress::Direct(_) => 0,
        SourceAddress::RelayedForNode(_, _) => 1,
        SourceAddress::Group(_) => 2,
    }
}

pub open spec fn source_first(s: SourceAddress) -> Seq<u8> {
    match s {
        SourceAddress::Direct(a) => a@,
        SourceAddress::RelayedForNode(a, _) => a@,
        SourceAddress::Group(a) => a@,
    }
}

pub open spec fn source_second(s: SourceAddress) -> Seq<u8> {
    match s {
        SourceAddress::RelayedForNode(_, b) => b@,
        _ => zeros(64),
    }
}

pub open spec fn destination_tag(d: DestinationAddress) -> u8 {
    match d {
        DestinationAddress::Direct(_) => 0,
        DestinationAddress::Group(_) => 1,
    }
}

pub open spec fn destination_address(d: DestinationAddress) -> Seq<u8> {
    match d {
        DestinationAddress::Direct(a) => a@,
        DestinationAddress::Group(a) => a@,
    }
}

pub open spec fn authority_code(a: Authority) -> u8 {
    match a {
        Authority::ClientManager => 0,
        Authority::NaeManager => 1,
        Authority::NodeManager => 2,
        Authority::ManagedNode => 3,
        Authority::Client => 4,
        Authority::Unknown => 5,
    }
}

/// The wire form of a message: its id, the tag and two addresses of its source (the second
/// all zero unless relayed), the tag and address of its destination, its authority, its kind,
/// a flag and id for the message it answers (zero if none), the payload's length and the
/// payload, numbers in eight big-endian bytes.
pub open spec fn encoded(m: RoutingMessage) -> Seq<u8> {
    u64_be(m.message_id) + seq![source_tag(m.source)] + source_first(m.source) + source_second(m.source)
        + seq![destination_tag(m.destination)] + destination_address(m.destination)
        + seq![authority_code(m.authority), m.kind, if m.orig_message is Some { 1u8 } else { 0u8 }]
        + u64_be(if m.orig_message is Some { m.orig_message->0 } else { 0u64 })
        + u64_be(m.payload@.len() as u64) + m.payload@
}

/// Whether `b` is the wire form of some message.
pub open spec fn well_formed(b: Seq<u8>) -> bool {
    &&& b.len() >= HEADER_LEN
    &&& b[8] <= 2
    &&& b[8] != 1 ==> b.subrange(73, 137) == zeros(64)
    &&& b[137] <= 1
    &&& b[202] <= 5
    &&& b[204] <= 1
    &&& b[204] == 0 ==> b.subrange(205, 213) == zeros(8)
    &&& u64_of(b.subrange(213, 221)) == b.len() - HEADER_LEN
}

impl RoutingMessage {
    pub open spec fn view(&self) -> Seq<u8> {
        encoded(*self)
    }
}

proof fn lemma_u64_be_zero()
    ensures
        u64_be(0u64) =~= zeros(8),
{
    let z: u64 = 0;
    assert((z >> 56u64) as u8 == 0 && (z >> 48u64) as u8 == 0 && (z >> 40u64) as u8 == 0 && (z
        >> 32u64) as u8 == 0 && (z >> 24u64) as u8 == 0 && (z >> 16u64) as u8 == 0 && (z >> 8u64)
        as u8 == 0 && z as u8 == 0) by (bit_vector)
        requires
            z == 0,
    ;
}

/// Reading the bytes of eight bytes back gives them.
proof fn lemma_u64_bytes(b: Seq<u8>)
    requires
        b.len() == 8,
    ensures
        u64_be(u64_of(b)) == b,
{
    let (b0, b1, b2, b3, b4, b5, b6, b7) = (b[0], b[1], b[2], b[3], b[4], b[5], b[6], b[7]);
    let x = u64_of(b);
    assert(x == ((b0 as u64) << 56u64) | ((b1 as u64) << 48u64) | ((b2 as u64) << 40u64) | ((
    b3 as u64) << 32u64) | ((b4 as u64) << 24u64) | ((b5 as u64) << 16u64) | ((b6 as u64)
        << 8u64) | (b7 as u64));
    assert(x == ((b0 as u64) << 56u64) | ((b1 as u64) << 48u64) | ((b2 as u64) << 40u64) | ((
    b3 as u64) << 32u64) | ((b4 as u64) << 24u64) | ((b5 as u64) << 16u64) | ((b6 as u64)
        << 8u64) | (b7 as u64) ==> (x >> 56u64) as u8 == b0 && (x >> 48u64) as u8 == b1 && (x
        >> 40u64) as u8 == b2 && (x >> 32u64) as u8 == b3 && (x >> 24u64) as u8 == b4 && (x
        >> 16u64) as u8 == b5 && (x >> 8u64) as u8 == b6 && x as u8 == b7) by (bit_vector);
    assert(u64_be(x) =~= b);
}

fn push_zeros(out: &mut Vec<u8>, n: usize)
    ensures
        final(out)@ == old(out)@ + zeros(n as nat),
{
    let mut i: usize = 0;
    while i < n
        invariant
            i <= n,
            out@ == old(out)@ + zeros(i as nat),
        decreases n - i,
    {
        out.push(0u8);
        assert(zeros((i + 1) as nat) =~= zeros(i as nat).push(0u8));
        i = i + 1;
    }
}

pub(crate) fn push_bytes(out: &mut Vec<u8>, b: &[u8], from: usize)
    requires
        from <= b@.len(),
    ensures
        final(out)@ == old(out)@ + b@.subrange(from as int, b@.len() as int),
{
    let mut i: usize = from;
    while i < b.len()
        invariant
            from <= i <= b@.len(),
            out@ == old(out)@ + b@.subrange(from as int, i as int),
        decreases b@.len() - i,
    {
        out.push(b[i]);
        assert(b@.subrange(from as int, i + 1) =~= b@.subrange(from as int, i as int).push(b@[i as int]));
        i = i + 1;
    }
}

/// Whether the `n` bytes of `b` at `at` are all zero.
fn all_zero(b: &[u8], at: usize, n: usize) -> (r: bool)
    requires
        at + n <= b@.len(),
    ensures
        r == (b@.subrange(at as int, at + n) == zeros(n as nat)),
{
    let len = b.len();
    let ghost window = b@.subrange(at as int, at + n);
    let mut i: usize = 0;
    while i < n
        invariant
            i <= n,
            at + n <= b@.len(),
            len == b@.len(),
            window == b@.subrange(at as int, at + n),
            forall|k: int| 0 <= k < i ==> window[k] == 0u8,
        decreases n - i,
    {
        if b[at + i] != 0u8 {
            assert(window[i as int] != zeros(n as nat)[i as int]);
            return false;
        }
        i = i + 1;
    }
    assert(b@.subrange(at as int, at + n) =~= zeros(n as nat));
    true
}

impl Authority {
    pub fn code(&self) -> (r: u8)
        ensures
            r == authority_code(*self),
    {
        match self {
            Authority::ClientManager => 0,
            Authority::NaeManager => 1,
            Authority::NodeManager => 2,
            Authority::ManagedNode => 3,
            Authority::Client => 4,
            Authority::Unknown => 5,
        }
    }

    pub fn from_code(c: u8) -> (r: Option<Authority>)
        ensures
            c <= 5 <==> r is Some,
            r matches Some(a) ==> authority_code(a) == c,
    {
        if c == 0 {
            Some(Authority::ClientManager)
        } else if c == 1 {
            Some(Authority::NaeManager)
        } else if c == 2 {
            Some(Authority::NodeManager)
        } else if c == 3 {
            Some(Authority::ManagedNode)
        } else if c == 4 {
            Some(Authority::Client)
        } else if c == 5 {
            Some(Authority::Unknown)
        } else {
            None
        }
    }
}

/// The wire form of `m`.
#[verifier::rlimit(40)]
pub fn encode(m: &RoutingMessage) -> (r: Vec<u8>)
    ensures
        r@ == m@,
{
    let mut out: Vec<u8> = Vec::new();
    push_u64(&mut out, m.message_id);
    match &m.source {
        SourceAddress::Direct(a) => {
            out.push(0u8);
            push_address(&mut out, a);
            push_zeros(&mut out, 64);
        },
        SourceAddress::RelayedForNode(a, b) => {
            out.push(1u8);
            push_address(&mut out, a);
            push_address(&mut out, b);
        },
        SourceAddress::Group(a) => {
            out.push(2u8);
            push_address(&mut out, a);
            push_zeros(&mut out, 64);
        },
    }
    match &m.destination {
        DestinationAddress::Direct(a) => {
            out.push(0u8);
            push_address(&mut out, a);
        },
        DestinationAddress::Group(a) => {
            out.push(1u8);
            push_address(&mut out, a);
        },
    }
    out.push(m.authority.code());
    out.push(m.kind);
    match m.orig_message {
        Some(id) => {
            out.push(1u8);
            push_u64(&mut out, id);
        },
        None => {
            out.push(0u8);
            push_u64(&mut out, 0u64);
        },
    }
    push_u64(&mut out, m.payload.len() as u64);
    push_bytes(&mut out, m.payload.as_slice(), 0);
    assert(m.payload@.subrange(0, m.payload@.len() as int) =~= m.payload@);
    assert(out@ =~= encoded(*m));
    out
}

/// Every message small enough to be encoded has a well-formed wire form.
pub proof fn lemma_encoded_well_formed(m: RoutingMessage)
    requires
        m.payload@.len() + HEADER_LEN <= u64::MAX,
    ensures
        well_formed(encoded(m)),
{
    let b = encoded(m);
    let oid: u64 = if m.orig_message is Some { m.orig_message->0 } else { 0u64 };
    assert(b.len() == HEADER_LEN + m.payload@.len());
    assert(b[8] == source_tag(m.source));
    assert(b.subrange(73, 137) =~= source_second(m.source));
    assert(b[137] == destination_tag(m.destination));
    assert(b[202] == authority_code(m.authority));
    assert(b[204] == (if m.orig_message is Some { 1u8 } else { 0u8 }));
    assert(b.subrange(205, 213) =~= u64_be(oid));
    lemma_u64_be_zero();
    assert(b.subrange(213, 221) =~= u64_be(m.payload@.len() as u64));
    lemma_u64_round_trip(m.payload@.len() as u64);
}

/// The message whose wire form is `b`, if `b` is the wire form of one.
pub fn decode(b: &[u8]) -> (r: Option<RoutingMessage>)
    ensures
        r is Some == well_formed(b@),
        r matches Some(m) ==> m@ == b@,
{
    if b.len() < HEADER_LEN {
        return None;
    }
    let stag = b[8];
    let dtag = b[137];
    let flag = b[204];
    let authority = match Authority::from_code(b[202]) {
        Some(a) => a,
        None => return None,
    };
    if stag > 2 || dtag > 1 || flag > 1 {
        return None;
    }
    if stag != 1 && !all_zero(b, 73, 64) {
        return None;
    }
    if flag == 0 && !all_zero(b, 205, 8) {
        return None;
    }
    let len = read_u64(b, 213);
    if len != (b.len() - HEADER_LEN) as u64 {
        return None;
    }
    let first = read_address(b, 9);
    let source = if stag == 0 {
        SourceAddress::Direct(first)
    } else if stag == 1 {
        SourceAddress::RelayedForNode(first, read_address(b, 73))
    } else {
        SourceAddress::Group(first)
    };
    let dest = read_address(b, 138);
    let destination = if dtag == 0 {
        DestinationAddress::Direct(dest)
    } else {
        DestinationAddress::Group(dest)
    };
    let orig = read_u64(b, 205);
    let orig_message = if flag == 1 { Some(orig) } else { None };
    let mut payload: Vec<u8> = Vec::new();
    push_bytes(&mut payload, b, HEADER_LEN);
    let m = RoutingMessage {
        message_id: read_u64(b, 0),
        source,
        destination,
        authority,
        kind: b[203],
        orig_message,
        payload,
    };
    proof {
        lemma_u64_bytes(b@.subrange(0, 8));
        lemma_u64_bytes(b@.subrange(205, 213));
        lemma_u64_bytes(b@.subrange(213, 221));
        assert(payload@ =~= b@.subrange(221, b@.len() as int));
        assert(b@ =~= b@.subrange(0, 8) + seq![b@[8]] + b@.subrange(9, 73) + b@.subrange(73, 137)
            + seq![b@[137]] + b@.subrange(138, 202) + seq![b@[202], b@[203], b@[204]]
            + b@.subrange(205, 213) + b@.subrange(213, 221) + b@.subrange(221, b@.len() as int));
        if flag == 0 {
            lemma_u64_be_zero();
        }
        assert(encoded(m) =~= b@);
    }
    Some(m)
}

} // verus!
