use routing::accumulator::{Accumulator, ConsensusError, Contribution, CLAIM_TIMEOUT_SECS};
use routing::action::{ignore, Action};
use routing::address::{closer_to_target, closer_to_target_or_equal, Address};
use routing::envelope::{construct, open};
use routing::filter::{MessageFilter, MessageIdentity, FILTER_EXPIRY_SECS};
use routing::message::{
    decode, encode, Authority, DestinationAddress, EnvelopeError, RoutingMessage, SourceAddress,
    KIND_GET_DATA, KIND_PUT_PUBLIC_ID, KIND_PUT_PUBLIC_ID_RESPONSE,
};
use routing::relay::{next_hop, RelayMap, MAX_RELAYS};
use routing::routing_core::{CoreStep, RoutingCore};
use routing::routing_node::{BootstrapState, BootstrapStep, FabricEvent, RoutingNode};
use routing::routing_table::{NodeInfo, RoutingTable, ROUTING_TABLE_SIZE};

fn addr(first: u8, last: u8) -> Address {
    let mut b = [0u8; 64];
    b[0] = first;
    b[63] = last;
    Address::new(b)
}

fn node(first: u8, last: u8, endpoint: u64) -> NodeInfo {
    NodeInfo { address: addr(first, last), endpoint }
}

#[test]
fn distance_to_self_is_zero_and_symmetric() {
    let a = addr(0x12, 0x34);
    let b = addr(0x56, 0x78);
    // a is at distance zero from itself, so nothing is closer to a than a.
    assert!(!closer_to_target(&b, &a, &a));
    assert!(closer_to_target(&a, &b, &a));
    assert!(closer_to_target_or_equal(&a, &a, &a));
    // d(a, b) == d(b, a): neither of a and b is closer to the other than the other is to it.
    assert_eq!(closer_to_target(&a, &a, &b), false);
    assert!(closer_to_target(&b, &a, &b));
}

#[test]
fn closeness_is_a_strict_order() {
    let t = addr(0, 0);
    let a = addr(0, 1);
    let b = addr(0, 2);
    let c = addr(1, 0);
    assert!(closer_to_target(&a, &b, &t));
    assert!(closer_to_target(&b, &c, &t));
    assert!(closer_to_target(&a, &c, &t));
    assert!(!closer_to_target(&b, &a, &t));
    assert!(!closer_to_target(&a, &a, &t));
    // The leading byte weighs most: 0x80.. is farther from 0 than 0x01..ff.
    assert!(closer_to_target(&addr(0x01, 0xff), &addr(0x80, 0), &t));
}

#[test]
fn table_refuses_owner_and_duplicates() {
    let owner = addr(0, 0);
    let mut t = RoutingTable::new(&owner);
    assert!(!t.add(node(0, 0, 1)));
    assert_eq!(t.size(), 0);
    assert!(t.add(node(0, 5, 2)));
    assert!(!t.add(node(0, 5, 3)));
    assert_eq!(t.size(), 1);
    assert!(t.contains(&addr(0, 5)));
    assert_eq!(t.get(&addr(0, 5)).map(|n| n.endpoint), Some(2));
}

#[test]
fn table_full_evicts_farthest_only_for_closer_peer() {
    let owner = addr(0, 0);
    let mut t = RoutingTable::new(&owner);
    for i in 1..=ROUTING_TABLE_SIZE {
        assert!(t.add(node(i as u8, 0, i as u64)));
    }
    assert_eq!(t.size(), ROUTING_TABLE_SIZE);
    // Farther than every entry: refused.
    assert!(!t.add(node(0xff, 0, 999)));
    assert!(!t.contains(&addr(0xff, 0)));
    // Nearer than the farthest entry (first byte 64): it takes that entry's place.
    assert!(t.add(node(0, 9, 1000)));
    assert_eq!(t.size(), ROUTING_TABLE_SIZE);
    assert!(t.contains(&addr(0, 9)));
    assert!(!t.contains(&addr(ROUTING_TABLE_SIZE as u8, 0)));
    assert!(t.contains(&addr(1, 0)));
}

#[test]
fn table_remove_drops_entry() {
    let owner = addr(0, 0);
    let mut t = RoutingTable::new(&owner);
    assert!(t.add(node(0, 1, 1)));
    assert!(t.add(node(0, 2, 2)));
    assert!(t.remove(&addr(0, 1)));
    assert!(!t.remove(&addr(0, 1)));
    assert!(!t.contains(&addr(0, 1)));
    assert!(t.contains(&addr(0, 2)));
    assert_eq!(t.size(), 1);
}

fn identity(id: u64) -> MessageIdentity {
    MessageIdentity { id, source: addr(7, 7), kind: KIND_GET_DATA as u64 }
}

#[test]
fn filter_delivers_once_within_expiry() {
    let mut f = MessageFilter::new();
    assert!(f.check_and_insert(&identity(1), 100));
    assert!(!f.check_and_insert(&identity(1), 100 + FILTER_EXPIRY_SECS - 1));
    assert!(f.check_and_insert(&identity(2), 101));
    assert_eq!(f.len(), 2);
}

#[test]
fn filter_processes_again_after_expiry() {
    let mut f = MessageFilter::new();
    assert!(f.check_and_insert(&identity(1), 100));
    assert!(f.contains(&identity(1), 100 + FILTER_EXPIRY_SECS - 1));
    assert!(!f.contains(&identity(1), 100 + FILTER_EXPIRY_SECS));
    assert!(f.check_and_insert(&identity(1), 100 + FILTER_EXPIRY_SECS));
    f.remove_expired(100 + 2 * FILTER_EXPIRY_SECS - 1);
    assert_eq!(f.len(), 1);
    f.remove_expired(100 + 3 * FILTER_EXPIRY_SECS);
    assert_eq!(f.len(), 0);
}

#[test]
fn accumulator_counts_each_signer_once() {
    let mut acc = Accumulator::new();
    let outcome = vec![1u8, 2, 3];
    assert!(matches!(acc.add(9, &outcome, &addr(1, 1), 0), Contribution::Pending(1)));
    assert!(matches!(acc.add(9, &outcome, &addr(1, 1), 0), Contribution::Pending(1)));
    assert!(matches!(acc.add(9, &outcome, &addr(1, 1), 0), Contribution::Pending(1)));
    assert!(matches!(acc.add(9, &outcome, &addr(2, 2), 0), Contribution::Pending(2)));
    // A different outcome from the same signer is counted apart.
    assert!(matches!(acc.add(9, &vec![4u8], &addr(1, 1), 0), Contribution::Pending(1)));
}

#[test]
fn accumulator_reports_quorum_once() {
    let mut acc = Accumulator::new();
    let outcome = vec![5u8];
    for i in 1..5u8 {
        assert!(matches!(acc.add(3, &outcome, &addr(i, 0), 0), Contribution::Pending(n) if n == i as usize));
    }
    assert!(matches!(acc.add(3, &outcome, &addr(5, 0), 0), Contribution::Quorum));
    assert!(matches!(acc.add(3, &outcome, &addr(6, 0), 0), Contribution::Ignored));
    assert!(matches!(acc.add(3, &vec![6u8], &addr(7, 0), 0), Contribution::Ignored));
    // Another message is unaffected.
    assert!(matches!(acc.add(4, &outcome, &addr(1, 0), 0), Contribution::Pending(1)));
}

fn sample_message() -> RoutingMessage {
    RoutingMessage {
        message_id: 0x0102030405060708,
        source: SourceAddress::RelayedForNode(addr(1, 2), addr(3, 4)),
        destination: DestinationAddress::Group(addr(5, 6)),
        authority: Authority::NaeManager,
        kind: KIND_GET_DATA,
        orig_message: Some(77),
        payload: vec![9, 8, 7],
    }
}

#[test]
fn wire_form_round_trip() {
    let m = sample_message();
    let bytes = encode(&m);
    assert_eq!(bytes.len(), 221 + 3);
    assert_eq!(&bytes[0..8], &[1, 2, 3, 4, 5, 6, 7, 8]);
    let back = decode(&bytes).expect("decodes");
    assert_eq!(encode(&back), bytes);
    assert_eq!(back.message_id, 0x0102030405060708);
    assert_eq!(back.orig_message, Some(77));
    assert_eq!(back.payload, vec![9, 8, 7]);
    assert!(back.authority == Authority::NaeManager);
}

#[test]
fn malformed_wire_form_is_refused() {
    let mut bytes = encode(&sample_message());
    assert!(decode(&bytes[..100]).is_none());
    bytes[8] = 9;
    assert!(decode(&bytes).is_none());
    let mut bytes = encode(&sample_message());
    bytes.push(0);
    assert!(decode(&bytes).is_none());
}

#[test]
fn envelope_round_trip_and_errors() {
    let signer = RoutingNode::new();
    let other = RoutingNode::new();
    let m = sample_message();
    let e = construct(&m, signer.secret_key_bytes());
    assert_eq!(e.len(), 64 + 221 + 3);
    let back = open(&e, signer.public_key_bytes()).ok().expect("opens");
    assert_eq!(encode(&back), encode(&m));
    assert!(matches!(open(&e, other.public_key_bytes()), Err(EnvelopeError::SignatureInvalid)));
    assert!(matches!(open(&e[..10].to_vec(), signer.public_key_bytes()), Err(EnvelopeError::DecodeError)));
    let mut tampered = e.clone();
    let last = tampered.len() - 1;
    tampered[last] ^= 1;
    assert!(matches!(open(&tampered, signer.public_key_bytes()), Err(EnvelopeError::SignatureInvalid)));
}

#[test]
fn own_name_is_hash_of_public_key() {
    let n = RoutingNode::new();
    let expected = sodiumoxide::crypto::hash::sha512::hash(n.public_key_bytes()).0;
    assert_eq!(n.name().bytes, expected);
    assert_ne!(&n.name().bytes[..32], &n.public_key_bytes()[..]);
}

#[test]
fn message_ids_count_up() {
    let mut n = RoutingNode::with_keys(vec![1u8; 32], vec![2u8; 64], u64::MAX);
    assert_eq!(n.get_next_message_id(), u64::MAX);
    assert_eq!(n.get_next_message_id(), 0);
    assert_eq!(n.get_next_message_id(), 1);
}

#[test]
fn get_request_is_signed_and_addressed() {
    let mut n = RoutingNode::new();
    let target = addr(4, 4);
    let e = n.get(17, &target);
    let m = open(&e, n.public_key_bytes()).ok().expect("opens");
    assert_eq!(m.kind, KIND_GET_DATA);
    assert!(m.authority == Authority::Client);
    assert!(matches!(&m.destination, DestinationAddress::Direct(a) if a.bytes == target.bytes));
    assert!(matches!(&m.source, SourceAddress::Direct(a) if a.bytes == n.name().bytes));
    assert_eq!(&m.payload[..64], &target.bytes[..]);
    assert_eq!(&m.payload[64..], &17u64.to_be_bytes());
    let e2 = n.put(&target, &addr(8, 8), &vec![1, 2]);
    let m2 = open(&e2, n.public_key_bytes()).ok().expect("opens");
    assert_eq!(m2.message_id, m.message_id.wrapping_add(1));
    assert!(m2.authority == Authority::ManagedNode);
    let e3 = n.unauthorised_put(&target, &addr(8, 8), &vec![1, 2]);
    let m3 = open(&e3, n.public_key_bytes()).ok().expect("opens");
    assert!(m3.authority == Authority::Unknown);
    assert_eq!(&m3.payload[64..], &[1, 2]);
}

fn relocation_response(to: &RoutingNode, new_name: &Address, signer: &RoutingNode) -> Vec<u8> {
    let mut payload = to.public_key_bytes().clone();
    payload.extend_from_slice(&new_name.bytes);
    let m = RoutingMessage {
        message_id: 1,
        source: SourceAddress::Direct(signer.name()),
        destination: DestinationAddress::Direct(to.name()),
        authority: Authority::NaeManager,
        kind: KIND_PUT_PUBLIC_ID_RESPONSE,
        orig_message: None,
        payload,
    };
    construct(&m, signer.secret_key_bytes())
}

#[test]
fn bootstrap_scenario_relocates_to_assigned_address() {
    let mut n = RoutingNode::new();
    let peer = RoutingNode::new();
    let request = match n.handle_bootstrap_event(FabricEvent::NewBootstrapConnection(1)) {
        BootstrapStep::Send(1, bytes) => bytes,
        _ => panic!("expected the relocation request on the bootstrap connection"),
    };
    let m = open(&request, n.public_key_bytes()).ok().expect("signed by the node");
    assert_eq!(m.kind, KIND_PUT_PUBLIC_ID);
    assert!(matches!(n.bootstrap_state(), BootstrapState::AwaitingRelocation(1)));
    // A second bootstrap offer is refused.
    assert!(matches!(n.handle_bootstrap_event(FabricEvent::NewBootstrapConnection(2)), BootstrapStep::DropConnection(2)));
    // An inbound connection no longer makes the node the first one.
    assert!(matches!(n.handle_bootstrap_event(FabricEvent::NewConnection(3)), BootstrapStep::DropConnection(3)));
    // Unrelated messages are ignored.
    assert!(matches!(n.handle_bootstrap_event(FabricEvent::NewMessage(1, vec![1, 2, 3])), BootstrapStep::Nothing));
    let assigned = addr(0xaa, 0xbb);
    let response = relocation_response(&n, &assigned, &peer);
    assert!(matches!(n.handle_bootstrap_event(FabricEvent::NewMessage(2, response.clone())), BootstrapStep::Nothing));
    match n.handle_bootstrap_event(FabricEvent::NewMessage(1, response)) {
        BootstrapStep::StartCore(a) => assert_eq!(a.bytes, assigned.bytes),
        _ => panic!("expected relocation"),
    }
    assert!(matches!(n.bootstrap_state(), BootstrapState::Relocated(a) if a.bytes == assigned.bytes));
    assert!(matches!(n.handle_bootstrap_event(FabricEvent::Closed), BootstrapStep::Nothing));
}

#[test]
fn first_node_scenario_self_relocates() {
    let mut n = RoutingNode::new();
    let expected = sodiumoxide::crypto::hash::sha512::hash(&n.name().bytes).0;
    match n.handle_bootstrap_event(FabricEvent::NewConnection(1)) {
        BootstrapStep::StartCore(a) => assert_eq!(a.bytes, expected),
        _ => panic!("expected the node to start as the first one"),
    }
    assert!(matches!(n.bootstrap_state(), BootstrapState::Relocated(a) if a.bytes == expected));
}

#[test]
fn losing_bootstrap_connection_is_fatal() {
    let mut n = RoutingNode::new();
    assert!(matches!(n.handle_bootstrap_event(FabricEvent::NewBootstrapConnection(1)), BootstrapStep::Send(1, _)));
    assert!(matches!(n.handle_bootstrap_event(FabricEvent::LostConnection(2)), BootstrapStep::Nothing));
    assert!(matches!(n.handle_bootstrap_event(FabricEvent::LostConnection(1)), BootstrapStep::Failed));
    assert!(matches!(n.bootstrap_state(), BootstrapState::FailedToBootstrap));
    let mut m = RoutingNode::new();
    assert!(matches!(m.handle_bootstrap_event(FabricEvent::Closed), BootstrapStep::Failed));
}

#[test]
fn relay_scenario_routes_reply_to_same_connection() {
    let ours = addr(0, 0);
    let table = RoutingTable::new(&ours);
    let mut relays = RelayMap::new();
    let placeholder = addr(0x33, 0x44);
    assert!(relays.add(42, placeholder.copy()));
    // The request from the relayed client is tagged so that replies come back through us.
    let source = relays.relayed_source(42, &ours).expect("admitted");
    let reply_to = match source {
        SourceAddress::RelayedForNode(a, b) => {
            assert_eq!(b.bytes, ours.bytes);
            a
        },
        _ => panic!("expected a relayed source"),
    };
    assert_eq!(next_hop(&relays, &table, &reply_to), Some(42));
    assert!(!table.contains(&reply_to));
    assert_eq!(relays.remove(42).map(|a| a.bytes), Some(placeholder.bytes));
    assert_eq!(next_hop(&relays, &table, &reply_to), None);
}

#[test]
fn relay_admission_is_capped() {
    let mut relays = RelayMap::new();
    for i in 0..MAX_RELAYS {
        assert!(relays.add(i as u64, addr(i as u8, 1)));
    }
    assert!(!relays.add(100, addr(100, 1)));
    assert!(!relays.add(0, addr(200, 1)));
    assert_eq!(relays.len(), MAX_RELAYS);
}

#[test]
fn next_hop_uses_routing_table() {
    let ours = addr(0, 0);
    let mut table = RoutingTable::new(&ours);
    assert!(table.add(node(0, 9, 5)));
    let relays = RelayMap::new();
    assert_eq!(next_hop(&relays, &table, &addr(0, 9)), Some(5));
    assert_eq!(next_hop(&relays, &table, &addr(0, 8)), None);
}

#[test]
fn action_and_ignore() {
    let a = Action::SendMessage(sample_message());
    assert!(matches!(a, Action::SendMessage(_)));
    assert!(matches!(Action::Terminate, Action::Terminate));
    ignore::<u8, ()>(Err(()));
}

#[test]
fn target_nodes_closest_first() {
    let owner = addr(0, 0);
    let mut t = RoutingTable::new(&owner);
    for (i, last) in [5u8, 1, 3, 2, 9].iter().enumerate() {
        assert!(t.add(node(0x10, *last, i as u64)));
    }
    assert!(t.add(node(0x11, 0, 99)));
    let target = addr(0x10, 0);
    let r = t.target_nodes(&target);
    let lasts: Vec<u8> = r.iter().map(|n| n.address.bytes[63]).collect();
    assert_eq!(lasts, vec![1, 2, 3, 5]);
    assert!(r.iter().all(|n| n.address.bytes[0] == 0x10));
    // A target that is itself in the table is the single hop.
    let one = t.target_nodes(&addr(0x10, 3));
    assert_eq!(one.len(), 1);
    assert_eq!(one[0].endpoint, 2);
    // Fewer entries than the parallelism: all of them.
    let mut small = RoutingTable::new(&owner);
    assert!(small.add(node(0x20, 0, 1)));
    assert_eq!(small.target_nodes(&target).len(), 1);
}

#[test]
fn is_close_counts_nearer_peers() {
    let owner = addr(0, 0);
    let target = addr(0, 0xff);
    let mut t = RoutingTable::new(&owner);
    assert!(t.is_close(&target));
    for i in 1..=8u8 {
        // Each of these is nearer to the target than the owner.
        assert!(t.add(node(0, 0xff - i, i as u64)));
    }
    assert!(!t.is_close(&target));
    assert!(t.is_close(&owner));
}

#[test]
fn signed_contribution_checks_signature() {
    let signer = RoutingNode::new();
    let other = RoutingNode::new();
    let outcome = vec![3u8, 1, 4];
    let mut data = 11u64.to_be_bytes().to_vec();
    data.extend_from_slice(&outcome);
    let sk = sodiumoxide::crypto::sign::SecretKey::from_slice(signer.secret_key_bytes()).expect("key");
    let sig = sodiumoxide::crypto::sign::sign_detached(&data, &sk).to_bytes().to_vec();
    let mut acc = Accumulator::new();
    assert!(matches!(
        acc.add_signed(11, &outcome, &signer.name(), other.public_key_bytes(), &sig, 0),
        Err(ConsensusError::InvalidSignature)
    ));
    assert!(matches!(
        acc.add_signed(12, &outcome, &signer.name(), signer.public_key_bytes(), &sig, 0),
        Err(ConsensusError::InvalidSignature)
    ));
    assert!(matches!(
        acc.add_signed(11, &outcome, &signer.name(), signer.public_key_bytes(), &sig, 0),
        Ok(Contribution::Pending(1))
    ));
}

#[test]
fn accumulator_drops_timed_out_claims() {
    let mut acc = Accumulator::new();
    let outcome = vec![1u8];
    assert!(matches!(acc.add(1, &outcome, &addr(1, 0), 10), Contribution::Pending(1)));
    assert!(matches!(acc.add(1, &vec![2u8], &addr(2, 0), 50), Contribution::Pending(1)));
    assert!(matches!(acc.add(2, &outcome, &addr(1, 0), 100), Contribution::Pending(1)));
    assert!(acc.remove_expired(10 + CLAIM_TIMEOUT_SECS - 1).is_empty());
    assert_eq!(acc.remove_expired(10 + CLAIM_TIMEOUT_SECS), vec![1]);
    // Both outcomes of message 1 are gone: the next contribution starts afresh.
    assert!(matches!(acc.add(1, &vec![2u8], &addr(3, 0), 200), Contribution::Pending(1)));
    // Message 2 kept its contribution.
    assert!(matches!(acc.add(2, &outcome, &addr(2, 0), 200), Contribution::Pending(2)));
}

fn signed_to(from: &RoutingNode, id: u64, destination: DestinationAddress) -> Vec<u8> {
    let m = RoutingMessage {
        message_id: id,
        source: SourceAddress::Direct(from.name()),
        destination,
        authority: Authority::Client,
        kind: KIND_GET_DATA,
        orig_message: None,
        payload: vec![1, 2, 3],
    };
    construct(&m, from.secret_key_bytes())
}

#[test]
fn core_delivers_once_within_expiry() {
    let ours = addr(0x40, 0);
    let mut core = RoutingCore::new(&ours);
    let sender = RoutingNode::new();
    let e = signed_to(&sender, 5, DestinationAddress::Direct(ours.copy()));
    assert!(matches!(core.handle_envelope(&e, sender.public_key_bytes(), 1000), CoreStep::Deliver(m) if m.message_id == 5));
    assert!(matches!(core.handle_envelope(&e, sender.public_key_bytes(), 1001), CoreStep::Duplicate));
    // Signed again, the same logical message is still a duplicate.
    let again = signed_to(&sender, 5, DestinationAddress::Direct(ours.copy()));
    assert!(matches!(core.handle_envelope(&again, sender.public_key_bytes(), 1002), CoreStep::Duplicate));
    assert!(matches!(
        core.handle_envelope(&e, sender.public_key_bytes(), 1000 + FILTER_EXPIRY_SECS),
        CoreStep::Deliver(_)
    ));
}

#[test]
fn core_rejects_bad_envelopes() {
    let mut core = RoutingCore::new(&addr(0x40, 0));
    let sender = RoutingNode::new();
    let other = RoutingNode::new();
    let e = signed_to(&sender, 5, DestinationAddress::Direct(addr(0x40, 0)));
    assert!(matches!(core.handle_envelope(&e, other.public_key_bytes(), 0), CoreStep::Rejected(EnvelopeError::SignatureInvalid)));
    assert!(matches!(core.handle_envelope(&vec![1, 2], sender.public_key_bytes(), 0), CoreStep::Rejected(EnvelopeError::DecodeError)));
    // A rejected envelope is not recorded: the good one still gets through.
    assert!(matches!(core.handle_envelope(&e, sender.public_key_bytes(), 0), CoreStep::Deliver(_)));
}

#[test]
fn core_forwards_towards_destination() {
    let ours = addr(0x40, 0);
    let mut core = RoutingCore::new(&ours);
    for i in 1..=6u8 {
        assert!(core.add_peer(node(0x10, i, i as u64)));
    }
    let sender = RoutingNode::new();
    let e = signed_to(&sender, 9, DestinationAddress::Direct(addr(0x10, 0)));
    match core.handle_envelope(&e, sender.public_key_bytes(), 0) {
        CoreStep::Forward(v) => {
            let endpoints: Vec<u64> = v.iter().map(|n| n.endpoint).collect();
            assert_eq!(endpoints, vec![1, 2, 3, 4]);
        },
        _ => panic!("expected forwarding"),
    }
    // A peer in the table is the single hop.
    let e2 = signed_to(&sender, 10, DestinationAddress::Direct(addr(0x10, 6)));
    assert!(matches!(core.handle_envelope(&e2, sender.public_key_bytes(), 0), CoreStep::Forward(v) if v.len() == 1 && v[0].endpoint == 6));
    // A group this node is close to is delivered.
    let e3 = signed_to(&sender, 11, DestinationAddress::Group(addr(0x40, 1)));
    assert!(matches!(core.handle_envelope(&e3, sender.public_key_bytes(), 0), CoreStep::Deliver(_)));
}

#[test]
fn core_relays_reply_to_unaddressed_client() {
    let ours = addr(0x40, 0);
    let mut core = RoutingCore::new(&ours);
    assert!(core.add_peer(node(0x33, 0, 7)));
    let placeholder = addr(0x33, 0x44);
    assert!(core.admit_relay(42, placeholder.copy()));
    let reply_to = match core.relayed_source(42) {
        Some(SourceAddress::RelayedForNode(a, b)) => {
            assert_eq!(b.bytes, ours.bytes);
            a
        },
        _ => panic!("expected a relayed source"),
    };
    let responder = RoutingNode::new();
    let e = signed_to(&responder, 3, DestinationAddress::Direct(reply_to));
    assert!(matches!(core.handle_envelope(&e, responder.public_key_bytes(), 0), CoreStep::Forward(v) if v.len() == 1 && v[0].endpoint == 42));
    assert_eq!(core.release_relay(42).map(|a| a.bytes), Some(placeholder.bytes));
}

#[test]
fn core_sweep_forgets_expired_messages() {
    let ours = addr(0x40, 0);
    let mut core = RoutingCore::new(&ours);
    let sender = RoutingNode::new();
    let e = signed_to(&sender, 5, DestinationAddress::Direct(ours.copy()));
    assert!(matches!(core.handle_envelope(&e, sender.public_key_bytes(), 10), CoreStep::Deliver(_)));
    core.sweep(10 + FILTER_EXPIRY_SECS - 1);
    assert!(matches!(core.handle_envelope(&e, sender.public_key_bytes(), 11), CoreStep::Duplicate));
    core.sweep(10 + FILTER_EXPIRY_SECS);
    assert!(matches!(core.handle_envelope(&e, sender.public_key_bytes(), 12), CoreStep::Deliver(_)));
}

#[test]
fn target_outside_close_group_gets_parallel_candidates() {
    let owner = addr(0, 0);
    let mut t = RoutingTable::new(&owner);
    for i in 1..=10u8 {
        assert!(t.add(node(i, 0, i as u64)));
    }
    // Nine entries are closer to the owner than addr(10, 0): it is outside the close group.
    let far = addr(10, 0);
    let r = t.target_nodes(&far);
    let firsts: Vec<u8> = r.iter().map(|n| n.address.bytes[0]).collect();
    // XOR distances to 10: itself 0, 8 is 2, 9 is 3, 2 is 8, all others farther.
    assert_eq!(firsts, vec![10, 8, 9, 2]);
    // addr(2, 0) is in the close group: the one hop.
    let near = t.target_nodes(&addr(2, 0));
    assert_eq!(near.len(), 1);
    assert_eq!(near[0].endpoint, 2);
}

#[test]
fn table_refuses_endpoint_in_use() {
    let owner = addr(0, 0);
    let mut t = RoutingTable::new(&owner);
    assert!(t.add(node(0, 1, 7)));
    assert!(!t.add(node(0, 2, 7)));
    assert!(!t.contains(&addr(0, 2)));
    assert_eq!(t.size(), 1);
}

#[test]
fn own_get_opens_under_own_key() {
    let mut n = RoutingNode::new();
    let e = n.get(3, &addr(9, 9));
    assert!(open(&e, n.public_key_bytes()).is_ok());
}
