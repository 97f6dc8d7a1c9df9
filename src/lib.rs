//! A peer of a structured overlay network in a 512-bit address space under the XOR distance:
//! the routing table of the peers closest to a node, the signed message envelope and its wire
//! form, the filter that drops messages already handled, the accumulator that settles an
//! outcome once a quorum of distinct signers agrees, the map of relayed peers that have no
//! address yet, and the state machine that takes a new node to its network-assigned address.
pub mod accumulator;
pub mod action;
pub mod address;
pub mod codec;
pub mod crypto;
pub mod envelope;
pub mod filter;
pub mod message;
pub mod relay;
pub mod routing_core;
pub mod routing_node;
pub mod routing_table;
