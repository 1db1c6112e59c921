//! The verified core of the ΦNET overlay network.
//!
//! Handshakes, sessions, hidden-service rendezvous, onion layers, path
//! selection and the decisions a node takes, as plain functions from values
//! to values. Every executable item states what it computes in its contract.

pub mod addr;
pub mod building;
pub mod bytes;
pub mod cells;
pub mod cert;
pub mod channels;
pub mod circuit;
pub mod clock;
pub mod construction;
pub mod credentials;
pub mod crypto;
pub mod descriptor;
pub mod dht;
pub mod directory;
pub mod errors;
pub mod exit;
pub mod fetch;
pub mod fields;
pub mod handshake;
pub mod ids;
pub mod json;
pub mod meeting;
pub mod messages;
pub mod names;
pub mod node;
pub mod ntor;
pub mod onion;
pub mod padding;
pub mod pages;
pub mod path_bias;
pub mod path_select;
pub mod peers;
pub mod pow;
pub mod queues;
pub mod registry;
pub mod relay_desc;
pub mod rendezvous;
pub mod replay;
pub mod rotation;
pub mod session;
pub mod shared_random;
pub mod store;
pub mod stream;
pub mod text;
pub mod timing;
pub mod transport;
pub mod upkeep;
pub mod vanguards;
pub mod visit;
