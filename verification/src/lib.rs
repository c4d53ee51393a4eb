//! A capability runtime over datagrams: the packet codecs, the capability
//! table, the capability and object model, and the per-node dispatch logic,
//! free of any I/O.
//!
//! A node is a [`service::Service`].  Whoever drives it hands it the
//! datagrams that arrive and sends the packets that it queues.  What a node
//! does is stated over [`model::ServiceView`], and [`laws`] holds what
//! follows for nodes that talk to each other.

pub mod address;
pub mod cap_table;
pub mod capabilities;
pub mod config;
pub mod laws;
pub mod model;
pub mod object;
pub mod packet_types;
pub mod service;
pub mod text;
pub mod wire;
