//! A userspace layer-3 packet fabric: packet buffers and their pool, the
//! single-producer/single-consumer rings that carry buffers between the
//! engine, the packetiser and network functions, the ARP/ICMP responder,
//! the engine's receive and transmit steps, and the shared-memory element
//! rings with their control messages.
//!
//! Every function here is verified against its contract. Network cards,
//! sockets and signals are left to the program that links this library: it
//! hands over what it received and carries out what the library decides.

pub mod engine;
pub mod error;
pub mod ipc;
pub mod ipc_queue;
pub mod mbuf;
pub mod memenpsf;
pub mod mempool;
pub mod memring;
pub mod net;
pub mod packetiser;
pub mod port;
pub mod process;
pub mod queues;
pub mod registry;
pub mod routing;
pub mod server;
