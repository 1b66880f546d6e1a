//! Addresses, the layout of frames on the wire, and checksums.

pub mod checksum;
pub mod ipv4hdr;
pub mod mac;
pub mod wire;
