//! Decoding of Cepton LiDAR point clouds from packet-capture files.
//!
//! The library decodes a capture container byte-by-byte: the global capture
//! header, the per-packet framing, the fixed Ethernet/IPv4/UDP prefix, the
//! 24-byte sensor packet header, and the per-point records in either the
//! normal or the extended (debug) layout. Points are grouped by the sensor
//! channel that emitted them. All decoding is specified over the raw byte
//! sequence and proved free of panics and out-of-bounds reads.

pub mod cepton;
pub mod laws;
pub mod pcap_reader;
