//! Core logic of the TAIGA mesh network: freedom-aware path-vector routing,
//! needle fragmentation and reassembly, ECIES sealing of onion layers,
//! store-and-forward records and the small wire formats the transports use.

pub mod types;
mod ids;
pub mod routing;
pub mod resin;
pub mod crypto;
pub mod bytes;
pub mod dtn;
pub mod framing;
pub mod peers;
pub mod mycelium;
pub mod node;
pub mod ui;
pub mod jni_bridge;
pub mod socks5;
