//! The L2 switch: Ethernet frames, the MAC learning table, the forwarding
//! engine, and the gateway of each network.

pub mod engine;
pub mod frame;
pub mod gateway;
pub mod mac_table;
