//! A rootless userspace network for the VMs of one host: networks with
//! addresses that are bound to MAC addresses, an L2 switch between the VMs'
//! ports, DHCP and DNS on each network's gateway, a WAN process for each VM,
//! and a control plane that is asked over JSON-RPC.
//!
//! The library takes the decisions. It opens no socket, starts no process and
//! writes no file: what has to be done is handed out as data, and what came of
//! it is handed back.
//!
//! - [`text`], [`bytes`], [`names`], [`net`] and [`json`] are the ground:
//!   characters and numbers, maps by name, addresses, and JSON values.
//! - [`model`] and [`ipam`] are networks, ports, published forwards and the
//!   bindings of addresses; [`state`] is what is kept of them.
//! - [`switch`] and [`packet`] are the frames: the MAC table, forwarding, the
//!   gateway, and the headers of what the gateway sends.
//! - [`dhcp`], [`dns`] and [`passt`] are the services and the WAN.
//! - [`protocol`], [`params`], [`server`] and [`memory`] are the control plane,
//!   and one that lives in memory only.
//! - [`dataplane`] is the control plane of live ports, and [`vhost`] has the
//!   rules of their virtqueues.
//! - [`config`] is the daemon's configuration.
//!
//! What holds across functions is stated by the functions named `law_..`, in the
//! module they are about, in [`memory_laws`], and in the modules of laws of
//! [`dataplane`].

pub mod bytes;
pub mod config;
pub mod dataplane;
pub mod dhcp;
pub mod dns;
pub mod ipam;
pub mod json;
pub mod memory;
pub mod memory_laws;
pub mod model;
pub mod names;
pub mod net;
pub mod packet;
pub mod params;
pub mod passt;
pub mod protocol;
pub mod server;
pub mod state;
pub mod switch;
pub mod text;
pub mod vhost;
