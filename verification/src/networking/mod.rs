use vstd::prelude::*;

pub mod client;
pub mod config;
pub mod example;
pub mod networking_old;
pub mod networking_wrapping;
pub mod server;
pub mod tcp_buffering;

verus! {

/// The address of a peer on the network, as its IP address (an IPv4
/// address in the low 32 bits when `v6` is false), its port, and for IPv6
/// its flow information and scope.
#[derive(Clone, Copy, Debug, PartialEq, Eq, Structural, Hash)]
pub struct NetAddress {
    pub v6: bool,
    pub ip: u128,
    pub port: u16,
    pub flowinfo: u32,
    pub scope_id: u32,
}

/// The two addresses of a server: one for UDP, one for TCP.
#[derive(Clone, Copy, Debug, PartialEq, Eq, Structural)]
pub struct AddressPair {
    pub udp: NetAddress,
    pub tcp: NetAddress,
}

/// The transport a message travels over.
#[derive(Clone, Copy, Debug, PartialEq, Eq, Structural)]
pub enum Protocol {
    TCP,
    UDP,
}

} // verus!
