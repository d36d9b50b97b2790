//! Addresses of peers on the networks a node may talk over.

use vstd::prelude::*;

use crate::bytes::{copy_bytes, same_array, same_bytes};
use crate::service_flags::ServiceFlags;

verus! {

/// Where a peer can be found, without its port.
#[derive(Debug, PartialEq, Eq)]
pub enum AddrV2 {
    /// An IPv4 address.
    Ipv4([u8; 4]),
    /// An IPv6 address.
    Ipv6([u8; 16]),
    /// A Tor v2 onion service.
    TorV2([u8; 10]),
    /// A Tor v3 onion service.
    TorV3([u8; 32]),
    /// An I2P destination.
    I2p([u8; 32]),
    /// A CJDNS address.
    Cjdns([u8; 16]),
    /// An address on a network this node does not know, with the network's number.
    Unknown(u8, Vec<u8>),
}

/// What an [`AddrV2`] says.
pub enum AddrV2View {
    Ipv4([u8; 4]),
    Ipv6([u8; 16]),
    TorV2([u8; 10]),
    TorV3([u8; 32]),
    I2p([u8; 32]),
    Cjdns([u8; 16]),
    Unknown(u8, Seq<u8>),
}

impl View for AddrV2 {
    type V = AddrV2View;

    open spec fn view(&self) -> AddrV2View {
        match *self {
            AddrV2::Ipv4(ip) => AddrV2View::Ipv4(ip),
            AddrV2::Ipv6(ip) => AddrV2View::Ipv6(ip),
            AddrV2::TorV2(key) => AddrV2View::TorV2(key),
            AddrV2::TorV3(key) => AddrV2View::TorV3(key),
            AddrV2::I2p(key) => AddrV2View::I2p(key),
            AddrV2::Cjdns(ip) => AddrV2View::Cjdns(ip),
            AddrV2::Unknown(network, bytes) => AddrV2View::Unknown(network, bytes@),
        }
    }
}

impl Clone for AddrV2 {
    fn clone(&self) -> (r: Self)
        ensures
            r@ == self@,
    {
        match self {
            AddrV2::Ipv4(ip) => AddrV2::Ipv4(*ip),
            AddrV2::Ipv6(ip) => AddrV2::Ipv6(*ip),
            AddrV2::TorV2(key) => AddrV2::TorV2(*key),
            AddrV2::TorV3(key) => AddrV2::TorV3(*key),
            AddrV2::I2p(key) => AddrV2::I2p(*key),
            AddrV2::Cjdns(ip) => AddrV2::Cjdns(*ip),
            AddrV2::Unknown(network, bytes) => AddrV2::Unknown(*network, copy_bytes(bytes)),
        }
    }
}

impl AddrV2 {
    /// Whether both are the same address.
    pub fn same_as(&self, other: &AddrV2) -> (r: bool)
        ensures
            r == (self@ == other@),
    {
        match (self, other) {
            (AddrV2::Ipv4(a), AddrV2::Ipv4(b)) => same_array(a, b),
            (AddrV2::Ipv6(a), AddrV2::Ipv6(b)) => same_array(a, b),
            (AddrV2::TorV2(a), AddrV2::TorV2(b)) => same_array(a, b),
            (AddrV2::TorV3(a), AddrV2::TorV3(b)) => same_array(a, b),
            (AddrV2::I2p(a), AddrV2::I2p(b)) => same_array(a, b),
            (AddrV2::Cjdns(a), AddrV2::Cjdns(b)) => same_array(a, b),
            (AddrV2::Unknown(n, a), AddrV2::Unknown(m, b)) => *n == *m && same_bytes(a, b),
            _ => false,
        }
    }
}

/// An address together with the port the peer listens on.
#[derive(Debug, PartialEq, Eq)]
pub struct BitcoinSocketAddr {
    /// Where the peer is.
    pub addr: AddrV2,
    /// The port it listens on.
    pub port: u16,
}

/// What a [`BitcoinSocketAddr`] says.
pub struct SocketView {
    pub addr: AddrV2View,
    pub port: u16,
}

impl View for BitcoinSocketAddr {
    type V = SocketView;

    open spec fn view(&self) -> SocketView {
        SocketView { addr: self.addr@, port: self.port }
    }
}

impl Clone for BitcoinSocketAddr {
    fn clone(&self) -> (r: Self)
        ensures
            r@ == self@,
    {
        BitcoinSocketAddr { addr: self.addr.clone(), port: self.port }
    }
}

impl BitcoinSocketAddr {
    /// An address with its port.
    pub fn new(addr: AddrV2, port: u16) -> (r: Self)
        ensures
            r.addr == addr,
            r.port == port,
    {
        BitcoinSocketAddr { addr, port }
    }

    /// The address without its port.
    pub fn as_addrv2(&self) -> (r: &AddrV2)
        ensures
            *r == self.addr,
    {
        &self.addr
    }

    /// The address without its port.
    pub fn into_addrv2(self) -> (r: AddrV2)
        ensures
            r == self.addr,
    {
        self.addr
    }

    /// The port.
    pub fn get_port(&self) -> (r: u16)
        ensures
            r == self.port,
    {
        self.port
    }

    /// Changes the port.
    pub fn set_port(&mut self, port: u16)
        ensures
            final(self).port == port,
            final(self).addr == old(self).addr,
    {
        self.port = port;
    }

    /// Whether both are the same address and port.
    pub fn same_as(&self, other: &BitcoinSocketAddr) -> (r: bool)
        ensures
            r == (self@ == other@),
    {
        self.port == other.port && self.addr.same_as(&other.addr)
    }
}

/// An IP address.
#[derive(Debug, Clone, Copy, PartialEq, Eq)]
pub enum IpAddr {
    /// An IPv4 address.
    V4([u8; 4]),
    /// An IPv6 address.
    V6([u8; 16]),
}

/// An IP address with a port.
#[derive(Debug, Clone, Copy, PartialEq, Eq)]
pub struct SocketAddr {
    /// The IP address.
    pub ip: IpAddr,
    /// The port.
    pub port: u16,
}

/// A Tor v3 onion service, by its public key.
#[derive(Debug, Clone, Copy, PartialEq, Eq)]
pub struct OnionV3Addr(pub [u8; 32]);

/// An address as peers gossip it.
#[derive(Debug, PartialEq, Eq)]
pub struct AddrV2Message {
    /// When the peer was last heard of, in seconds since the Unix epoch.
    pub time: u32,
    /// The services the peer offers.
    pub services: ServiceFlags,
    /// Where the peer is.
    pub addr: AddrV2,
    /// The port it listens on.
    pub port: u16,
}

/// All the networks we might receive addresses for
#[derive(Debug, Clone, Copy, PartialEq, Eq, Structural, Hash)]
pub enum ReachableNetworks {
    IPv4,
    IPv6,
    TorV3,
    I2P,
    Cjdns,
}

impl ReachableNetworks {
    /// All the networks this node is aware of.
    pub const ALL: [ReachableNetworks; 5] = [
        ReachableNetworks::IPv4,
        ReachableNetworks::IPv6,
        ReachableNetworks::TorV3,
        ReachableNetworks::I2P,
        ReachableNetworks::Cjdns,
    ];

    /// The networks this node can connect over.
    pub const SUPPORTED: [ReachableNetworks; 3] = [
        ReachableNetworks::IPv4,
        ReachableNetworks::IPv6,
        ReachableNetworks::TorV3,
    ];

    /// The network's name.
    pub open spec fn name_spec(self) -> Seq<char> {
        match self {
            ReachableNetworks::IPv4 => "ipv4"@,
            ReachableNetworks::IPv6 => "ipv6"@,
            ReachableNetworks::TorV3 => "onion"@,
            ReachableNetworks::I2P => "i2p"@,
            ReachableNetworks::Cjdns => "cjdns"@,
        }
    }

    /// The network's name.
    pub fn name(&self) -> (r: &'static str)
        ensures
            r@ == self.name_spec(),
    {
        match self {
            ReachableNetworks::IPv4 => "ipv4",
            ReachableNetworks::IPv6 => "ipv6",
            ReachableNetworks::TorV3 => "onion",
            ReachableNetworks::I2P => "i2p",
            ReachableNetworks::Cjdns => "cjdns",
        }
    }
}

impl AddrV2View {
    /// Whether there is an IP address for it; there is none where peers are found by a name.
    pub open spec fn has_ip(self) -> bool {
        self is Ipv4 || self is Ipv6 || self is Cjdns
    }

    /// The network the address belongs to, unless it is one that is never connected to.
    pub open spec fn network(self) -> Option<ReachableNetworks> {
        match self {
            AddrV2View::Ipv4(_) => Some(ReachableNetworks::IPv4),
            AddrV2View::Ipv6(_) => Some(ReachableNetworks::IPv6),
            AddrV2View::TorV3(_) => Some(ReachableNetworks::TorV3),
            AddrV2View::I2p(_) => Some(ReachableNetworks::I2P),
            AddrV2View::Cjdns(_) => Some(ReachableNetworks::Cjdns),
            AddrV2View::TorV2(_) => None,
            AddrV2View::Unknown(_, _) => None,
        }
    }
}

impl AddrV2 {
    /// The network the address belongs to, unless it is one that is never connected to.
    pub fn network(&self) -> (r: Option<ReachableNetworks>)
        ensures
            r == self@.network(),
    {
        match self {
            AddrV2::Ipv4(_) => Some(ReachableNetworks::IPv4),
            AddrV2::Ipv6(_) => Some(ReachableNetworks::IPv6),
            AddrV2::TorV3(_) => Some(ReachableNetworks::TorV3),
            AddrV2::I2p(_) => Some(ReachableNetworks::I2P),
            AddrV2::Cjdns(_) => Some(ReachableNetworks::Cjdns),
            AddrV2::TorV2(_) => None,
            AddrV2::Unknown(_, _) => None,
        }
    }
}

} // verus!
