//! What the node keeps about an address it knows.

use vstd::prelude::*;
use vstd::string::StringExecFns;

use crate::clock::unix_seconds;
use crate::net_addr::{
    AddrV2, AddrV2Message, AddrV2View, BitcoinSocketAddr, IpAddr, OnionV3Addr, SocketAddr,
    SocketView,
};
use crate::random::random_u64;
use crate::service_flags::{ServiceFlags, NONE};
use crate::text::{decimal, decimal_text};

verus! {

/// A local state for how we see this peer. It helps us during peer selection,
/// by keeping track of our past encounters with this node (if any),
/// helping us to find live peers more easily, and avoid troublesome peers.
///
/// Times are seconds since the Unix epoch.
#[derive(Debug, Clone, Copy, PartialEq, Eq, Structural)]
pub enum AddressState {
    /// We never tried this peer before, so we don't know what to expect. This variant
    /// also applies to peers that we tried to connect, but failed or we didn't connect
    /// to for a long time.
    NeverTried,
    /// We tried this peer before, and had success at least once, so we know what to expect
    Tried(u64),
    /// This peer misbehaved and is banned until the time given
    Banned(u64),
    /// We are connected to this peer right now
    Connected,
    /// We tried connecting at the time given, but failed
    Failed(u64),
}

/// How do we store peers locally
#[derive(Debug, PartialEq)]
pub struct LocalAddress {
    /// An actual address
    pub address: BitcoinSocketAddr,
    /// Last time we successfully connected to this peer, only relevant once it was tried
    pub last_connected: u64,
    /// Our local state for this peer, as defined in AddressState
    pub state: AddressState,
    /// Network services announced by this peer
    pub services: ServiceFlags,
    /// Random id for this peer
    pub id: usize,
}

/// What a [`LocalAddress`] says.
pub struct LocalAddressView {
    pub address: SocketView,
    pub last_connected: u64,
    pub state: AddressState,
    pub services: ServiceFlags,
    pub id: usize,
}

impl View for LocalAddress {
    type V = LocalAddressView;

    open spec fn view(&self) -> LocalAddressView {
        LocalAddressView {
            address: self.address@,
            last_connected: self.last_connected,
            state: self.state,
            services: self.services,
            id: self.id,
        }
    }
}

impl Clone for LocalAddress {
    fn clone(&self) -> (r: Self)
        ensures
            r@ == self@,
    {
        LocalAddress {
            address: self.address.clone(),
            last_connected: self.last_connected,
            state: self.state,
            services: self.services,
            id: self.id,
        }
    }
}

/// Whether `octets` lies in the block of addresses that share their first `bits` bits with
/// `base`.
pub open spec fn in_block(octets: Seq<u8>, base: Seq<u8>, bits: int) -> bool {
    &&& forall|i: int| 0 <= i < bits / 8 ==> octets[i] == base[i]
    &&& bits % 8 != 0 ==> octets[bits / 8] as int / block_span(bits % 8) == base[bits / 8] as int
        / block_span(bits % 8)
}

/// How many values a byte may take once its first `bits` bits are fixed.
pub open spec fn block_span(bits: int) -> int {
    if bits == 1 {
        128
    } else if bits == 2 {
        64
    } else if bits == 3 {
        32
    } else if bits == 4 {
        16
    } else if bits == 5 {
        8
    } else if bits == 6 {
        4
    } else {
        2
    }
}

/// Whether an IPv4 address can be reached over the public internet: it is outside every block
/// set aside for local use, for benchmarks or for documentation.
pub open spec fn routable_ipv4(ip: [u8; 4]) -> bool {
    // "This" network
    &&& !in_block(ip@, seq![0u8, 0, 0, 0], 8)
    // Loopback
    &&& !in_block(ip@, seq![127u8, 0, 0, 0], 8)
    // Broadcast
    &&& !in_block(ip@, seq![255u8, 255, 255, 255], 32)
    // Private
    &&& !in_block(ip@, seq![10u8, 0, 0, 0], 8)
    &&& !in_block(ip@, seq![172u8, 16, 0, 0], 12)
    &&& !in_block(ip@, seq![192u8, 168, 0, 0], 16)
    // Benchmarking
    &&& !in_block(ip@, seq![198u8, 18, 0, 0], 15)
    // Link-local
    &&& !in_block(ip@, seq![169u8, 254, 0, 0], 16)
    // Shared address space
    &&& !in_block(ip@, seq![100u8, 64, 0, 0], 10)
    // Documentation
    &&& !in_block(ip@, seq![192u8, 0, 2, 0], 24)
    &&& !in_block(ip@, seq![198u8, 51, 100, 0], 24)
    &&& !in_block(ip@, seq![203u8, 0, 113, 0], 24)
}

/// Whether an IPv6 address can be reached over the public internet.
pub open spec fn routable_ipv6(ip: [u8; 16]) -> bool {
    // Unspecified
    &&& !in_block(ip@, seq![0u8, 0, 0, 0, 0, 0, 0, 0, 0, 0, 0, 0, 0, 0, 0, 0], 128)
    // Loopback
    &&& !in_block(ip@, seq![0u8, 0, 0, 0, 0, 0, 0, 0, 0, 0, 0, 0, 0, 0, 0, 1], 128)
    // Unique local
    &&& !in_block(ip@, seq![0xfcu8, 0, 0, 0, 0, 0, 0, 0, 0, 0, 0, 0, 0, 0, 0, 0], 7)
    // ORCHID
    &&& !in_block(ip@, seq![0x20u8, 0x01, 0x00, 0x10, 0, 0, 0, 0, 0, 0, 0, 0, 0, 0, 0, 0], 28)
    // Link-local
    &&& !in_block(ip@, seq![0xfeu8, 0x80, 0, 0, 0, 0, 0, 0, 0, 0, 0, 0, 0, 0, 0, 0], 10)
    // ORCHIDv2
    &&& !in_block(ip@, seq![0x20u8, 0x01, 0x00, 0x20, 0, 0, 0, 0, 0, 0, 0, 0, 0, 0, 0, 0], 28)
}

/// Whether an address can be reached from our node at all.
pub open spec fn routable(addr: AddrV2View) -> bool {
    match addr {
        AddrV2View::Ipv4(ip) => routable_ipv4(ip),
        AddrV2View::Ipv6(ip) => routable_ipv6(ip),
        AddrV2View::Cjdns(ip) => ip@[0] == 0xfc,
        _ => true,
    }
}

impl LocalAddressView {
    /// Whether the address is good to connect to: it can be reached, and the peer behind it
    /// has answered before.
    pub open spec fn good(self) -> bool {
        routable(self.address.addr) && (self.state is Connected || self.state is Tried)
    }
}

/// Whether the first bytes of an address are these four, apart from the low bits of the last
/// one, which are left out of both.
fn starts_with(ip: &[u8; 16], a: u8, b: u8, c: u8, high: u8) -> (r: bool)
    ensures
        r == (ip@[0] == a && ip@[1] == b && ip@[2] == c && ip@[3] / 16 == high / 16),
{
    ip[0] == a && ip[1] == b && ip[2] == c && ip[3] / 16 == high / 16
}

impl LocalAddress {
    /// An address with all that is known of it.
    pub fn new(
        address: BitcoinSocketAddr,
        last_connected: u64,
        state: AddressState,
        services: ServiceFlags,
        id: usize,
    ) -> (r: Self)
        ensures
            r == (LocalAddress { address, last_connected, state, services, id }),
    {
        LocalAddress { address, last_connected, state, services, id }
    }

    /// The address and port.
    pub fn as_bitcoin_socket_addr(&self) -> (r: &BitcoinSocketAddr)
        ensures
            *r == self.address,
    {
        &self.address
    }

    /// The port.
    pub fn get_port(&self) -> (r: u16)
        ensures
            r == self.address.port,
    {
        self.address.get_port()
    }

    /// Changes the port, and nothing else.
    pub fn set_port(&mut self, port: u16)
        ensures
            *final(self) == (LocalAddress {
                address: BitcoinSocketAddr { addr: old(self).address.addr, port },
                ..*old(self)
            }),
    {
        self.address.set_port(port);
    }

    /// The services the peer announced.
    pub fn get_services(&self) -> (r: ServiceFlags)
        ensures
            r == self.services,
    {
        self.services
    }

    /// Changes the services, and nothing else.
    pub fn set_services(&mut self, services: ServiceFlags)
        ensures
            *final(self) == (LocalAddress { services, ..*old(self) }),
    {
        self.services = services;
    }

    /// The IP address and port, for an address on one of the two IP networks.
    pub fn get_socket_addr(&self) -> (r: Option<SocketAddr>)
        ensures
            match self.address.addr {
                AddrV2::Ipv4(ip) => r == Some(
                    SocketAddr { ip: IpAddr::V4(ip), port: self.address.port },
                ),
                AddrV2::Ipv6(ip) => r == Some(
                    SocketAddr { ip: IpAddr::V6(ip), port: self.address.port },
                ),
                _ => r is None,
            },
    {
        let ip = match self.as_addrv2() {
            AddrV2::Ipv6(ipv6) => IpAddr::V6(*ipv6),
            AddrV2::Ipv4(ipv4) => IpAddr::V4(*ipv4),
            _ => {
                return None;
            },
        };
        Some(SocketAddr { ip, port: self.get_port() })
    }

    /// The onion service, for a Tor v3 address.
    pub fn get_onion_addr(&self) -> (r: Option<OnionV3Addr>)
        ensures
            match self.address.addr {
                AddrV2::TorV3(key) => r == Some(OnionV3Addr(key)),
                _ => r is None,
            },
    {
        if let AddrV2::TorV3(key) = self.as_addrv2() {
            return Some(OnionV3Addr(*key));
        }
        None
    }

    /// The IP address behind this peer address, if any; there is none for networks that name
    /// their nodes, such as Tor and I2P.
    pub fn get_net_address(&self) -> (r: Option<IpAddr>)
        ensures
            match self.address.addr {
                AddrV2::Ipv4(ip) => r == Some(IpAddr::V4(ip)),
                AddrV2::Ipv6(ip) => r == Some(IpAddr::V6(ip)),
                AddrV2::Cjdns(ip) => r == Some(IpAddr::V6(ip)),
                _ => r is None,
            },
    {
        match self.as_addrv2() {
            AddrV2::Ipv4(ip) => Some(IpAddr::V4(*ip)),
            AddrV2::Ipv6(ip) => Some(IpAddr::V6(*ip)),
            AddrV2::Cjdns(ip) => Some(IpAddr::V6(*ip)),
            _ => None,
        }
    }

    /// The address without its port.
    pub fn as_addrv2(&self) -> (r: &AddrV2)
        ensures
            *r == self.address.addr,
    {
        self.address.as_addrv2()
    }

    /// The address without its port.
    pub fn into_addrv2(self) -> (r: AddrV2)
        ensures
            r == self.address.addr,
    {
        self.address.into_addrv2()
    }

    /// How the address is shown: the text of its IP address, or `unknown` where it has none,
    /// then the port.
    pub fn label(&self, ip_text: String) -> (r: String)
        ensures
            r@ == (if self@.address.addr.has_ip() {
                ip_text@
            } else {
                "unknown"@
            }) + ":"@ + decimal(self.address.port as nat),
    {
        let mut text = if self.get_net_address().is_some() {
            ip_text
        } else {
            String::from_str("unknown")
        };
        text.append(":");
        text.append(decimal_text(self.get_port() as u64).as_str());
        text
    }

    /// Return whether the address can be reached from our node
    ///
    /// Some addresses are not reachable from the global internet, those include
    /// documentation, reserved and private ranges. Since we can't connect with them, there's
    /// no point in keeping them.
    pub fn is_routable(&self) -> (r: bool)
        ensures
            r == routable(self@.address.addr),
    {
        match self.as_addrv2() {
            AddrV2::Ipv4(ip) => Self::is_routable_ipv4(ip),
            AddrV2::Ipv6(ip) => Self::is_routable_ipv6(ip),
            AddrV2::Cjdns(ip) => ip[0] == 0xfc,
            _ => true,
        }
    }

    /// Returns whether an ipv4 address is publicly routable
    pub fn is_routable_ipv4(ip: &[u8; 4]) -> (r: bool)
        ensures
            r == routable_ipv4(*ip),
    {
        let (a, b, c, d): (u8, u8, u8, u8) = (ip[0], ip[1], ip[2], ip[3]);

        // "This" network, loopback, broadcast
        if a == 0 || a == 127 || (a == 255 && b == 255 && c == 255 && d == 255) {
            return false;
        }
        // Private
        if a == 10 || (a == 172 && 16 <= b && b <= 31) || (a == 192 && b == 168) {
            return false;
        }
        // Benchmarking
        if a == 198 && (b == 18 || b == 19) {
            return false;
        }
        // Link-local
        if a == 169 && b == 254 {
            return false;
        }
        // Shared address space
        if a == 100 && 64 <= b && b <= 127 {
            return false;
        }
        // Documentation
        if (a == 192 && b == 0 && c == 2) || (a == 198 && b == 51 && c == 100) || (a == 203 && b
            == 0 && c == 113) {
            return false;
        }
        true
    }

    /// Returns whether an ipv6 address is publicly routable
    pub fn is_routable_ipv6(ip: &[u8; 16]) -> (r: bool)
        ensures
            r == routable_ipv6(*ip),
    {
        // Unspecified, loopback
        let mut i: usize = 0;
        while i < 15 && ip[i] == 0
            invariant
                i <= 15,
                forall|j: int| 0 <= j < i ==> ip@[j] == 0,
            decreases 15 - i,
        {
            i = i + 1;
        }
        if i == 15 && (ip[15] == 0 || ip[15] == 1) {
            return false;
        }
        assert(i < 15 ==> ip@[i as int] != 0);
        // Unique local
        if ip[0] == 0xfc || ip[0] == 0xfd {
            return false;
        }
        // ORCHID
        if starts_with(ip, 0x20, 0x01, 0x00, 0x10) {
            return false;
        }
        // Link-local
        if ip[0] == 0xfe && ip[1] / 64 == 2 {
            return false;
        }
        // ORCHIDv2
        if starts_with(ip, 0x20, 0x01, 0x00, 0x20) {
            return false;
        }
        true
    }

    /// Return whether an address is good to connect to
    pub fn is_good_address(&self) -> (r: bool)
        ensures
            r == self@.good(),
    {
        if !self.is_routable() {
            return false;
        }
        matches!(self.state, AddressState::Connected) || matches!(
            self.state,
            AddressState::Tried(_)
        )
    }
}

impl From<BitcoinSocketAddr> for LocalAddress {
    /// An address we just learned of, with a random id: nothing is known of it yet.
    fn from(value: BitcoinSocketAddr) -> (r: Self)
        ensures
            r.address == value,
            r.state == AddressState::NeverTried,
            r.services == ServiceFlags(NONE),
    {
        LocalAddress::new(
            value,
            unix_seconds(),
            AddressState::NeverTried,
            ServiceFlags(NONE),
            random_u64() as usize,
        )
    }
}

impl vstd::std_specs::convert::FromSpecImpl<BitcoinSocketAddr> for LocalAddress {
    open spec fn obeys_from_spec() -> bool {
        false
    }

    open spec fn from_spec(value: BitcoinSocketAddr) -> LocalAddress {
        arbitrary()
    }
}

impl From<AddrV2Message> for LocalAddress {
    /// An address a peer told us about, with a random id: we never tried it ourselves.
    fn from(value: AddrV2Message) -> (r: Self)
        ensures
            r.address == (BitcoinSocketAddr { addr: value.addr, port: value.port }),
            r.last_connected == value.time,
            r.state == AddressState::NeverTried,
            r.services == value.services,
    {
        LocalAddress::new(
            BitcoinSocketAddr::new(value.addr, value.port),
            value.time as u64,
            AddressState::NeverTried,
            value.services,
            random_u64() as usize,
        )
    }
}

impl vstd::std_specs::convert::FromSpecImpl<AddrV2Message> for LocalAddress {
    open spec fn obeys_from_spec() -> bool {
        false
    }

    open spec fn from_spec(value: AddrV2Message) -> LocalAddress {
        arbitrary()
    }
}

} // verus!
