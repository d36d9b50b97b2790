//! Addresses in the form they are saved to disk in.

use vstd::prelude::*;
use vstd::std_specs::hash::*;

use crate::address_man::{views, AddressMan};
use crate::book::BookView;
use crate::buckets::keys_of;
use crate::clock::unix_seconds;
use crate::local_address::{AddressState, LocalAddress, LocalAddressView};
use crate::net_addr::{AddrV2, AddrV2View, BitcoinSocketAddr, SocketView};
use crate::random::random_below;
use crate::service_flags::ServiceFlags;

verus! {

broadcast use group_hash_axioms;

/// An address without its port, in the form it is saved in.
#[derive(Debug, Clone, Copy, PartialEq, Eq)]
pub enum Address {
    /// Regular ipv4 address
    V4([u8; 4]),
    /// Regular ipv6 address
    V6([u8; 16]),
    /// Tor v2 address, this may never be used, as OnionV2 is deprecated
    /// but we'll keep it here for completeness sake
    OnionV2([u8; 10]),
    /// Tor v3 address. This is the preferred way to connect to a tor node
    OnionV3([u8; 32]),
    /// Cjdns ipv6 address
    Cjdns([u8; 16]),
    /// I2p address, a 32 byte node key
    I2p([u8; 32]),
}

impl Address {
    /// The address that was saved.
    pub open spec fn loaded(self) -> AddrV2 {
        match self {
            Address::V4(ip) => AddrV2::Ipv4(ip),
            Address::V6(ip) => AddrV2::Ipv6(ip),
            Address::OnionV2(key) => AddrV2::TorV2(key),
            Address::OnionV3(key) => AddrV2::TorV3(key),
            Address::Cjdns(ip) => AddrV2::Cjdns(ip),
            Address::I2p(key) => AddrV2::I2p(key),
        }
    }

    /// The form an address is saved in. One on a network we do not know cannot be saved; the
    /// local host stands for it, which is never taken back into the book.
    pub open spec fn saved(addr: AddrV2View) -> Address {
        match addr {
            AddrV2View::Ipv4(ip) => Address::V4(ip),
            AddrV2View::Ipv6(ip) => Address::V6(ip),
            AddrV2View::Cjdns(ip) => Address::Cjdns(ip),
            AddrV2View::I2p(key) => Address::I2p(key),
            AddrV2View::TorV2(key) => Address::OnionV2(key),
            AddrV2View::TorV3(key) => Address::OnionV3(key),
            AddrV2View::Unknown(_, _) => Address::V4([127, 0, 0, 1]),
        }
    }

    /// The form an address is saved in.
    fn save(addr: &AddrV2) -> (r: Address)
        ensures
            r == Address::saved(addr@),
    {
        match addr {
            AddrV2::Ipv4(ip) => Address::V4(*ip),
            AddrV2::Ipv6(ip) => Address::V6(*ip),
            AddrV2::Cjdns(ip) => Address::Cjdns(*ip),
            AddrV2::I2p(key) => Address::I2p(*key),
            AddrV2::TorV2(key) => Address::OnionV2(*key),
            AddrV2::TorV3(key) => Address::OnionV3(*key),
            AddrV2::Unknown(_, _) => Address::V4([127, 0, 0, 1]),
        }
    }
}

impl From<Address> for AddrV2 {
    fn from(value: Address) -> (r: Self) {
        match value {
            Address::V4(ip) => AddrV2::Ipv4(ip),
            Address::V6(ip) => AddrV2::Ipv6(ip),
            Address::I2p(key) => AddrV2::I2p(key),
            Address::Cjdns(ip) => AddrV2::Cjdns(ip),
            Address::OnionV2(key) => AddrV2::TorV2(key),
            Address::OnionV3(key) => AddrV2::TorV3(key),
        }
    }
}

impl vstd::std_specs::convert::FromSpecImpl<Address> for AddrV2 {
    open spec fn obeys_from_spec() -> bool {
        true
    }

    open spec fn from_spec(value: Address) -> AddrV2 {
        value.loaded()
    }
}

/// What is saved of an address.
#[derive(Debug, Clone, Copy, PartialEq, Eq)]
pub struct DiskLocalAddress {
    /// An actual address
    pub address: Address,
    /// Last time we successfully connected to this peer, only relevant once it was tried
    pub last_connected: u64,
    /// Our local state for this peer, as defined in AddressState
    pub state: AddressState,
    /// Network services announced by this peer
    pub services: u64,
    /// Network port this peers listens to
    pub port: u16,
    /// An id to identify this address
    pub id: Option<usize>,
}

impl DiskLocalAddress {
    /// What is saved of an address at `now`: all of it, but that a connection is over by the
    /// time it is read again.
    pub open spec fn saved(address: LocalAddressView, now: u64) -> DiskLocalAddress {
        DiskLocalAddress {
            address: Address::saved(address.address.addr),
            last_connected: address.last_connected,
            state: if address.state is Connected {
                AddressState::Tried(now)
            } else {
                address.state
            },
            services: address.services.0,
            port: address.address.port,
            id: Some(address.id),
        }
    }

    /// The address that was saved, under an id.
    pub open spec fn loaded(self, id: usize) -> LocalAddressView {
        LocalAddressView {
            address: SocketView { addr: self.address.loaded()@, port: self.port },
            last_connected: self.last_connected,
            state: self.state,
            services: ServiceFlags(self.services),
            id,
        }
    }

    /// Whether `address` is what was saved: under the id it was saved with, or any other if
    /// it was saved without.
    pub open spec fn loads_as(self, address: LocalAddressView) -> bool {
        address == self.loaded(
            match self.id {
                Some(id) => id,
                None => address.id,
            },
        )
    }

    /// What is saved of an address at `now`.
    pub fn save(value: &LocalAddress, now: u64) -> (r: DiskLocalAddress)
        ensures
            r == DiskLocalAddress::saved(value@, now),
    {
        DiskLocalAddress {
            address: Address::save(value.as_addrv2()),
            last_connected: value.last_connected,
            state: if value.state == AddressState::Connected {
                AddressState::Tried(now)
            } else {
                value.state
            },
            services: value.services.0,
            port: value.get_port(),
            id: Some(value.id),
        }
    }

    /// The address that was saved, under `fresh_id` if it was saved without an id.
    pub fn load(self, fresh_id: usize) -> (r: LocalAddress)
        ensures
            r@ == self.loaded(
                match self.id {
                    Some(id) => id,
                    None => fresh_id,
                },
            ),
    {
        LocalAddress::new(
            BitcoinSocketAddr::new(AddrV2::from(self.address), self.port),
            self.last_connected,
            self.state,
            ServiceFlags(self.services),
            self.id.unwrap_or(fresh_id),
        )
    }
}

impl From<LocalAddress> for DiskLocalAddress {
    /// What is saved of an address; the clock tells when a connection was last up.
    fn from(value: LocalAddress) -> (r: Self)
        ensures
            exists|now: u64| r == #[trigger] DiskLocalAddress::saved(value@, now),
    {
        let now: u64 = unix_seconds();
        DiskLocalAddress::save(&value, now)
    }
}

impl vstd::std_specs::convert::FromSpecImpl<LocalAddress> for DiskLocalAddress {
    open spec fn obeys_from_spec() -> bool {
        false
    }

    open spec fn from_spec(value: LocalAddress) -> DiskLocalAddress {
        arbitrary()
    }
}

impl From<DiskLocalAddress> for LocalAddress {
    /// The address that was saved; one that was saved without an id gets a random one.
    fn from(value: DiskLocalAddress) -> (r: Self)
        ensures
            value.loads_as(r@),
    {
        let fresh_id: usize = match value.id {
            Some(id) => id,
            None => random_below(usize::MAX),
        };
        value.load(fresh_id)
    }
}

impl vstd::std_specs::convert::FromSpecImpl<DiskLocalAddress> for LocalAddress {
    open spec fn obeys_from_spec() -> bool {
        false
    }

    open spec fn from_spec(value: DiskLocalAddress) -> LocalAddress {
        arbitrary()
    }
}

/// Whether these are the addresses that were saved, in their order.
pub open spec fn all_load_as(
    saved: Seq<DiskLocalAddress>,
    addresses: Seq<LocalAddressView>,
) -> bool {
    &&& saved.len() == addresses.len()
    &&& forall|i: int| 0 <= i < saved.len() ==> (#[trigger] saved[i]).loads_as(addresses[i])
}

/// The addresses that were saved, in their order.
pub fn load_all(saved: &Vec<DiskLocalAddress>) -> (r: Vec<LocalAddress>)
    ensures
        all_load_as(saved@, views(r@)),
{
    let mut addresses: Vec<LocalAddress> = Vec::new();
    let mut i: usize = 0;
    while i < saved.len()
        invariant
            i <= saved@.len(),
            addresses@.len() == i,
            forall|j: int| 0 <= j < i ==> (#[trigger] saved@[j]).loads_as(addresses@[j]@),
        decreases saved@.len() - i,
    {
        addresses.push(LocalAddress::from(saved[i]));
        i = i + 1;
    }
    addresses
}

/// The chains a node may follow.
#[derive(Debug, Clone, Copy, PartialEq, Eq, Structural)]
pub enum Network {
    Bitcoin,
    Testnet,
    Testnet4,
    Signet,
    Regtest,
}

impl BookView {
    /// Whether this is all that is saved of the book at `now`: every address once, in any order.
    pub open spec fn saved_as(self, saved: Seq<DiskLocalAddress>, now: u64) -> bool {
        exists|ids: Seq<usize>|
            {
                &&& #[trigger] ids.no_duplicates()
                &&& ids.to_set() == self.addresses.dom()
                &&& saved == ids.map_values(
                    |id: usize| DiskLocalAddress::saved(self.addresses[id], now),
                )
            }
    }

    /// Whether this is all that is saved of the book, whatever the time.
    pub open spec fn saved_whole(self, saved: Seq<DiskLocalAddress>) -> bool {
        exists|now: u64| #[trigger] self.saved_as(saved, now)
    }
}

impl AddressMan {
    /// What there is to save of the whole book.
    pub fn dump_peers(&self) -> (r: Vec<DiskLocalAddress>)
        ensures
            self@.saved_whole(r@),
    {
        let now: u64 = unix_seconds();
        self.dump_peers_at(now)
    }

    /// What there is to save of the whole book at `now`.
    pub fn dump_peers_at(&self, now: u64) -> (r: Vec<DiskLocalAddress>)
        ensures
            self@.saved_as(r@, now),
    {
        let ids = keys_of(&self.addresses);
        assert(self@.addresses.dom() =~= self.addresses@.dom());
        let ghost saved = |id: usize| DiskLocalAddress::saved(self@.addresses[id], now);
        let mut peers: Vec<DiskLocalAddress> = Vec::new();
        let mut i: usize = 0;
        while i < ids.len()
            invariant
                i <= ids@.len(),
                ids@.to_set() == self@.addresses.dom(),
                saved == (|id: usize| DiskLocalAddress::saved(self@.addresses[id], now)),
                peers@ == ids@.take(i as int).map_values(saved),
            decreases ids@.len() - i,
        {
            assert(ids@.to_set().contains(ids@[i as int]));
            if let Some(address) = self.get(ids[i]) {
                peers.push(DiskLocalAddress::save(address, now));
            }
            assert(peers@ =~= ids@.take(i + 1).map_values(saved));
            i = i + 1;
        }
        assert(ids@.take(i as int) =~= ids@);
        peers
    }

    /// What there is to save of the utreexo peers we are connected to, given as the ids of their
    /// addresses. Ids that are not known are left out. If we can't resolve any of them there is
    /// nothing to save, and we keep the anchors already on disk: overwriting them with an empty
    /// list would leave us with nothing to reconnect to on our next startup.
    pub fn dump_utreexo_peers(&self, peers_id: &Vec<usize>) -> (r: Option<Vec<DiskLocalAddress>>)
        ensures
            match r {
                Some(saved) => self@.resolved(peers_id@).len() > 0 && exists|now: u64|
                    saved@ == #[trigger] self@.anchors(peers_id@, now),
                None => self@.resolved(peers_id@).len() == 0,
            },
    {
        let now: u64 = unix_seconds();
        self.dump_utreexo_peers_at(peers_id, now)
    }

    /// What there is to save of the utreexo peers we are connected to at `now`.
    pub fn dump_utreexo_peers_at(&self, peers_id: &Vec<usize>, now: u64) -> (r: Option<
        Vec<DiskLocalAddress>,
    >)
        ensures
            match r {
                Some(saved) => self@.resolved(peers_id@).len() > 0 && saved@ == self@.anchors(
                    peers_id@,
                    now,
                ),
                None => self@.resolved(peers_id@).len() == 0,
            },
    {
        let found = self.resolve(peers_id);
        assert(views(found@).len() == found@.len());
        if found.is_empty() {
            return None;
        }
        let mut saved: Vec<DiskLocalAddress> = Vec::new();
        let mut i: usize = 0;
        while i < found.len()
            invariant
                i <= found@.len(),
                saved@.len() == i,
                forall|j: int|
                    0 <= j < i ==> #[trigger] saved@[j] == DiskLocalAddress::saved(
                        views(found@)[j],
                        now,
                    ),
            decreases found@.len() - i,
        {
            saved.push(DiskLocalAddress::save(&found[i], now));
            i = i + 1;
        }
        assert(saved@ =~= self@.anchors(peers_id@, now));
        Some(saved)
    }

    /// Takes what was saved into the book, and gives back the anchors that were saved. Either
    /// is missing when it could not be read.
    pub fn start_addr_man(
        &mut self,
        peers: Option<Vec<DiskLocalAddress>>,
        anchors: Option<Vec<DiskLocalAddress>>,
    ) -> (r: Vec<LocalAddress>)
        ensures
            match peers {
                Some(saved) => old(self)@.loaded_to(saved@, final(self)@),
                None => final(self)@ == old(self)@,
            },
            match anchors {
                Some(saved) => all_load_as(saved@, views(r@)),
                None => r@.len() == 0,
            },
    {
        if let Some(saved) = peers {
            self.add_fixed_addresses(&saved);
        }
        match anchors {
            Some(saved) => load_all(&saved),
            None => Vec::new(),
        }
    }

    /// Returns the file path to the seeds file for the given network
    pub fn get_net_seeds(network: Network) -> (r: &'static str)
        ensures
            r@ == (match network {
                Network::Bitcoin => "seeds/mainnet_seeds.json"@,
                Network::Signet => "seeds/signet_seeds.json"@,
                Network::Testnet => "seeds/testnet_seeds.json"@,
                Network::Testnet4 => "seeds/testnet4_seeds.json"@,
                Network::Regtest => "seeds/regtest_seeds.json"@,
            }),
    {
        match network {
            Network::Bitcoin => "seeds/mainnet_seeds.json",
            Network::Signet => "seeds/signet_seeds.json",
            Network::Testnet => "seeds/testnet_seeds.json",
            Network::Testnet4 => "seeds/testnet4_seeds.json",
            Network::Regtest => "seeds/regtest_seeds.json",
        }
    }

    /// Adds the addresses of a seeds file to the address manager
    ///
    /// This is a last-resort method to try to connect to a peer, if we don't have any other
    /// addresses to connect to.
    pub fn add_fixed_addresses(&mut self, seeds: &Vec<DiskLocalAddress>)
        ensures
            old(self)@.loaded_to(seeds@, final(self)@),
    {
        let peers = load_all(seeds);
        self.push_addresses(peers.as_slice());
    }
}

impl BookView {
    /// What is saved of the addresses behind some ids at `now`.
    pub open spec fn anchors(self, ids: Seq<usize>, now: u64) -> Seq<DiskLocalAddress> {
        self.resolved(ids).map_values(
            |address: LocalAddressView| DiskLocalAddress::saved(address, now),
        )
    }

    /// Whether `after` is this book once the addresses that were saved were offered to it.
    pub open spec fn loaded_to(self, saved: Seq<DiskLocalAddress>, after: BookView) -> bool {
        exists|addresses: Seq<LocalAddressView>| #[trigger]
            all_load_as(saved, addresses) && self.pushed_all(addresses).pruned_to(after)
    }
}

} // verus!
