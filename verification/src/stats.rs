//! How many addresses are known, by network.

use vstd::prelude::*;

use crate::net_addr::ReachableNetworks;

verus! {

/// Per-network address manager statistics.
#[derive(Debug, Default, Clone, Copy, PartialEq, Eq, Structural)]
pub struct NetworkStats {
    /// Number of new (untried) addresses.
    pub new: u64,
    /// Number of tried addresses.
    pub tried: u64,
}

impl NetworkStats {
    /// Number of addresses, new and tried.
    pub fn total(&self) -> (r: u64)
        requires
            self.new + self.tried <= u64::MAX,
        ensures
            r == self.new + self.tried,
    {
        self.new + self.tried
    }
}

/// Address manager statistics broken down by network.
#[derive(Debug, Default, Clone, Copy, PartialEq, Eq, Structural)]
pub struct ConnectionStats {
    pub ipv4: NetworkStats,
    pub ipv6: NetworkStats,
    pub onion: NetworkStats,
    pub i2p: NetworkStats,
    pub cjdns: NetworkStats,
}

impl ConnectionStats {
    /// The statistics of one network.
    pub open spec fn of(self, network: ReachableNetworks) -> NetworkStats {
        match network {
            ReachableNetworks::IPv4 => self.ipv4,
            ReachableNetworks::IPv6 => self.ipv6,
            ReachableNetworks::TorV3 => self.onion,
            ReachableNetworks::I2P => self.i2p,
            ReachableNetworks::Cjdns => self.cjdns,
        }
    }

    /// Counts one more address of a network.
    pub(crate) fn count(&mut self, network: ReachableNetworks, tried: bool)
        requires
            if tried {
                old(self).of(network).tried < u64::MAX
            } else {
                old(self).of(network).new < u64::MAX
            },
        ensures
            final(self).of(network) == (if tried {
                NetworkStats {
                    tried: (old(self).of(network).tried + 1) as u64,
                    ..old(self).of(network)
                }
            } else {
                NetworkStats {
                    new: (old(self).of(network).new + 1) as u64,
                    ..old(self).of(network)
                }
            }),
            forall|other: ReachableNetworks|
                other != network ==> #[trigger] final(self).of(other) == old(self).of(other),
    {
        let counter: &mut NetworkStats = match network {
            ReachableNetworks::IPv4 => &mut self.ipv4,
            ReachableNetworks::IPv6 => &mut self.ipv6,
            ReachableNetworks::TorV3 => &mut self.onion,
            ReachableNetworks::I2P => &mut self.i2p,
            ReachableNetworks::Cjdns => &mut self.cjdns,
        };
        if tried {
            counter.tried = counter.tried + 1;
        } else {
            counter.new = counter.new + 1;
        }
    }
}

} // verus!
