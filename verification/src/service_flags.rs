//! Service bits that peers announce.

use vstd::prelude::*;

verus! {

/// No service at all; every peer offers it, so it stands for "any peer".
pub const NONE: u64 = 0;

/// The peer serves the complete block chain.
pub const NETWORK: u64 = 0x1;

/// The peer serves blocks and transactions with their witness data.
pub const WITNESS: u64 = 0x8;

/// The peer serves compact block filters.
pub const COMPACT_FILTERS: u64 = 0x40;

/// The peer serves the most recent blocks only.
pub const NETWORK_LIMITED: u64 = 0x400;

/// The peer serves utreexo proofs for recent blocks.
pub const UTREEXO: u64 = 0x1000;

/// The peer serves utreexo proofs for every block.
pub const UTREEXO_ARCHIVE: u64 = 0x2000;

/// The set of services a peer announces, one bit per service.
#[derive(Debug, Clone, Copy, PartialEq, Eq, Structural, Hash)]
pub struct ServiceFlags(pub u64);

impl ServiceFlags {
    /// Whether every bit of `wanted` is set here.
    pub open spec fn includes(self, wanted: ServiceFlags) -> bool {
        self.0 | wanted.0 == self.0
    }

    /// Whether every bit of `flags` is set here.
    pub fn has(self, flags: ServiceFlags) -> (r: bool)
        ensures
            r == self.includes(flags),
    {
        bits_include(self.0, flags.0)
    }

    /// The services a peer must announce to be worth keeping: blocks with their witness
    /// data, at least the recent ones.
    pub open spec fn meets_minimum(self) -> bool {
        self.includes(ServiceFlags(WITNESS)) && self.includes(ServiceFlags(NETWORK_LIMITED))
    }

    /// Whether these are at least the services every kept address must announce.
    pub fn has_minimum(self) -> (r: bool)
        ensures
            r == self.meets_minimum(),
    {
        self.has(ServiceFlags(WITNESS)) && self.has(ServiceFlags(NETWORK_LIMITED))
    }
}

/// Calls `ServiceFlags::has` of the bitcoin crate: true exactly when adding the bits of
/// `wanted` to `bits` changes nothing.
#[verifier::external_body]
fn bits_include(bits: u64, wanted: u64) -> (r: bool)
    ensures
        r == (bits | wanted == bits),
{
    bitcoin::p2p::ServiceFlags::from(bits).has(bitcoin::p2p::ServiceFlags::from(wanted))
}

/// Every peer offers the empty set of services.
pub proof fn any_peer_offers_no_service(flags: ServiceFlags)
    ensures
        flags.includes(ServiceFlags(NONE)),
{
    let bits = flags.0;
    assert(bits | 0 == bits) by (bit_vector);
}

} // verus!
