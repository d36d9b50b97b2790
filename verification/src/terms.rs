//! The plain terms that laws are stated in.

use vstd::prelude::*;

use crate::local_address::AddressState;
use crate::service_flags::{ServiceFlags, NETWORK_LIMITED, WITNESS};

verus! {

/// Whether all of some bits are set in what a peer announces.
pub open spec fn has_bits(services: ServiceFlags, bits: u64) -> bool {
    services.0 & bits == bits
}

/// Whether an id is in the list kept for a service.
pub open spec fn listed<T>(lists: Map<u64, Seq<T>>, service: u64, id: T) -> bool {
    lists.contains_key(service) && lists[service].contains(id)
}

/// Whether a connection was made with an address and is or was in order.
pub open spec fn met(state: AddressState) -> bool {
    state is Tried || state is Connected
}

/// Whether no connection is open, none is forbidden, and none failed in the last ten minutes.
pub open spec fn open_at(state: AddressState, now: u64) -> bool {
    match state {
        AddressState::Connected => false,
        AddressState::Banned(_) => false,
        AddressState::Failed(when) => now > when + 10 * 60,
        AddressState::NeverTried => true,
        AddressState::Tried(_) => true,
    }
}

/// One set of services is among another if each of its bits is set there, and so are two sets
/// if both are.
pub proof fn services_are_sets_of_bits(flags: ServiceFlags, wanted: u64, more: u64)
    ensures
        flags.includes(ServiceFlags(wanted)) <==> has_bits(flags, wanted),
        flags.includes(ServiceFlags(wanted | more)) <==> has_bits(flags, wanted) && has_bits(
            flags,
            more,
        ),
{
    let bits = flags.0;
    assert((bits | wanted == bits) <==> (bits & wanted == wanted)) by (bit_vector);
    assert((bits | (wanted | more) == bits) <==> (bits & wanted == wanted && bits & more == more))
        by (bit_vector);
}

/// The least that a peer must serve is recent blocks, with their witness data.
pub proof fn minimum_is_recent_blocks_with_witnesses(flags: ServiceFlags)
    ensures
        flags.meets_minimum() <==> has_bits(flags, 0x8) && has_bits(flags, 0x400),
{
    services_are_sets_of_bits(flags, WITNESS, 0);
    services_are_sets_of_bits(flags, NETWORK_LIMITED, 0);
}

} // verus!
