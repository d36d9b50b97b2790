//! Laws of what is learned from DNS seeds.

use vstd::prelude::*;

use crate::dns::{collected, DnsSeed, SEEDED_ANY, SEEDED_FILTERS, SEEDED_UTREEXO};
use crate::dns_proxy::{data_of_type, AnswerEntry};
use crate::local_address::{AddressState, LocalAddressView};
use crate::service_flags::{ServiceFlags, COMPACT_FILTERS, UTREEXO, WITNESS};
use crate::terms::{has_bits, services_are_sets_of_bits};

verus! {

/// What the services are that peers found through a seed are taken to offer.
proof fn lemma_seeded_services()
    ensures
        SEEDED_UTREEXO == 0x1408,
        SEEDED_FILTERS == 0x448,
        SEEDED_ANY == 0x408,
{
    assert(0x400u64 | 0x1000u64 | 0x8u64 == 0x1408u64) by (bit_vector);
    assert(0x40u64 | 0x400u64 | 0x8u64 == 0x448u64) by (bit_vector);
    assert(0x400u64 | 0x8u64 == 0x408u64) by (bit_vector);
}

/// A seed that filters is asked for peers with utreexo proofs, with compact filters and with
/// witness data, each just if it filters by that; one that does not filter is asked for any. Peers
/// found so are taken to serve recent blocks with witness data, and what they were asked for by.
/// Nothing else is looked up.
pub proof fn seeds_are_asked_for_what_they_filter_by(seed: DnsSeed)
    ensures
        ({
            let all = seed.lookups();
            let proofs = ("x1000."@ + seed.seed@, ServiceFlags(0x1408));
            let filters = ("x49."@ + seed.seed@, ServiceFlags(0x448));
            let witnesses = ("x9."@ + seed.seed@, ServiceFlags(0x408));
            let any = (seed.seed@, ServiceFlags(0x408));
            &&& has_bits(seed.filters, 0x1000) ==> all.contains(proofs)
            &&& has_bits(seed.filters, 0x40) ==> all.contains(filters)
            &&& has_bits(seed.filters, 0x8) ==> all.contains(witnesses)
            &&& seed.filters.0 == 0 ==> all == seq![any]
            &&& forall|i: int|
                0 <= i < all.len() ==> {
                    ||| #[trigger] all[i] == proofs && has_bits(seed.filters, 0x1000)
                    ||| all[i] == filters && has_bits(seed.filters, 0x40)
                    ||| all[i] == witnesses && has_bits(seed.filters, 0x8)
                    ||| all[i] == any && seed.filters.0 == 0
                }
            &&& all.len() == (if has_bits(seed.filters, 0x1000) {
                1int
            } else {
                0
            }) + (if has_bits(seed.filters, 0x40) {
                1int
            } else {
                0
            }) + (if has_bits(seed.filters, 0x8) {
                1int
            } else {
                0
            }) + (if seed.filters.0 == 0 {
                1int
            } else {
                0
            })
        }),
{
    lemma_seeded_services();
    services_are_sets_of_bits(seed.filters, UTREEXO, 0);
    services_are_sets_of_bits(seed.filters, COMPACT_FILTERS, 0);
    services_are_sets_of_bits(seed.filters, WITNESS, 0);
    let all = seed.lookups();
    let n = if has_bits(seed.filters, 0x1000) {
        1int
    } else {
        0
    };
    let m = n + if has_bits(seed.filters, 0x40) {
        1int
    } else {
        0
    };
    let k = m + if has_bits(seed.filters, 0x8) {
        1int
    } else {
        0
    };
    if has_bits(seed.filters, 0x1000) {
        assert(all[0] == ("x1000."@ + seed.seed@, ServiceFlags(0x1408)));
    }
    if has_bits(seed.filters, 0x40) {
        assert(all[n] == ("x49."@ + seed.seed@, ServiceFlags(0x448)));
    }
    if has_bits(seed.filters, 0x8) {
        assert(all[m] == ("x9."@ + seed.seed@, ServiceFlags(0x408)));
    }
    if seed.filters.0 == 0 {
        assert(0u64 & 0x1000 == 0 && 0u64 & 0x40 == 0 && 0u64 & 0x8 == 0) by (bit_vector);
        assert(all =~= seq![(seed.seed@, ServiceFlags(0x408))]);
    }
}

/// An address once a seed told of it: it counts as one that was met, with the services that were
/// asked for, and is otherwise as it was found.
pub open spec fn told_by_seed(
    address: LocalAddressView,
    found: LocalAddressView,
    services: ServiceFlags,
    now: u64,
) -> bool {
    &&& address.services == services
    &&& address.state == AddressState::Tried(now)
    &&& address.address == found.address
    &&& address.last_connected == found.last_connected
    &&& address.id == found.id
}

/// How many addresses some lookups found.
pub open spec fn found_by(found: Seq<Seq<LocalAddressView>>, lookups: nat) -> nat
    decreases lookups,
{
    if lookups == 0 {
        0
    } else if lookups <= found.len() {
        found_by(found, (lookups - 1) as nat) + found[lookups - 1].len()
    } else {
        found_by(found, (lookups - 1) as nat)
    }
}

/// All that lookups found is learned of, one lookup after the other and in the order it was found
/// in: each address counts as met and has the services that its lookup was for.
pub proof fn all_that_seeds_tell_is_learned_of(
    lookups: Seq<(Seq<char>, ServiceFlags)>,
    found: Seq<Seq<LocalAddressView>>,
    now: u64,
    k: int,
    j: int,
)
    requires
        0 <= k < lookups.len(),
        k < found.len(),
        0 <= j < found[k].len(),
    ensures
        ({
            let all = collected(lookups, found, now);
            let place = found_by(found, k as nat) + j;
            &&& all.len() == found_by(found, lookups.len())
            &&& place < all.len()
            &&& told_by_seed(all[place], found[k][j], lookups[k].1, now)
        }),
    decreases lookups.len(),
{
    lemma_collected_len(lookups, found, now);
    let rest = lookups.drop_last();
    lemma_collected_len(rest, found, now);
    let all = collected(lookups, found, now);
    if k < rest.len() {
        all_that_seeds_tell_is_learned_of(rest, found, now, k, j);
        assert(all[found_by(found, k as nat) + j] == collected(rest, found, now)[found_by(
            found,
            k as nat,
        ) + j]);
    }
}

/// As many addresses are learned of as were found.
proof fn lemma_collected_len(
    lookups: Seq<(Seq<char>, ServiceFlags)>,
    found: Seq<Seq<LocalAddressView>>,
    now: u64,
)
    ensures
        collected(lookups, found, now).len() == found_by(found, lookups.len()),
    decreases lookups.len(),
{
    if lookups.len() > 0 {
        lemma_collected_len(lookups.drop_last(), found, now);
    }
}

/// Of the answers to a lookup those of the type that was asked for are taken, in their order.
pub proof fn answers_of_the_type_are_taken(answers: Seq<AnswerEntry>, record_type: u8)
    ensures
        data_of_type(answers, record_type) == answers.filter(
            |entry: AnswerEntry| entry.record_type == record_type,
        ).map_values(|entry: AnswerEntry| entry.data@),
    decreases answers.len(),
{
    reveal(Seq::filter);
    let asked_for = |entry: AnswerEntry| entry.record_type == record_type;
    let text = |entry: AnswerEntry| entry.data@;
    if answers.len() == 0 {
        assert(answers.filter(asked_for).map_values(text) =~= Seq::empty());
    } else {
        let rest = answers.drop_last();
        answers_of_the_type_are_taken(rest, record_type);
        if asked_for(answers.last()) {
            assert(answers.filter(asked_for).map_values(text) =~= rest.filter(
                asked_for,
            ).map_values(text).push(answers.last().data@));
        }
    }
}

} // verus!
