//! Laws of what comes of what peers tell us, and of what our user asks for.

use vstd::prelude::*;

use crate::admission_laws::{
    addresses_of_use_are_taken, each_address_of_use_is_taken, is_new_to, of_use_first,
    on_reachable_network, pruning_keeps_the_latest, what_is_taken_was_offered,
};
use crate::book::BookView;
use crate::book_laws::pushing_all_keeps_soundness;
use crate::chain_data::{encoded_block_hash, encoded_txid, CFHeaders, Inventory, Transaction, Txid};
use crate::local_address::{routable, AddressState, LocalAddressView};
use crate::net_addr::{AddrV2Message, SocketView};
use crate::node::inbox::{answers, common_message, heard_as};
use crate::node::messages::{
    InflightRequests, NodeResponse, PeerMessages, RequestView, UserRequest, WireError,
};
use crate::node::peer::{ConnectionKind, PeerStatus};
use crate::node::requests_of_user::{fresh, BARE_MINIMUM};
use crate::node::state::NodeView;
use crate::service_flags::ServiceFlags;

verus! {

/// What comes of an answer for our user: whoever waits for it gets it, once, and nobody waits for
/// it any more. Where nobody listens it fails; where nobody asked nothing happens.
pub open spec fn user_got(
    node: NodeView,
    request: UserRequest,
    response: NodeResponse,
    after: NodeView,
    result: Result<(), WireError>,
) -> bool {
    if !node.inflight_user_requests.contains_key(request) {
        after == node && result is Ok
    } else {
        let waiting = node.inflight_user_requests[request];
        &&& after == NodeView {
            inflight_user_requests: node.inflight_user_requests.remove(request),
            responses: if waiting.listening {
                node.responses.push((waiting.responder, response))
            } else {
                node.responses
            },
            ..node
        }
        &&& result == if waiting.listening {
            Ok::<(), WireError>(())
        } else {
            Err(WireError::ResponseSendError)
        }
    }
}

/// Whoever waits for an answer gets it, once, and nobody waits for it any more.
pub proof fn answers_reach_whoever_waits(
    node: NodeView,
    request: UserRequest,
    response: NodeResponse,
)
    ensures
        ({
            let (after, result) = node.answered(request, response);
            user_got(node, request, response, after, result)
        }),
{
}

/// What a peer does not have is answered with nothing: a block however it was asked for, and a
/// transaction however it was asked for. Anything else that is missing is nobody's concern.
pub proof fn missing_things_are_answered_by_what_they_are(node: NodeView, inv: Inventory)
    ensures
        ({
            let (after, result) = node.missed(inv);
            match inv {
                Inventory::Block(hash) => user_got(
                    node,
                    UserRequest::Block(hash),
                    NodeResponse::Block(None),
                    after,
                    result,
                ),
                Inventory::WitnessBlock(hash) => user_got(
                    node,
                    UserRequest::Block(hash),
                    NodeResponse::Block(None),
                    after,
                    result,
                ),
                Inventory::CompactBlock(hash) => user_got(
                    node,
                    UserRequest::Block(hash),
                    NodeResponse::Block(None),
                    after,
                    result,
                ),
                Inventory::Transaction(txid) => user_got(
                    node,
                    UserRequest::MempoolTransaction(txid),
                    NodeResponse::MempoolTransaction(None),
                    after,
                    result,
                ),
                Inventory::WitnessTransaction(txid) => user_got(
                    node,
                    UserRequest::MempoolTransaction(txid),
                    NodeResponse::MempoolTransaction(None),
                    after,
                    result,
                ),
                _ => after == node && result is Ok,
            }
        }),
{
}

/// A transaction goes to whoever waits for the one with its id, whole.
pub proof fn transactions_go_to_whoever_waits(
    node: NodeView,
    tx: Transaction,
    after: NodeView,
    result: Result<(), WireError>,
)
    requires
        node.tx_taken(tx, after, result),
    ensures
        exists|txid: Txid|
            encoded_txid(tx.raw()) == Some(txid.0@) && #[trigger] user_got(
                node,
                UserRequest::MempoolTransaction(txid),
                NodeResponse::MempoolTransaction(Some(tx)),
                after,
                result,
            ),
{
    let txid = choose|txid: Txid|
        {
            &&& encoded_txid(tx.raw()) == Some(txid.0@)
            &&& (after, result) == #[trigger] node.answered(
                UserRequest::MempoolTransaction(txid),
                NodeResponse::MempoolTransaction(Some(tx)),
            )
        };
    assert(user_got(
        node,
        UserRequest::MempoolTransaction(txid),
        NodeResponse::MempoolTransaction(Some(tx)),
        after,
        result,
    ));
}

/// Filter headers answer a request that asks for those up to the same block, if there is one,
/// and never fail then; a peer that sends them unasked gets five points.
pub proof fn filter_headers_answer_requests_up_to_the_same_block(
    node: NodeView,
    headers: CFHeaders,
    peer: u32,
    after: NodeView,
    result: Result<(), WireError>,
    start: u32,
)
    requires
        node.taken(PeerMessages::CFHeaders(headers), peer, after, result),
    ensures
        ({
            let asked = UserRequest::GetCFilterHeaders {
                start_height: start,
                stop_hash: headers.stop_hash,
            };
            ||| exists|request: UserRequest, outcome: Result<(), WireError>|
                {
                    &&& node.inflight_user_requests.contains_key(request)
                    &&& request matches UserRequest::GetCFilterHeaders { stop_hash, .. }
                        && stop_hash == headers.stop_hash
                    &&& #[trigger] user_got(
                        node,
                        request,
                        NodeResponse::CFilterHeaders(headers),
                        after,
                        outcome,
                    )
                    &&& result is Ok
                }
            ||| !node.inflight_user_requests.contains_key(asked) && (after, result)
                == node.punished(peer, 5)
        }),
{
    let pick = choose|pick: Option<UserRequest>| #[trigger]
        node.headers_pick(headers.stop_hash, pick) && (after, result) == node.headers_taken(
            headers,
            pick,
            peer,
        );
    match pick {
        Some(request) => {
            let outcome = node.answered(request, NodeResponse::CFilterHeaders(headers)).1;
            assert(user_got(
                node,
                request,
                NodeResponse::CFilterHeaders(headers),
                after,
                outcome,
            ));
        },
        None => {
            let asked = UserRequest::GetCFilterHeaders {
                start_height: start,
                stop_hash: headers.stop_hash,
            };
            assert(!node.asks_for_headers(headers.stop_hash, asked));
        },
    }
}

/// A utreexo state that nobody asked for costs five points; messages that depend on what the node
/// is busy with change nothing, and are handed back.
pub proof fn other_messages_change_nothing(
    node: NodeView,
    msg: PeerMessages,
    peer: u32,
    after: NodeView,
    result: Result<(), WireError>,
)
    requires
        node.taken(msg, peer, after, result),
    ensures
        msg is UtreexoState ==> (after, result) == node.punished(peer, 5),
        msg is Block || msg is Headers || msg is Ready || msg is BlockFilter || msg is Other
            ==> after == node && result is Ok,
        common_message(msg) <==> !(msg is Block || msg is Headers || msg is Ready
            || msg is BlockFilter || msg is Other),
{
}

/// A message answers the request it is the answer to: a block the one for its hash, headers and
/// filters theirs, the word that a peer is ready and a utreexo state the one sent to that peer.
pub proof fn messages_answer_their_requests(msg: PeerMessages, peer: u32, req: InflightRequests)
    ensures
        answers(msg, peer, req) <==> match req {
            InflightRequests::Headers => msg is Headers,
            InflightRequests::GetFilters => msg is BlockFilter,
            InflightRequests::UtreexoState(asked) => msg is UtreexoState && asked == peer,
            InflightRequests::Connect(asked) => msg is Ready && asked == peer,
            InflightRequests::Blocks(hash) => match msg {
                PeerMessages::Block(block) => encoded_block_hash(block.raw()) == Some(hash.0@),
                _ => false,
            },
            InflightRequests::UtreexoProof(_) => false,
            InflightRequests::GetAddresses => false,
        },
{
}

/// Each address a peer tells us about is taken as it was told, with the time it was seen at, as
/// one that we never tried.
pub proof fn addresses_are_heard_as_told(
    messages: Seq<AddrV2Message>,
    addresses: Seq<LocalAddressView>,
    i: int,
)
    requires
        heard_as(messages, addresses),
        0 <= i < messages.len(),
    ensures
        addresses.len() == messages.len(),
        addresses[i].address.addr == messages[i].addr@,
        addresses[i].address.port == messages[i].port,
        addresses[i].services == messages[i].services,
        addresses[i].last_connected == messages[i].time,
        addresses[i].state == AddressState::NeverTried,
{
    assert(addresses[i] == LocalAddressView {
        address: SocketView { addr: messages[i].addr@, port: messages[i].port },
        last_connected: messages[i].time as u64,
        state: AddressState::NeverTried,
        services: messages[i].services,
        id: addresses[i].id,
    });
}

/// Once a peer told us addresses they are not awaited any more, and a feeler that takes requests
/// is told to go. Only the book changes besides.
pub proof fn addresses_end_the_request(
    node: NodeView,
    peer: u32,
    messages: Seq<AddrV2Message>,
    after: NodeView,
    result: Result<(), WireError>,
)
    requires
        node.heard(peer, messages, after, result),
    ensures
        after.inflight == node.inflight.remove(InflightRequests::GetAddresses),
        after.peers == node.peers,
        after.peer_ids == node.peer_ids,
        after.peer_by_service == node.peer_by_service,
        after.responses == node.responses,
        ({
            let feeler = node.peers.contains_key(peer) && node.peers[peer].kind
                == ConnectionKind::Feeler && node.peers[peer].state != PeerStatus::Awaiting;
            &&& after.outbox == if feeler && node.peers[peer].takes_requests {
                node.outbox.push((peer, RequestView::Shutdown))
            } else {
                node.outbox
            }
            &&& result == if feeler && !node.peers[peer].takes_requests {
                Err::<(), WireError>(WireError::ChannelSend)
            } else {
                Ok(())
            }
        }),
{
}

/// Each address that a peer tells us about is in the book afterwards, as it was told, if it is of
/// use, was not told twice, and there is room for all; nothing that was in the book is changed.
pub proof fn told_addresses_of_use_are_in_the_book(
    node: NodeView,
    peer: u32,
    messages: Seq<AddrV2Message>,
    after: NodeView,
    result: Result<(), WireError>,
)
    requires
        node.book.sound(),
        node.heard(peer, messages, after, result),
    ensures
        exists|addresses: Seq<LocalAddressView>|
            #![trigger heard_as(messages, addresses)]
            {
                &&& heard_as(messages, addresses)
                &&& node.book.pushed_all(addresses).addresses.len() <= node.book.max_size ==> {
                    &&& forall|i: int|
                        0 <= i < messages.len() && of_use_first(node.book, addresses, i) ==> {
                            &&& after.book.addresses.contains_key((#[trigger] addresses[i]).id)
                            &&& after.book.addresses[addresses[i].id] == addresses[i]
                        }
                    &&& forall|id: usize| #[trigger]
                        node.book.addresses.contains_key(id)
                            ==> after.book.addresses.contains_key(id) && after.book.addresses[id]
                            == node.book.addresses[id]
                }
            },
{
    let addresses = choose|addresses: Seq<LocalAddressView>| #[trigger]
        heard_as(messages, addresses) && node.offered_to(peer, addresses, after, result);
    let book = choose|book: BookView|
        node.book.pushed_all(addresses).pruned_to(book) && (after, result)
            == #[trigger] node.addresses_taken(peer, book);
    let full = node.book.pushed_all(addresses);
    pushing_all_keeps_soundness(node.book, addresses);
    pruning_keeps_the_latest(full, book);
    if full.addresses.len() <= node.book.max_size {
        what_is_taken_was_offered(node.book, addresses, 0);
        assert(after.book == full);
        assert forall|i: int|
            0 <= i < messages.len() && of_use_first(node.book, addresses, i) implies {
            &&& after.book.addresses.contains_key((#[trigger] addresses[i]).id)
            &&& after.book.addresses[addresses[i].id] == addresses[i]
        } by {
            each_address_of_use_is_taken(node.book, addresses, i);
        }
        assert forall|id: usize| #[trigger]
            node.book.addresses.contains_key(id) implies after.book.addresses.contains_key(id)
            && after.book.addresses[id] == node.book.addresses[id] by {
            what_is_taken_was_offered(node.book, addresses, id);
        }
    }
}

/// An address our user added is in the book afterwards, if it can be reached, is new there, and
/// there is room for it.
pub proof fn addresses_our_user_adds_are_in_the_book(
    book: BookView,
    address: LocalAddressView,
    socket: SocketView,
    after: BookView,
)
    requires
        book.sound(),
        fresh(address, socket, ServiceFlags(BARE_MINIMUM)),
        book.learned_to(address, after),
        on_reachable_network(book, socket.addr),
        routable(socket.addr),
        is_new_to(book, address),
        book.addresses.len() < book.max_size,
    ensures
        after.addresses == book.addresses.insert(address.id, address),
        address.address == socket,
        address.state == AddressState::NeverTried,
{
    let bits = BARE_MINIMUM;
    assert(0x400u64 | 0x8u64 == 0x408u64) by (bit_vector);
    assert(bits & 0x8 == 0x8 && bits & 0x400 == 0x400) by (bit_vector)
        requires
            bits == 0x408,
    ;
    let one = seq![address];
    assert(one.drop_last() =~= Seq::empty());
    assert(book.pushed_all(one.drop_last()) == book);
    let full = book.pushed_all(one);
    assert(full == book.pushed(address));
    addresses_of_use_are_taken(book, address);
    pushing_all_keeps_soundness(book, one);
    pruning_keeps_the_latest(full, after);
    what_is_taken_was_offered(book, one, address.id);
}

/// An address stands in the list of added ones if it is there at all, and it is found at its
/// first place.
pub proof fn added_addresses_are_found(node: NodeView, socket: SocketView, i: int)
    ensures
        0 <= i < node.added_peers.len() && node.added_peers[i].0 == socket ==> node.is_added(
            socket,
        ),
        node.added_at(socket, i) ==> 0 <= i < node.added_peers.len() && node.added_peers[i].0
            == socket,
        node.is_added(socket) ==> exists|j: int|
            0 <= j < node.added_peers.len() && (#[trigger] node.added_peers[j]).0 == socket,
    decreases i,
{
    if 0 <= i < node.added_peers.len() && node.added_peers[i].0 == socket {
        if exists|j: int| 0 <= j < i && (#[trigger] node.added_peers[j]).0 == socket {
            let j = choose|j: int| 0 <= j < i && (#[trigger] node.added_peers[j]).0 == socket;
            added_addresses_are_found(node, socket, j);
        } else {
            assert(node.added_at(socket, i));
        }
    }
    if node.is_added(socket) {
        let j = choose|j: int| #[trigger] node.added_at(socket, j);
        assert(node.added_peers[j].0 == socket);
    }
}

/// Addresses that a peer tells us change the book, and what is awaited and queued, and nothing
/// else.
pub proof fn told_addresses_leave_the_rest_alone(
    node: NodeView,
    peer: u32,
    messages: Seq<AddrV2Message>,
    after: NodeView,
    result: Result<(), WireError>,
)
    requires
        node.heard(peer, messages, after, result),
    ensures
        after == (NodeView {
            book: after.book,
            inflight: after.inflight,
            outbox: after.outbox,
            ..node
        }),
{
}

} // verus!
