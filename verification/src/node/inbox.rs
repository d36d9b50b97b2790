//! What peers tell us, as far as it is the same whatever the node is busy with.

use vstd::prelude::*;

use crate::address_man::views;
use crate::book::BookView;
use crate::buckets::Id;
use crate::chain_data::{
    encoded_block_hash, encoded_txid, BlockHash, CFHeaders, Inventory, Transaction, Txid,
};
use crate::clock::Instant;
use crate::local_address::{AddressState, LocalAddress, LocalAddressView};
use crate::net_addr::{AddrV2Message, SocketView};
use crate::node::messages::{
    InflightRequests, NodeRequest, NodeResponse, PeerMessages, RequestView, UserRequest, WireError,
};
use crate::node::peer::{ConnectionKind, LocalPeerView, PeerId};
use crate::node::state::{NodeView, UtreexoNode};

verus! {

/// By how much the score of a peer increases that sends what we did not ask for.
pub const UNSOLICITED_SCORE: u32 = 5;

/// Whether these are the addresses a peer told us about: each under any id, and never tried.
pub open spec fn heard_as(messages: Seq<AddrV2Message>, addresses: Seq<LocalAddressView>) -> bool {
    &&& messages.len() == addresses.len()
    &&& forall|i: int|
        0 <= i < messages.len() ==> #[trigger] addresses[i] == (LocalAddressView {
            address: SocketView { addr: messages[i].addr@, port: messages[i].port },
            last_connected: messages[i].time as u64,
            state: AddressState::NeverTried,
            services: messages[i].services,
            id: addresses[i].id,
        })
}

/// What our user asked for that a peer does not have, if it is something users ask for.
pub open spec fn asked_by_user(inv: Inventory) -> Option<(UserRequest, NodeResponse)> {
    match inv {
        Inventory::Block(hash) => Some((UserRequest::Block(hash), NodeResponse::Block(None))),
        Inventory::WitnessBlock(hash) => Some(
            (UserRequest::Block(hash), NodeResponse::Block(None)),
        ),
        Inventory::CompactBlock(hash) => Some(
            (UserRequest::Block(hash), NodeResponse::Block(None)),
        ),
        Inventory::Transaction(txid) => Some(
            (UserRequest::MempoolTransaction(txid), NodeResponse::MempoolTransaction(None)),
        ),
        Inventory::WitnessTransaction(txid) => Some(
            (UserRequest::MempoolTransaction(txid), NodeResponse::MempoolTransaction(None)),
        ),
        _ => None,
    }
}

/// Whether this is the request that a message answers.
pub open spec fn answers(msg: PeerMessages, peer: u32, req: InflightRequests) -> bool {
    match msg {
        PeerMessages::Block(block) => req matches InflightRequests::Blocks(hash)
            && encoded_block_hash(block.raw()) == Some(hash.0@),
        PeerMessages::Ready(_) => req == InflightRequests::Connect(peer),
        PeerMessages::Headers(_) => req == InflightRequests::Headers,
        PeerMessages::BlockFilter(_) => req == InflightRequests::GetFilters,
        PeerMessages::UtreexoState(_) => req == InflightRequests::UtreexoState(peer),
        _ => false,
    }
}

impl NodeView {
    /// What comes of answering a request of our user, if there is such a request: whatever
    /// comes of it, it is not waited for any more.
    pub open spec fn answered(self, request: UserRequest, response: NodeResponse) -> (
        NodeView,
        Result<(), WireError>,
    ) {
        if self.inflight_user_requests.contains_key(request) {
            let waiting = self.inflight_user_requests[request];
            let taken = NodeView {
                inflight_user_requests: self.inflight_user_requests.remove(request),
                ..self
            };
            if waiting.listening {
                (
                    NodeView {
                        responses: taken.responses.push((waiting.responder, response)),
                        ..taken
                    },
                    Ok(()),
                )
            } else {
                (taken, Err(WireError::ResponseSendError))
            }
        } else {
            (self, Ok(()))
        }
    }

    /// What comes of a peer not having something.
    pub open spec fn missed(self, inv: Inventory) -> (NodeView, Result<(), WireError>) {
        match asked_by_user(inv) {
            Some((request, response)) => self.answered(request, response),
            None => (self, Ok(())),
        }
    }

    /// Whether this is what comes of a transaction.
    pub open spec fn tx_taken(
        self,
        tx: Transaction,
        after: NodeView,
        result: Result<(), WireError>,
    ) -> bool {
        exists|txid: Txid|
            {
                &&& encoded_txid(tx.raw()) == Some(txid.0@)
                &&& (after, result) == #[trigger] self.answered(
                    UserRequest::MempoolTransaction(txid),
                    NodeResponse::MempoolTransaction(Some(tx)),
                )
            }
    }

    /// Whether a request of our user asks for filter headers up to a block.
    pub open spec fn asks_for_headers(self, stop: BlockHash, request: UserRequest) -> bool {
        &&& self.inflight_user_requests.contains_key(request)
        &&& request matches UserRequest::GetCFilterHeaders { stop_hash, .. } && stop_hash == stop
    }

    /// Whether a choice among the requests for filter headers up to a block may come out like
    /// this.
    pub open spec fn headers_pick(self, stop: BlockHash, pick: Option<UserRequest>) -> bool {
        match pick {
            Some(request) => self.asks_for_headers(stop, request),
            None => forall|request: UserRequest| !#[trigger] self.asks_for_headers(stop, request),
        }
    }

    /// What comes of filter headers that answer the request chosen, if there is one; a peer
    /// that sent them unasked is punished.
    pub open spec fn headers_taken(
        self,
        headers: CFHeaders,
        pick: Option<UserRequest>,
        peer: u32,
    ) -> (NodeView, Result<(), WireError>) {
        match pick {
            Some(request) => (
                self.answered(request, NodeResponse::CFilterHeaders(headers)).0,
                Ok(()),
            ),
            None => self.punished(peer, UNSOLICITED_SCORE),
        }
    }

    /// What comes of addresses that left us with this book: a feeler has done its work.
    pub open spec fn addresses_taken(self, peer: u32, book: BookView) -> (
        NodeView,
        Result<(), WireError>,
    ) {
        let taken = self.without_request(InflightRequests::GetAddresses).with_book(book);
        if taken.peers.contains_key(peer) && taken.peers[peer].kind is Feeler {
            taken.sent(peer, RequestView::Shutdown)
        } else {
            (taken, Ok(()))
        }
    }

    /// Whether this is what comes of addresses that were offered to the book.
    pub open spec fn offered_to(
        self,
        peer: u32,
        addresses: Seq<LocalAddressView>,
        after: NodeView,
        result: Result<(), WireError>,
    ) -> bool {
        exists|book: BookView|
            self.book.pushed_all(addresses).pruned_to(book) && (after, result)
                == #[trigger] self.addresses_taken(peer, book)
    }

    /// Whether this is what comes of addresses a peer told us about.
    pub open spec fn heard(
        self,
        peer: u32,
        messages: Seq<AddrV2Message>,
        after: NodeView,
        result: Result<(), WireError>,
    ) -> bool {
        exists|addresses: Seq<LocalAddressView>| #[trigger]
            heard_as(messages, addresses) && self.offered_to(peer, addresses, after, result)
    }

    /// Whether this is what comes of a message, if it is one that is the same whatever the node
    /// is busy with.
    pub open spec fn taken(
        self,
        msg: PeerMessages,
        peer: u32,
        after: NodeView,
        result: Result<(), WireError>,
    ) -> bool {
        match msg {
            PeerMessages::Addr(addresses) => self.heard(peer, addresses@, after, result),
            PeerMessages::NotFound(inv) => (after, result) == self.missed(inv),
            PeerMessages::Transaction(tx) => self.tx_taken(tx, after, result),
            PeerMessages::UtreexoState(_) => (after, result) == self.punished(
                peer,
                UNSOLICITED_SCORE,
            ),
            PeerMessages::CFHeaders(headers) => exists|pick: Option<UserRequest>| #[trigger]
                self.headers_pick(headers.stop_hash, pick) && (after, result)
                    == self.headers_taken(headers, pick, peer),
            _ => after == self && result is Ok,
        }
    }
}

/// Whether a message is dealt with the same whatever the node is busy with.
pub open spec fn common_message(msg: PeerMessages) -> bool {
    match msg {
        PeerMessages::Addr(_) => true,
        PeerMessages::NotFound(_) => true,
        PeerMessages::Transaction(_) => true,
        PeerMessages::UtreexoState(_) => true,
        PeerMessages::CFHeaders(_) => true,
        _ => false,
    }
}

impl UtreexoNode {
    /// Answers a request of our user, if there is such a request.
    pub fn answer_user(&mut self, request: UserRequest, response: NodeResponse) -> (r: Result<
        (),
        WireError,
    >)
        ensures
            (final(self)@, r) == old(self)@.answered(request, response),
    {
        match self.common.inflight_user_requests.remove(request) {
            Some(waiting) => {
                if waiting.listening {
                    self.common.responses.push((waiting.responder, response));
                    Ok(())
                } else {
                    Err(WireError::ResponseSendError)
                }
            },
            None => {
                assert(self@.inflight_user_requests =~= old(self)@.inflight_user_requests);
                Ok(())
            },
        }
    }

    /// Handles a NOTFOUND inventory by completing any matching inflight user request with `None`.
    pub fn handle_notfound_msg(&mut self, inv: Inventory) -> (r: Result<(), WireError>)
        ensures
            (final(self)@, r) == old(self)@.missed(inv),
    {
        match inv {
            Inventory::Block(block)
            | Inventory::WitnessBlock(block)
            | Inventory::CompactBlock(block) => self.answer_user(
                UserRequest::Block(block),
                NodeResponse::Block(None),
            ),
            Inventory::WitnessTransaction(tx) | Inventory::Transaction(tx) => self.answer_user(
                UserRequest::MempoolTransaction(tx),
                NodeResponse::MempoolTransaction(None),
            ),
            _ => Ok(()),
        }
    }

    /// Handles an incoming mempool transaction by completing any matching inflight user request.
    pub fn handle_tx_msg(&mut self, tx: Transaction) -> (r: Result<(), WireError>)
        ensures
            old(self)@.tx_taken(tx, final(self)@, r),
    {
        let txid = tx.compute_txid();
        self.answer_user(
            UserRequest::MempoolTransaction(txid),
            NodeResponse::MempoolTransaction(Some(tx)),
        )
    }

    /// A request of our user for filter headers up to a block, if there is one.
    pub fn find_headers_request(&self, stop: BlockHash) -> (r: Option<UserRequest>)
        ensures
            self@.headers_pick(stop, r),
    {
        let keys = self.common.inflight_user_requests.keys();
        let mut i: usize = 0;
        while i < keys.len()
            invariant
                i <= keys@.len(),
                keys@.to_set() == self@.inflight_user_requests.dom(),
                forall|j: int| 0 <= j < i ==> !self@.asks_for_headers(stop, #[trigger] keys@[j]),
            decreases keys@.len() - i,
        {
            assert(keys@.to_set().contains(keys@[i as int]));
            if let UserRequest::GetCFilterHeaders { stop_hash, .. } = keys[i] {
                if stop_hash.same(&stop) {
                    return Some(keys[i]);
                }
            }
            i = i + 1;
        }
        assert forall|request: UserRequest| !#[trigger] self@.asks_for_headers(stop, request) by {
            if self@.asks_for_headers(stop, request) {
                assert(keys@.to_set().contains(request));
                assert(keys@.contains(request));
            }
        }
        None
    }

    /// Handles filter headers that answer the request chosen, if there is one.
    pub fn take_headers(
        &mut self,
        headers: CFHeaders,
        pick: Option<UserRequest>,
        peer: PeerId,
    ) -> (r: Result<(), WireError>)
        ensures
            (final(self)@, r) == old(self)@.headers_taken(headers, pick, peer),
    {
        match pick {
            Some(request) => {
                let _ = self.answer_user(request, NodeResponse::CFilterHeaders(headers));
                Ok(())
            },
            None => self.increase_banscore(peer, UNSOLICITED_SCORE),
        }
    }

    /// Offers addresses that a peer told us about to the address manager. Feelers are asked
    /// for addresses only, and are disconnected then.
    pub fn take_addresses(&mut self, peer: PeerId, addresses: &Vec<LocalAddress>) -> (r: Result<
        (),
        WireError,
    >)
        ensures
            old(self)@.offered_to(peer, views(addresses@), final(self)@, r),
    {
        let _ = self.common.inflight.remove(InflightRequests::GetAddresses);
        self.common.address_man.push_addresses(addresses.as_slice());
        let ghost book = self@.book;
        assert(self@ == old(self)@.without_request(InflightRequests::GetAddresses).with_book(book));
        let is_feeler = match self.peer(peer) {
            Some(data) => matches!(data.kind, ConnectionKind::Feeler),
            None => false,
        };
        if is_feeler {
            let r = self.send_to_peer(peer, NodeRequest::Shutdown);
            assert((self@, r) == old(self)@.addresses_taken(peer, book));
            r
        } else {
            assert((self@, Ok::<(), WireError>(())) == old(self)@.addresses_taken(peer, book));
            Ok(())
        }
    }

    /// Handles addresses a peer told us about.
    pub fn handle_addresses_from_peer(&mut self, peer: u32, addresses: Vec<AddrV2Message>) -> (r:
        Result<(), WireError>)
        ensures
            old(self)@.heard(peer, addresses@, final(self)@, r),
    {
        let mut locals: Vec<LocalAddress> = Vec::new();
        let mut i: usize = 0;
        while i < addresses.len()
            invariant
                i <= addresses@.len(),
                heard_as(addresses@.take(i as int), views(locals@)),
            decreases addresses@.len() - i,
        {
            let ghost before = locals@;
            locals.push(LocalAddress::from(addresses[i].clone()));
            proof {
                let messages = addresses@.take(i + 1);
                assert(heard_as(addresses@.take(i as int), views(before)));
                assert forall|j: int| 0 <= j < messages.len() implies #[trigger] views(locals@)[j]
                    == (LocalAddressView {
                    address: SocketView { addr: messages[j].addr@, port: messages[j].port },
                    last_connected: messages[j].time as u64,
                    state: AddressState::NeverTried,
                    services: messages[j].services,
                    id: views(locals@)[j].id,
                }) by {
                    if j < i {
                        assert(views(locals@)[j] == views(before)[j]);
                        assert(messages[j] == addresses@.take(i as int)[j]);
                    }
                }
            }
            i = i + 1;
        }
        assert(addresses@.take(i as int) =~= addresses@);
        self.take_addresses(peer, &locals)
    }

    /// Handles peer messages where behavior is common to all node contexts, returning `Some` only
    /// for peer messages that require context-specific handling.
    pub fn handle_peer_msg_common(&mut self, msg: PeerMessages, peer: PeerId) -> (r: Result<
        Option<PeerMessages>,
        WireError,
    >)
        ensures
            old(self)@.taken(
                msg,
                peer,
                final(self)@,
                match r {
                    Ok(_) => Ok(()),
                    Err(e) => Err(e),
                },
            ),
            r matches Ok(left) ==> left == if common_message(msg) {
                None
            } else {
                Some(msg)
            },
    {
        let result = match msg {
            PeerMessages::Addr(addresses) => self.handle_addresses_from_peer(peer, addresses),
            PeerMessages::NotFound(inv) => self.handle_notfound_msg(inv),
            PeerMessages::Transaction(tx) => self.handle_tx_msg(tx),
            PeerMessages::UtreexoState(_) => self.increase_banscore(peer, UNSOLICITED_SCORE),
            PeerMessages::CFHeaders(headers) => {
                let pick = self.find_headers_request(headers.stop_hash);
                self.take_headers(headers, pick, peer)
            },
            _ => {
                return Ok(Some(msg));
            },
        };
        match result {
            Ok(()) => Ok(None),
            Err(e) => Err(e),
        }
    }

    /// Tells how long a message took that answers one of our requests, in nanoseconds.
    ///
    /// We need this information to calculate the average time taken to respond to messages from
    /// peers, which we use to select the fastest peer when sending requests.
    pub fn register_message_time(
        &self,
        notification: &PeerMessages,
        peer: PeerId,
        read_at: Instant,
    ) -> (r: Option<u64>)
        ensures
            match r {
                Some(nanos) => exists|req: InflightRequests| #[trigger]
                    answers(*notification, peer, req) && self@.inflight.contains_key(req) && nanos
                        == read_at.nanos_after(self@.inflight[req].1),
                None => forall|req: InflightRequests| #[trigger]
                    answers(*notification, peer, req) ==> !self@.inflight.contains_key(req),
            },
    {
        let req = match notification {
            PeerMessages::Block(block) => InflightRequests::Blocks(block.block_hash()),
            PeerMessages::Ready(_) => InflightRequests::Connect(peer),
            PeerMessages::Headers(_) => InflightRequests::Headers,
            PeerMessages::BlockFilter(_) => InflightRequests::GetFilters,
            PeerMessages::UtreexoState(_) => InflightRequests::UtreexoState(peer),
            _ => {
                return None;
            },
        };
        assert(answers(*notification, peer, req));
        match self.common.inflight.get(req) {
            Some((_, sent_at)) => Some(read_at.duration_since(sent_at)),
            None => {
                assert forall|other: InflightRequests| #[trigger]
                    answers(*notification, peer, other) implies other == req by {
                    if let InflightRequests::Blocks(hash) = other {
                        if let InflightRequests::Blocks(mine) = req {
                            assert(hash.0@ =~= mine.0@);
                            assert(hash.0 =~= mine.0);
                        }
                    }
                }
                None
            },
        }
    }

    /// Takes note of the average time a peer takes to answer, in nanoseconds.
    pub fn record_latency(&mut self, peer: PeerId, average: u64)
        ensures
            final(self)@ == if old(self)@.peers.contains_key(peer) {
                old(self)@.with_peer(
                    peer,
                    (LocalPeerView { message_time: Some(average), ..old(self)@.peers[peer] }),
                )
            } else {
                old(self)@
            },
    {
        let ghost before = self@;
        if let Some(mut data) = self.take_peer(peer) {
            data.message_time = Some(average);
            self.put_back(peer, data, Ghost(before));
        } else {
            assert(self@.peers =~= before.peers);
        }
    }
}

} // verus!
