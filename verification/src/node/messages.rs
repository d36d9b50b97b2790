//! What the node, its peers and its user tell each other.

use vstd::prelude::*;

use crate::buckets::Id;
use crate::bytes::copy_bytes;
use crate::chain_data::{Block, BlockHash, CFHeaders, Inventory, Transaction, Txid};
use crate::clock::Instant;
use crate::local_address::LocalAddress;
use crate::net_addr::{AddrV2Message, AddrV2View, BitcoinSocketAddr};
use crate::node::peer::Version;
use crate::service_flags::ServiceFlags;

verus! {

/// As per BIP 155, limit the number of addresses to 1,000
pub const MAX_ADDRV2_ADDRESSES: usize = 1_000;

/// Which parts of a proof are asked for, one bit each; none of them when there are no bits.
#[derive(Debug, PartialEq, Eq)]
pub struct Bitmap {
    /// The bits, eight to a byte.
    pub bytes: Vec<u8>,
}

impl Bitmap {
    /// A bitmap without bits.
    pub fn new() -> (r: Bitmap)
        ensures
            r.bytes@ == Seq::<u8>::empty(),
    {
        Bitmap { bytes: Vec::new() }
    }
}

/// Sent from node to peers, usually to request something
#[derive(Debug, PartialEq, Eq)]
pub enum NodeRequest {
    /// Request the full block data for one or more blocks
    GetBlock(Vec<BlockHash>),
    /// Asks peer for headers
    GetHeaders(Vec<BlockHash>),
    /// Ask for other peers addresses
    GetAddresses,
    /// Asks this peer to shutdown
    Shutdown,
    /// Sends a transaction to peers
    BroadcastTransaction(Txid),
    /// Ask for an unconfirmed transaction
    MempoolTransaction(Txid),
    /// Sends know addresses to our peers
    SendAddresses(Vec<AddrV2Message>),
    /// Requests the peer to send us the utreexo state for a given block
    GetUtreexoState((BlockHash, u32)),
    /// Requests the peer to send us the compact block filters for blocks
    /// starting at a given block hash and height.
    GetFilter((BlockHash, u32)),
    /// Sends a ping to the peer to check if it's alive
    Ping,
    /// Ask for the peer to send us the block proof for a given block
    ///
    /// The first bitmap tells which proof hashes do we want, and the second
    /// which leaf data the peer should send us.
    ///
    /// Proof hashes are the hashes needed to reconstruct the proof, while
    /// leaf data are the actual data of the leaves (i.e., the txouts).
    GetBlockProof((BlockHash, Bitmap, Bitmap)),
    /// Ask for a Compact Block Filters Header
    GetCFHeaders { start_height: u32, stop_hash: BlockHash },
}

/// What an [`AddrV2Message`] says.
pub struct AddrMessageView {
    pub time: u32,
    pub services: ServiceFlags,
    pub addr: AddrV2View,
    pub port: u16,
}

impl View for AddrV2Message {
    type V = AddrMessageView;

    open spec fn view(&self) -> AddrMessageView {
        AddrMessageView {
            time: self.time,
            services: self.services,
            addr: self.addr@,
            port: self.port,
        }
    }
}

impl Clone for AddrV2Message {
    fn clone(&self) -> (r: Self)
        ensures
            r@ == self@,
    {
        AddrV2Message {
            time: self.time,
            services: self.services,
            addr: self.addr.clone(),
            port: self.port,
        }
    }
}

/// What a [`NodeRequest`] says.
pub enum RequestView {
    GetBlock(Seq<BlockHash>),
    GetHeaders(Seq<BlockHash>),
    GetAddresses,
    Shutdown,
    BroadcastTransaction(Txid),
    MempoolTransaction(Txid),
    SendAddresses(Seq<AddrMessageView>),
    GetUtreexoState(BlockHash, u32),
    GetFilter(BlockHash, u32),
    Ping,
    GetBlockProof(BlockHash, Seq<u8>, Seq<u8>),
    GetCFHeaders(u32, BlockHash),
}

impl View for NodeRequest {
    type V = RequestView;

    open spec fn view(&self) -> RequestView {
        match *self {
            NodeRequest::GetBlock(hashes) => RequestView::GetBlock(hashes@),
            NodeRequest::GetHeaders(hashes) => RequestView::GetHeaders(hashes@),
            NodeRequest::GetAddresses => RequestView::GetAddresses,
            NodeRequest::Shutdown => RequestView::Shutdown,
            NodeRequest::BroadcastTransaction(txid) => RequestView::BroadcastTransaction(txid),
            NodeRequest::MempoolTransaction(txid) => RequestView::MempoolTransaction(txid),
            NodeRequest::SendAddresses(addresses) => RequestView::SendAddresses(
                addresses@.map_values(|address: AddrV2Message| address@),
            ),
            NodeRequest::GetUtreexoState((hash, height)) => RequestView::GetUtreexoState(
                hash,
                height,
            ),
            NodeRequest::GetFilter((hash, height)) => RequestView::GetFilter(hash, height),
            NodeRequest::Ping => RequestView::Ping,
            NodeRequest::GetBlockProof((hash, proofs, leaves)) => RequestView::GetBlockProof(
                hash,
                proofs.bytes@,
                leaves.bytes@,
            ),
            NodeRequest::GetCFHeaders { start_height, stop_hash } => RequestView::GetCFHeaders(
                start_height,
                stop_hash,
            ),
        }
    }
}

/// A copy of a list of block hashes.
pub(crate) fn copy_hashes(hashes: &Vec<BlockHash>) -> (r: Vec<BlockHash>)
    ensures
        r@ == hashes@,
{
    let mut copy: Vec<BlockHash> = Vec::new();
    let mut i: usize = 0;
    while i < hashes.len()
        invariant
            i <= hashes@.len(),
            copy@ == hashes@.take(i as int),
        decreases hashes@.len() - i,
    {
        copy.push(hashes[i]);
        assert(copy@ =~= hashes@.take(i + 1));
        i = i + 1;
    }
    assert(copy@ =~= hashes@);
    copy
}

fn copy_addresses(addresses: &Vec<AddrV2Message>) -> (r: Vec<AddrV2Message>)
    ensures
        r@.map_values(|address: AddrV2Message| address@) == addresses@.map_values(
            |address: AddrV2Message| address@,
        ),
{
    let mut copy: Vec<AddrV2Message> = Vec::new();
    let mut i: usize = 0;
    while i < addresses.len()
        invariant
            i <= addresses@.len(),
            copy@.len() == i,
            forall|j: int| 0 <= j < i ==> (#[trigger] copy@[j])@ == addresses@[j]@,
        decreases addresses@.len() - i,
    {
        copy.push(addresses[i].clone());
        i = i + 1;
    }
    assert(copy@.map_values(|address: AddrV2Message| address@) =~= addresses@.map_values(
        |address: AddrV2Message| address@,
    ));
    copy
}

impl Clone for NodeRequest {
    fn clone(&self) -> (r: Self)
        ensures
            r@ == self@,
    {
        match self {
            NodeRequest::GetBlock(hashes) => NodeRequest::GetBlock(copy_hashes(hashes)),
            NodeRequest::GetHeaders(hashes) => NodeRequest::GetHeaders(copy_hashes(hashes)),
            NodeRequest::GetAddresses => NodeRequest::GetAddresses,
            NodeRequest::Shutdown => NodeRequest::Shutdown,
            NodeRequest::BroadcastTransaction(txid) => NodeRequest::BroadcastTransaction(*txid),
            NodeRequest::MempoolTransaction(txid) => NodeRequest::MempoolTransaction(*txid),
            NodeRequest::SendAddresses(addresses) => NodeRequest::SendAddresses(
                copy_addresses(addresses),
            ),
            NodeRequest::GetUtreexoState((hash, height)) => NodeRequest::GetUtreexoState(
                (*hash, *height),
            ),
            NodeRequest::GetFilter((hash, height)) => NodeRequest::GetFilter((*hash, *height)),
            NodeRequest::Ping => NodeRequest::Ping,
            NodeRequest::GetBlockProof((hash, proofs, leaves)) => NodeRequest::GetBlockProof(
                (
                    *hash,
                    Bitmap { bytes: copy_bytes(&proofs.bytes) },
                    Bitmap { bytes: copy_bytes(&leaves.bytes) },
                ),
            ),
            NodeRequest::GetCFHeaders { start_height, stop_hash } => NodeRequest::GetCFHeaders {
                start_height: *start_height,
                stop_hash: *stop_hash,
            },
        }
    }
}

/// A request that was sent to a peer and is not answered yet
#[derive(Debug, Clone, Copy, PartialEq, Eq, Hash)]
pub enum InflightRequests {
    /// Requests the peer to send us the next block headers in their main chain
    Headers,
    /// Requests the peer to send us the utreexo state for a given peer
    UtreexoState(u32),
    /// Requests the peer to send us the block data for a given block hash
    Blocks(BlockHash),
    /// We've opened a connection with a peer, and are waiting for them to complete the handshake.
    Connect(u32),
    /// Requests the peer to send us the compact filters for blocks
    GetFilters,
    /// Requests the peer to send us the utreexo proof for a given block
    UtreexoProof(BlockHash),
    /// We've requested addresses from a peer
    GetAddresses,
}

impl Id for InflightRequests {
    fn same(&self, other: &InflightRequests) -> (r: bool) {
        match (self, other) {
            (InflightRequests::Headers, InflightRequests::Headers) => true,
            (InflightRequests::UtreexoState(a), InflightRequests::UtreexoState(b)) => *a == *b,
            (InflightRequests::Blocks(a), InflightRequests::Blocks(b)) => a.same(b),
            (InflightRequests::Connect(a), InflightRequests::Connect(b)) => *a == *b,
            (InflightRequests::GetFilters, InflightRequests::GetFilters) => true,
            (InflightRequests::UtreexoProof(a), InflightRequests::UtreexoProof(b)) => a.same(b),
            (InflightRequests::GetAddresses, InflightRequests::GetAddresses) => true,
            _ => false,
        }
    }
}

/// Something our user asked for
#[derive(Debug, Clone, Copy, PartialEq, Eq, Hash)]
pub enum UserRequest {
    /// A block
    Block(BlockHash),
    /// A transaction that is not in a block yet
    MempoolTransaction(Txid),
    /// The headers of compact block filters
    GetCFilterHeaders { start_height: u32, stop_hash: BlockHash },
    /// Anything that no message of a peer answers, by a number of the caller's choice
    Other(u64),
}

impl Id for UserRequest {
    fn same(&self, other: &UserRequest) -> (r: bool) {
        match (self, other) {
            (UserRequest::Block(a), UserRequest::Block(b)) => a.same(b),
            (UserRequest::MempoolTransaction(a), UserRequest::MempoolTransaction(b)) => a.same(b),
            (
                UserRequest::GetCFilterHeaders { start_height: a, stop_hash: c },
                UserRequest::GetCFilterHeaders { start_height: b, stop_hash: d },
            ) => *a == *b && c.same(d),
            (UserRequest::Other(a), UserRequest::Other(b)) => *a == *b,
            _ => false,
        }
    }
}

/// Who waits for the answer to a request of our user
#[derive(Debug, Clone, Copy, PartialEq, Eq, Structural)]
pub struct UserWaiting {
    /// The peer that was asked
    pub peer: u32,
    /// When it was asked
    pub since: Instant,
    /// The number of the channel the answer goes to
    pub responder: u64,
    /// Whether somebody still listens on that channel
    pub listening: bool,
}

/// The answer to a request of our user
#[derive(Debug, PartialEq, Eq)]
pub enum NodeResponse {
    /// The block, if there is one
    Block(Option<Block>),
    /// The transaction, if there is one
    MempoolTransaction(Option<Transaction>),
    /// The headers of compact block filters
    CFilterHeaders(CFHeaders),
}

/// What a peer tells us
#[derive(Debug, PartialEq, Eq)]
pub enum PeerMessages {
    /// A block we asked for
    Block(Block),
    /// Headers, each as the bytes it is sent as
    Headers(Vec<Vec<u8>>),
    /// The peer completed the handshake
    Ready(Version),
    /// Addresses of other peers
    Addr(Vec<AddrV2Message>),
    /// Something the peer does not have
    NotFound(Inventory),
    /// A transaction that is not in a block yet
    Transaction(Transaction),
    /// The utreexo state, as the bytes it is sent as
    UtreexoState(Vec<u8>),
    /// The compact filter of a block
    BlockFilter((BlockHash, Vec<u8>)),
    /// The headers of compact block filters
    CFHeaders(CFHeaders),
    /// Anything else, as the bytes it is sent as
    Other(Vec<u8>),
}

/// An error of the chain backend, by a number of the caller's choice
#[derive(Debug, Clone, Copy, PartialEq, Eq, Structural)]
pub struct ChainError(pub u64);

/// What the chain backend answers
pub struct ChainAnswers {
    /// The hashes that tell a peer which headers we have
    pub locator: Result<Vec<BlockHash>, ChainError>,
    /// The hash of the first block
    pub genesis: BlockHash,
}

/// What can go wrong
#[derive(Debug, PartialEq)]
pub enum WireError {
    /// There is no peer to ask
    NoPeersAvailable,
    /// The peer does not take requests any more
    ChannelSend,
    /// Nobody waits for the answer any more
    ResponseSendError,
    /// The chain backend failed
    Chain(ChainError),
    /// There is such a peer already
    PeerAlreadyExists(LocalAddress),
    /// There is no such peer
    PeerNotFoundAtAddress(BitcoinSocketAddr),
}

} // verus!
