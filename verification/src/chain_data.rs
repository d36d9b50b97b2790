//! Blocks, transactions and what names them.

use vstd::prelude::*;

use crate::buckets::Id;
use crate::bytes::same_array;

verus! {

/// The hash that names a block.
#[derive(Debug, Clone, Copy, PartialEq, Eq, Hash)]
pub struct BlockHash(pub [u8; 32]);

/// The hash that names a transaction.
#[derive(Debug, Clone, Copy, PartialEq, Eq, Hash)]
pub struct Txid(pub [u8; 32]);

impl Id for BlockHash {
    fn same(&self, other: &BlockHash) -> (r: bool) {
        same_array(&self.0, &other.0)
    }
}

impl Id for Txid {
    fn same(&self, other: &Txid) -> (r: bool) {
        same_array(&self.0, &other.0)
    }
}

/// The hash that names a transaction, given as the bytes it is sent as; none for bytes that are
/// no transaction.
pub uninterp spec fn encoded_txid(raw: Seq<u8>) -> Option<Seq<u8>>;

/// The hash that names a block, given as the bytes it is sent as; none for bytes that are no
/// block.
pub uninterp spec fn encoded_block_hash(raw: Seq<u8>) -> Option<Seq<u8>>;

/// Decodes a transaction with `bitcoin::consensus::deserialize`, and calls
/// `Transaction::compute_txid` on it. The hash depends on the bytes alone, and there is none
/// when they do not decode.
#[verifier::external_body]
fn txid_of(raw: &Vec<u8>) -> (r: Option<[u8; 32]>)
    ensures
        encoded_txid(raw@) == (match r {
            Some(hash) => Some(hash@),
            None => None,
        }),
{
    let tx: bitcoin::Transaction = bitcoin::consensus::deserialize(raw).ok()?;
    Some(*bitcoin::hashes::Hash::as_byte_array(&tx.compute_txid()))
}

/// Decodes a block with `bitcoin::consensus::deserialize`, and calls `Block::block_hash` on it.
/// The hash depends on the bytes alone, and there is none when they do not decode.
#[verifier::external_body]
fn block_hash_of(raw: &Vec<u8>) -> (r: Option<[u8; 32]>)
    ensures
        encoded_block_hash(raw@) == (match r {
            Some(hash) => Some(hash@),
            None => None,
        }),
{
    let block: bitcoin::Block = bitcoin::consensus::deserialize(raw).ok()?;
    Some(*bitcoin::hashes::Hash::as_byte_array(&block.block_hash()))
}

/// A transaction, as the bytes it is sent as.
#[derive(Debug, PartialEq, Eq)]
pub struct Transaction {
    raw: Vec<u8>,
    txid: Txid,
}

impl Transaction {
    #[verifier::type_invariant]
    spec fn named_right(self) -> bool {
        encoded_txid(self.raw@) == Some(self.txid.0@)
    }

    /// The bytes it is sent as.
    pub closed spec fn raw(self) -> Seq<u8> {
        self.raw@
    }

    /// A transaction from the bytes it is sent as.
    pub fn from_bytes(raw: Vec<u8>) -> (r: Option<Transaction>)
        ensures
            match r {
                Some(tx) => encoded_txid(raw@) is Some && tx.raw() == raw@,
                None => encoded_txid(raw@) is None,
            },
    {
        match txid_of(&raw) {
            Some(hash) => Some(Transaction { raw, txid: Txid(hash) }),
            None => None,
        }
    }

    /// The hash that names it.
    pub fn compute_txid(&self) -> (r: Txid)
        ensures
            encoded_txid(self.raw()) == Some(r.0@),
    {
        proof {
            use_type_invariant(self);
        }
        self.txid
    }

    /// The bytes it is sent as.
    pub fn as_bytes(&self) -> (r: &Vec<u8>)
        ensures
            r@ == self.raw(),
    {
        &self.raw
    }
}

/// A block, as the bytes it is sent as.
#[derive(Debug, PartialEq, Eq)]
pub struct Block {
    raw: Vec<u8>,
    hash: BlockHash,
}

impl Block {
    #[verifier::type_invariant]
    spec fn named_right(self) -> bool {
        encoded_block_hash(self.raw@) == Some(self.hash.0@)
    }

    /// The bytes it is sent as.
    pub closed spec fn raw(self) -> Seq<u8> {
        self.raw@
    }

    /// A block from the bytes it is sent as.
    pub fn from_bytes(raw: Vec<u8>) -> (r: Option<Block>)
        ensures
            match r {
                Some(block) => encoded_block_hash(raw@) is Some && block.raw() == raw@,
                None => encoded_block_hash(raw@) is None,
            },
    {
        match block_hash_of(&raw) {
            Some(hash) => Some(Block { raw, hash: BlockHash(hash) }),
            None => None,
        }
    }

    /// The hash that names it.
    pub fn block_hash(&self) -> (r: BlockHash)
        ensures
            encoded_block_hash(self.raw()) == Some(r.0@),
    {
        proof {
            use_type_invariant(self);
        }
        self.hash
    }

    /// The bytes it is sent as.
    pub fn as_bytes(&self) -> (r: &Vec<u8>)
        ensures
            r@ == self.raw(),
    {
        &self.raw
    }
}

/// Something a peer may have or lack.
#[derive(Debug, Clone, Copy, PartialEq, Eq)]
pub enum Inventory {
    /// Nothing that can be told.
    Error,
    /// A transaction.
    Transaction(Txid),
    /// A block.
    Block(BlockHash),
    /// A compact block.
    CompactBlock(BlockHash),
    /// A transaction, by its witness hash.
    WTx([u8; 32]),
    /// A transaction with its witness data.
    WitnessTransaction(Txid),
    /// A block with its witness data.
    WitnessBlock(BlockHash),
    /// Something else, by the number of its kind.
    Unknown(u32, [u8; 32]),
}

/// The headers of compact block filters, up to a block.
#[derive(Debug, PartialEq, Eq)]
pub struct CFHeaders {
    /// The kind of filter.
    pub filter_type: u8,
    /// The last block.
    pub stop_hash: BlockHash,
    /// The filter header before the first one.
    pub previous_filter_header: [u8; 32],
    /// The hash of each filter.
    pub filter_hashes: Vec<[u8; 32]>,
}

} // verus!
