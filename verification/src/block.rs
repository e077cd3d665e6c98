//! Blocks: ordered batches of transactions linked by hash.

use vstd::prelude::*;
use vstd::string::*;
use vstd::utf8::*;
use crate::codec::{append_bytes, be_bytes, hex_digest, now_millis, sha256_hex, u64_be_bytes};
use crate::transaction::{tx_bytes, Transaction, TransactionView};

verus! {

/// The mathematical value of a `Block`.
pub struct BlockView {
    pub timestamp: u64,
    pub transactions: Seq<TransactionView>,
    pub prev_hash: Seq<char>,
    pub hash: Seq<char>,
}

/// The values of a sequence of transactions.
pub open spec fn txs_view(txs: Seq<Transaction>) -> Seq<TransactionView> {
    txs.map_values(|t: Transaction| t@)
}

/// The canonical encodings of `txs`, one after the other.
pub open spec fn txs_bytes(txs: Seq<TransactionView>) -> Seq<u8>
    decreases txs.len(),
{
    if txs.len() == 0 {
        Seq::empty()
    } else {
        txs_bytes(txs.drop_last()) + tx_bytes(txs.last())
    }
}

/// The bytes a block's hash is taken over: the big-endian timestamp, every
/// transaction's encoding in order, and the previous hash's bytes.
pub open spec fn block_preimage(
    timestamp: u64,
    txs: Seq<TransactionView>,
    prev_hash: Seq<char>,
) -> Seq<u8> {
    be_bytes(timestamp) + txs_bytes(txs) + encode_utf8(prev_hash)
}

/// The hash of a block with the given content.
pub open spec fn block_hash(timestamp: u64, txs: Seq<TransactionView>, prev_hash: Seq<char>) -> Seq<
    char,
> {
    sha256_hex(block_preimage(timestamp, txs, prev_hash))
}

/// The block that `Block::at` builds from the given content.
pub open spec fn block_of(timestamp: u64, txs: Seq<TransactionView>, prev_hash: Seq<char>) -> BlockView {
    BlockView {
        timestamp,
        transactions: txs,
        prev_hash,
        hash: block_hash(timestamp, txs, prev_hash),
    }
}

/// An immutable batch of transactions, bound by its hash to its content and
/// to the block before it.
#[derive(Debug)]
pub struct Block {
    timestamp: u64,
    transactions: Vec<Transaction>,
    prev_hash: String,
    hash: String,
}

impl View for Block {
    type V = BlockView;

    closed spec fn view(&self) -> BlockView {
        BlockView {
            timestamp: self.timestamp,
            transactions: txs_view(self.transactions@),
            prev_hash: self.prev_hash@,
            hash: self.hash@,
        }
    }
}

impl Block {
    /// A block over `txs` that follows the block with hash `prev_hash`,
    /// stamped with the current time.
    pub fn new(txs: Vec<Transaction>, prev_hash: &str) -> (block: Self)
        ensures
            block@ == block_of(block@.timestamp, txs_view(txs@), prev_hash@),
    {
        Block::at(now_millis(), txs, prev_hash)
    }

    /// A block over `txs` that follows the block with hash `prev_hash`,
    /// stamped with `timestamp` (milliseconds since the epoch).
    pub fn at(timestamp: u64, txs: Vec<Transaction>, prev_hash: &str) -> (block: Self)
        ensures
            block@ == block_of(timestamp, txs_view(txs@), prev_hash@),
    {
        let mut buf = u64_be_bytes(timestamp);
        let ghost all = txs_view(txs@);
        let mut i: usize = 0;
        while i < txs.len()
            invariant
                i <= txs.len(),
                all == txs_view(txs@),
                buf@ == be_bytes(timestamp) + txs_bytes(all.take(i as int)),
            decreases txs.len() - i,
        {
            let enc = txs[i].encode();
            proof {
                assert(all.take(i + 1).drop_last() =~= all.take(i as int));
                assert(all.take(i + 1).last() == txs@[i as int]@);
            }
            append_bytes(&mut buf, enc.as_slice());
            assert(buf@ =~= be_bytes(timestamp) + txs_bytes(all.take(i + 1)));
            i = i + 1;
        }
        assert(all.take(i as int) =~= all);
        append_bytes(&mut buf, prev_hash.as_bytes());
        let hash = hex_digest(buf.as_slice());
        Block { timestamp, transactions: txs, prev_hash: prev_hash.to_string(), hash }
    }

    /// When the block was built, in milliseconds since the epoch.
    pub fn timestamp(&self) -> (t: u64)
        ensures
            t == self@.timestamp,
    {
        self.timestamp
    }

    /// The transactions, in order.
    pub fn transactions(&self) -> (txs: &Vec<Transaction>)
        ensures
            txs_view(txs@) == self@.transactions,
    {
        &self.transactions
    }

    /// The hash of the block this one follows; empty for the genesis block.
    pub fn prev_hash(&self) -> (s: &str)
        ensures
            s@ == self@.prev_hash,
    {
        self.prev_hash.as_str()
    }

    /// The block's own hash.
    pub fn hash(&self) -> (s: &str)
        ensures
            s@ == self@.hash,
    {
        self.hash.as_str()
    }
}

} // verus!
