//! Transfer records.

use vstd::prelude::*;
use vstd::string::*;
use crate::codec::{append_bytes, encode_str, encode_u64, hex_digest, sha256_hex, str_bytes, u64_bytes};

verus! {

/// The amount minted to the genesis account.
pub const COINBASE_VALUE: u64 = 100000000000;

/// The account that receives the genesis mint.
pub open spec fn genesis_account() -> Seq<char> {
    "a"@
}

/// The mathematical value of a `Transaction`.
pub struct TransactionView {
    pub from: Seq<char>,
    pub to: Seq<char>,
    pub value: u64,
}

/// The canonical encoding of a transaction: sender, receiver and amount, each
/// in its canonical encoding, in that order.
pub open spec fn tx_bytes(tx: TransactionView) -> Seq<u8> {
    str_bytes(tx.from) + str_bytes(tx.to) + u64_bytes(tx.value)
}

/// The minting transaction: no sender, the genesis account as receiver.
pub open spec fn coinbase_view() -> TransactionView {
    TransactionView { from: Seq::empty(), to: genesis_account(), value: COINBASE_VALUE }
}

/// An immutable transfer of `value` units from one account to another.
#[derive(Debug, Clone)]
pub struct Transaction {
    from: String,
    to: String,
    value: u64,
}

impl View for Transaction {
    type V = TransactionView;

    closed spec fn view(&self) -> TransactionView {
        TransactionView { from: self.from@, to: self.to@, value: self.value }
    }
}

impl Transaction {
    /// A transfer record. Nothing is checked here: whether the sender can
    /// pay is decided when a block is committed.
    pub fn new(from: String, to: String, value: u64) -> (tx: Self)
        ensures
            tx@ == (TransactionView { from: from@, to: to@, value }),
    {
        Transaction { from, to, value }
    }

    /// The minting transaction of the genesis block.
    pub fn coinbase() -> (tx: Self)
        ensures
            tx@ == coinbase_view(),
    {
        let from = String::new();
        let to = "a".to_string();
        Transaction { from, to, value: COINBASE_VALUE }
    }

    /// The sending account.
    pub fn from(&self) -> (s: &str)
        ensures
            s@ == self@.from,
    {
        self.from.as_str()
    }

    /// The receiving account.
    pub fn to(&self) -> (s: &str)
        ensures
            s@ == self@.to,
    {
        self.to.as_str()
    }

    /// The amount moved.
    pub fn value(&self) -> (v: u64)
        ensures
            v == self@.value,
    {
        self.value
    }

    /// The canonical byte encoding.
    pub fn encode(&self) -> (out: Vec<u8>)
        ensures
            out@ == tx_bytes(self@),
    {
        let mut out = encode_str(self.from.as_str());
        let to = encode_str(self.to.as_str());
        append_bytes(&mut out, to.as_slice());
        let value = encode_u64(self.value);
        append_bytes(&mut out, value.as_slice());
        out
    }

    /// The content hash: the SHA-256 digest of the canonical encoding, in
    /// lower-case hexadecimal.
    pub fn hash(&self) -> (out: String)
        ensures
            out@ == sha256_hex(tx_bytes(self@)),
    {
        let bytes = self.encode();
        hex_digest(bytes.as_slice())
    }
}

} // verus!
