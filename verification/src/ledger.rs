//! The ledger: the chain head and the account balances, kept in a store and
//! moved forward one block at a time.

use vstd::prelude::*;
use vstd::bytes::*;
use vstd::string::*;
use vstd::utf8::*;
use crate::block::{block_of, txs_view, Block, BlockView};
use crate::codec::{decode_u64, encode_u64, now_millis, parse_u64, str_eq, u64_bytes, utf8_string};
use crate::store::{apply_puts, found_view, lookup, DBKey, Store, StoreError, WriteBatch};
use crate::transaction::{coinbase_view, genesis_account, Transaction, TransactionView, COINBASE_VALUE};

verus! {

/// Why a ledger operation failed.
#[derive(Debug)]
pub enum LedgerError {
    /// The store failed to read or write.
    Store(StoreError),
    /// A stored value does not have the form it was written in.
    Corrupt,
    /// A receiver's balance would exceed `u64::MAX`.
    Overflow,
}

/// The mathematical value of a ledger: the cached head and what the store
/// holds.
pub struct LedgerView {
    pub head: Seq<char>,
    pub store: Map<Seq<u8>, Seq<u8>>,
}

/// The key under which the head is stored.
pub open spec fn head_key() -> Seq<u8> {
    encode_utf8("curr_hash"@)
}

/// The key under which an account's balance is stored.
pub open spec fn account_key(account: Seq<char>) -> Seq<u8> {
    encode_utf8(account)
}

/// The balance that a stored value stands for: `0` where nothing is stored,
/// nothing where the stored bytes cannot be decoded.
pub open spec fn balance_of(stored: Option<Seq<u8>>) -> Option<u64> {
    match stored {
        None => Some(0),
        Some(bytes) => parse_u64(bytes),
    }
}

/// The balance of `account` in the store `m`.
pub open spec fn balance_at(m: Map<Seq<u8>, Seq<u8>>, account: Seq<char>) -> Option<u64> {
    balance_of(lookup(m, account_key(account)))
}

/// The writes that one transaction stages against the store `m`: both new
/// balances where the sender can pay, nothing where it cannot.
pub open spec fn tx_effect(m: Map<Seq<u8>, Seq<u8>>, tx: TransactionView) -> Result<
    Seq<(Seq<u8>, Seq<u8>)>,
    LedgerError,
> {
    match balance_at(m, tx.from) {
        None => Err(LedgerError::Corrupt),
        Some(from) => if from < tx.value {
            Ok(Seq::empty())
        } else {
            match balance_at(m, tx.to) {
                None => Err(LedgerError::Corrupt),
                Some(to) => if to + tx.value > u64::MAX {
                    Err(LedgerError::Overflow)
                } else {
                    Ok(
                        seq![
                            (account_key(tx.from), u64_bytes((from - tx.value) as u64)),
                            (account_key(tx.to), u64_bytes((to + tx.value) as u64)),
                        ],
                    )
                },
            }
        },
    }
}

/// The writes that a run of transactions stages, each read against the same
/// store `m`; the first transaction that cannot be staged decides the error.
pub open spec fn txs_effect(m: Map<Seq<u8>, Seq<u8>>, txs: Seq<TransactionView>) -> Result<
    Seq<(Seq<u8>, Seq<u8>)>,
    LedgerError,
>
    decreases txs.len(),
{
    if txs.len() == 0 {
        Ok(Seq::empty())
    } else {
        match txs_effect(m, txs.drop_last()) {
            Err(e) => Err(e),
            Ok(puts) => match tx_effect(m, txs.last()) {
                Err(e) => Err(e),
                Ok(more) => Ok(puts + more),
            },
        }
    }
}

/// The mint that a block without predecessor stages.
pub open spec fn genesis_puts(prev_hash: Seq<char>) -> Seq<(Seq<u8>, Seq<u8>)> {
    if prev_hash.len() == 0 {
        seq![(account_key(genesis_account()), u64_bytes(COINBASE_VALUE))]
    } else {
        Seq::empty()
    }
}

/// The batch that a block stages against the store `m`: the genesis mint if
/// it is the first block, its transactions' writes, and last the new head.
pub open spec fn block_effect(m: Map<Seq<u8>, Seq<u8>>, block: BlockView) -> Result<
    Seq<(Seq<u8>, Seq<u8>)>,
    LedgerError,
> {
    match txs_effect(m, block.transactions) {
        Err(e) => Err(e),
        Ok(puts) => Ok(
            (genesis_puts(block.prev_hash) + puts).push((head_key(), encode_utf8(block.hash))),
        ),
    }
}

/// Whether a commit of `block` in state `s` takes effect: the block follows
/// the head, its batch can be staged, and the store wrote it (`written`).
pub open spec fn accepted(s: LedgerView, block: BlockView, written: bool) -> bool {
    s.head == block.prev_hash && block_effect(s.store, block) is Ok && written
}

/// The state after a commit of `block` in state `s`.
pub open spec fn commit_result(s: LedgerView, block: BlockView, written: bool) -> LedgerView {
    if accepted(s, block, written) {
        LedgerView {
            head: block.hash,
            store: apply_puts(s.store, block_effect(s.store, block)->Ok_0),
        }
    } else {
        s
    }
}

/// Whether the store holds the head that the ledger caches.
pub open spec fn persisted(s: LedgerView) -> bool {
    lookup(s.store, head_key()) == Some(encode_utf8(s.head))
}

/// The first block of a chain started at `timestamp`.
pub open spec fn genesis_block(timestamp: u64) -> BlockView {
    block_of(timestamp, seq![coinbase_view()], Seq::empty())
}

/// The state in which a ledger starts on the store `m`: at the stored head
/// where there is one, else after the genesis block stamped `timestamp`.
pub open spec fn open_result(m: Map<Seq<u8>, Seq<u8>>, timestamp: u64) -> Result<
    LedgerView,
    LedgerError,
> {
    match lookup(m, head_key()) {
        Some(bytes) => if valid_utf8(bytes) {
            Ok(LedgerView { head: decode_utf8(bytes), store: m })
        } else {
            Err(LedgerError::Corrupt)
        },
        None => match block_effect(m, genesis_block(timestamp)) {
            Err(e) => Err(e),
            Ok(puts) => Ok(
                LedgerView { head: genesis_block(timestamp).hash, store: apply_puts(m, puts) },
            ),
        },
    }
}

/// Once a prefix of the transactions cannot be staged, neither can the whole.
pub proof fn lemma_txs_effect_prefix_fails(
    m: Map<Seq<u8>, Seq<u8>>,
    txs: Seq<TransactionView>,
    n: int,
)
    requires
        0 <= n <= txs.len(),
        txs_effect(m, txs.take(n)) is Err,
    ensures
        txs_effect(m, txs) == txs_effect(m, txs.take(n)),
    decreases txs.len(),
{
    if n == txs.len() {
        assert(txs.take(n) =~= txs);
    } else {
        assert(txs.drop_last().take(n) =~= txs.take(n));
        lemma_txs_effect_prefix_fails(m, txs.drop_last(), n);
    }
}

/// Decodes what a read of a balance handed back.
pub fn decode_balance(found: Option<Vec<u8>>) -> (r: Result<u64, LedgerError>)
    ensures
        match r {
            Ok(v) => balance_of(found_view(found)) == Some(v),
            Err(e) => e is Corrupt && balance_of(found_view(found)) is None,
        },
{
    match found {
        None => Ok(0),
        Some(bytes) => match decode_u64(bytes.as_slice()) {
            Some(v) => Ok(v),
            None => Err(LedgerError::Corrupt),
        },
    }
}

/// A chain head and account balances over a store `S`.
///
/// A ledger has a single writer: it takes no lock, and callers that share
/// one must take turns.
pub struct Ledger<S: Store> {
    store: S,
    curr_hash: String,
}

impl<S: Store> View for Ledger<S> {
    type V = LedgerView;

    closed spec fn view(&self) -> LedgerView {
        LedgerView { head: self.curr_hash@, store: self.store.contents() }
    }
}

impl<S: Store> Ledger<S> {
    /// Whether the store's reads and writes are sure to succeed.
    pub closed spec fn dependable(&self) -> bool {
        self.store.dependable()
    }

    /// Starts a ledger on `store`: at the stored head where there is one,
    /// else by committing a genesis block stamped with the current time.
    pub fn new(store: S) -> (r: Result<Self, LedgerError>)
        ensures
            match r {
                Ok(ledger) => persisted(ledger@) && exists|timestamp: u64|
                    open_result(store.contents(), timestamp) == Ok::<LedgerView, LedgerError>(
                        ledger@,
                    ),
                Err(e) => e is Store || exists|timestamp: u64|
                    open_result(store.contents(), timestamp) == Err::<LedgerView, LedgerError>(e),
            },
            store.dependable() ==> !(r matches Err(LedgerError::Store(_))),
            store.dependable() ==> (r matches Ok(ledger) ==> ledger.dependable()),
    {
        Ledger::open_at(store, now_millis())
    }

    /// Starts a ledger on `store`: at the stored head where there is one,
    /// else by committing a genesis block stamped `timestamp`.
    pub fn open_at(store: S, timestamp: u64) -> (r: Result<Self, LedgerError>)
        ensures
            match r {
                Ok(ledger) => persisted(ledger@) && open_result(store.contents(), timestamp)
                    == Ok::<LedgerView, LedgerError>(ledger@),
                Err(e) => e is Store || open_result(store.contents(), timestamp) == Err::<
                    LedgerView,
                    LedgerError,
                >(e),
            },
            store.dependable() ==> !(r matches Err(LedgerError::Store(_))),
            store.dependable() ==> (r matches Ok(ledger) ==> ledger.dependable()),
    {
        broadcast use decode_utf8_encode_utf8;

        match store.get(&DBKey::from_str("curr_hash")) {
            Err(e) => Err(LedgerError::Store(e)),
            Ok(Some(bytes)) => {
                match utf8_string(bytes) {
                    Some(head) => Ok(Ledger { store, curr_hash: head }),
                    None => Err(LedgerError::Corrupt),
                }
            },
            Ok(None) => {
                let mut ledger = Ledger { store, curr_hash: String::new() };
                let mut txs: Vec<Transaction> = Vec::new();
                txs.push(Transaction::coinbase());
                let block = Block::at(timestamp, txs, "");
                proof {
                    reveal_strlit("");
                    assert(""@ =~= Seq::<char>::empty());
                    assert(txs_view(txs@) =~= seq![coinbase_view()]);
                    assert(block@ == genesis_block(timestamp));
                }
                match ledger.commit(&block) {
                    Ok(()) => Ok(ledger),
                    Err(e) => Err(e),
                }
            },
        }
    }

    /// The hash of the block committed last.
    pub fn curr_hash(&self) -> (head: &str)
        ensures
            head@ == self@.head,
    {
        self.curr_hash.as_str()
    }

    /// The store the ledger writes to.
    pub fn store(&self) -> (store: &S)
        ensures
            store.contents() == self@.store,
            store.dependable() == self.dependable(),
    {
        &self.store
    }

    /// Gives the store back.
    pub fn into_store(self) -> (store: S)
        ensures
            store.contents() == self@.store,
            store.dependable() == self.dependable(),
    {
        self.store
    }

    /// The balance of `account`, read from the store; `0` for an account
    /// that was never written.
    pub fn balance(&self, account: &str) -> (r: Result<u64, LedgerError>)
        ensures
            match r {
                Ok(v) => balance_at(self@.store, account@) == Some(v),
                Err(e) => e is Store || (e is Corrupt && balance_at(self@.store, account@)
                    is None),
            },
            !self@.store.contains_key(account_key(account@)) ==> (r matches Ok(v) ==> v == 0),
            self.dependable() ==> !(r matches Err(LedgerError::Store(_))),
    {
        match self.store.get(&DBKey::from_str(account)) {
            Ok(found) => decode_balance(found),
            Err(e) => Err(LedgerError::Store(e)),
        }
    }

    /// Commits `block` if it follows the current head: stages its batch
    /// against the balances as stored, writes the batch durably as one unit
    /// and moves the head. A block that does not follow the head is dropped,
    /// which is no error. On any error nothing has changed.
    pub fn commit(&mut self, block: &Block) -> (r: Result<(), LedgerError>)
        ensures
            final(self)@ == commit_result(old(self)@, block@, r is Ok),
            old(self)@.head != block@.prev_hash ==> r is Ok,
            old(self)@.head == block@.prev_hash ==> match r {
                Ok(()) => block_effect(old(self)@.store, block@) is Ok && persisted(final(self)@),
                Err(e) => e is Store || block_effect(old(self)@.store, block@) == Err::<
                    Seq<(Seq<u8>, Seq<u8>)>,
                    LedgerError,
                >(e),
            },
            r is Err ==> final(self)@ == old(self)@,
            persisted(old(self)@) ==> persisted(final(self)@),
            old(self).dependable() ==> !(r matches Err(LedgerError::Store(_))),
            old(self).dependable() ==> final(self).dependable(),
    {
        if !str_eq(self.curr_hash.as_str(), block.prev_hash()) {
            return Ok(());
        }
        let ghost m = self@.store;
        let ghost all = block@.transactions;
        let mut batch = WriteBatch::new();
        if block.prev_hash().is_empty() {
            let mint = encode_u64(COINBASE_VALUE);
            batch.put(DBKey::from_str("a"), mint.as_slice());
        }
        assert(batch@ =~= genesis_puts(block@.prev_hash));
        let txs = block.transactions();
        let ghost mut staged: Seq<(Seq<u8>, Seq<u8>)> = Seq::empty();
        let mut i: usize = 0;
        assert(all.take(0) =~= Seq::<TransactionView>::empty());
        while i < txs.len()
            invariant
                i <= txs.len(),
                *self == *old(self),
                self@.head == block@.prev_hash,
                m == self@.store,
                all == block@.transactions,
                all == txs_view(txs@),
                txs_effect(m, all.take(i as int)) == Ok::<Seq<(Seq<u8>, Seq<u8>)>, LedgerError>(
                    staged,
                ),
                batch@ == genesis_puts(block@.prev_hash) + staged,
            decreases txs.len() - i,
        {
            let tx = &txs[i];
            proof {
                assert(all.take(i + 1).drop_last() =~= all.take(i as int));
                assert(all.take(i + 1).last() == tx@);
            }
            let from = match self.balance(tx.from()) {
                Ok(v) => v,
                Err(e) => {
                    proof {
                        if !(e is Store) {
                            lemma_txs_effect_prefix_fails(m, all, i + 1);
                        }
                    }
                    return Err(e);
                },
            };
            if from >= tx.value() {
                let to = match self.balance(tx.to()) {
                    Ok(v) => v,
                    Err(e) => {
                        proof {
                            if !(e is Store) {
                                lemma_txs_effect_prefix_fails(m, all, i + 1);
                            }
                        }
                        return Err(e);
                    },
                };
                if to > u64::MAX - tx.value() {
                    proof {
                        lemma_txs_effect_prefix_fails(m, all, i + 1);
                    }
                    return Err(LedgerError::Overflow);
                }
                let new_from = encode_u64(from - tx.value());
                let new_to = encode_u64(to + tx.value());
                batch.put(DBKey::from_str(tx.from()), new_from.as_slice());
                batch.put(DBKey::from_str(tx.to()), new_to.as_slice());
                proof {
                    staged = staged + tx_effect(m, tx@)->Ok_0;
                }
                assert(batch@ =~= genesis_puts(block@.prev_hash) + staged);
            } else {
                proof {
                    assert(staged + tx_effect(m, tx@)->Ok_0 =~= staged);
                }
            }
            i = i + 1;
        }
        assert(all.take(i as int) =~= all);
        batch.put(DBKey::from_str("curr_hash"), block.hash().as_bytes());
        assert(block_effect(m, block@) == Ok::<Seq<(Seq<u8>, Seq<u8>)>, LedgerError>(batch@));
        match self.store.write_batch(&batch, true) {
            Ok(()) => {
                self.curr_hash = block.hash().to_string();
                assert(batch@.drop_last().len() + 1 == batch@.len());
                Ok(())
            },
            Err(e) => Err(LedgerError::Store(e)),
        }
    }
}

} // verus!
