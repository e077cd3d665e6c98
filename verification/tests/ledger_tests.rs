use ledger::block::Block;
use ledger::codec::{bytes_eq, millis, now_millis, str_eq, u64_be_bytes};
use ledger::ledger::{decode_balance, Ledger, LedgerError};
use ledger::store::{DBKey, MemStore, Store, StoreError, WriteBatch};
use ledger::transaction::{Transaction, COINBASE_VALUE};

const GENESIS_AT_1000: &str = "edcfb9cdc6478614043effe1d290d0fb82202d7dc62d3d03e1f7757954b4d4af";
const GENESIS_AT_2000: &str = "4c7e4bf12f12a8dbcf6eebdaa66d36ea7acae7648adb4661e9aa50188591d58d";

fn tx(from: &str, to: &str, value: u64) -> Transaction {
    Transaction::new(from.to_string(), to.to_string(), value)
}

fn fresh() -> Ledger<MemStore> {
    Ledger::open_at(MemStore::new(), 1000).unwrap()
}

fn store_with(key: &[u8], value: &[u8]) -> MemStore {
    let mut store = MemStore::new();
    let mut batch = WriteBatch::new();
    batch.put(DBKey::from_u8(key), value);
    store.write_batch(&batch, true).unwrap();
    store
}

fn stored(ledger: &Ledger<MemStore>, key: &[u8]) -> Option<Vec<u8>> {
    ledger.store().get(&DBKey::from_u8(key)).unwrap()
}

#[test]
fn transaction_new_keeps_its_fields() {
    let t = tx("alice", "bob", 42);
    assert_eq!(t.from(), "alice");
    assert_eq!(t.to(), "bob");
    assert_eq!(t.value(), 42);
}

#[test]
fn coinbase_mints_to_the_genesis_account() {
    let t = Transaction::coinbase();
    assert_eq!(t.from(), "");
    assert_eq!(t.to(), "a");
    assert_eq!(t.value(), 100000000000);
    assert_eq!(COINBASE_VALUE, 100000000000);
}

#[test]
fn transaction_encoding_is_length_prefixed_little_endian() {
    let bytes = tx("a", "b", 1000).encode();
    assert_eq!(
        bytes,
        vec![1, 0, 0, 0, 0, 0, 0, 0, 97, 1, 0, 0, 0, 0, 0, 0, 0, 98, 232, 3, 0, 0, 0, 0, 0, 0]
    );
}

#[test]
fn transaction_encoding_counts_bytes_not_chars() {
    let bytes = tx("é", "b", 7).encode();
    assert_eq!(
        bytes,
        vec![
            2, 0, 0, 0, 0, 0, 0, 0, 195, 169, 1, 0, 0, 0, 0, 0, 0, 0, 98, 7, 0, 0, 0, 0, 0, 0, 0
        ]
    );
}

#[test]
fn transaction_hash_is_hex_sha256_of_the_encoding() {
    assert_eq!(
        tx("a", "b", 1000).hash(),
        "6c7ee121ad5a4e03e61566f51d30b1bb41cd16856d1aaa65b0321bb9cc63b364"
    );
    assert_eq!(
        Transaction::coinbase().hash(),
        "735df1c5dad73ffac6978afb696af47f3c36183e7994e6ed68b6a2ee89607f66"
    );
}

#[test]
fn block_hash_folds_timestamp_transactions_and_previous_hash() {
    let genesis = Block::at(1000, vec![Transaction::coinbase()], "");
    assert_eq!(genesis.hash(), GENESIS_AT_1000);
    assert_eq!(genesis.prev_hash(), "");
    assert_eq!(genesis.timestamp(), 1000);
    assert_eq!(genesis.transactions().len(), 1);
    let next = Block::at(5000, vec![tx("a", "b", 1000)], GENESIS_AT_1000);
    assert_eq!(
        next.hash(),
        "f944b1ed77c1ee016aa24047b04c952f2acd52692a951821dd728a75702b76c7"
    );
    assert_eq!(next.prev_hash(), GENESIS_AT_1000);
}

#[test]
fn block_hash_of_an_empty_block() {
    let block = Block::at(0, Vec::new(), "");
    assert_eq!(
        block.hash(),
        "af5570f5a1810b7af78caf4bc70a660f0df51e42baf91d4de5b2328de0e83dfc"
    );
}

#[test]
fn block_hash_uses_big_endian_timestamp_and_utf8_bytes() {
    let block = Block::at(0x0102030405060708, vec![tx("é", "b", 7)], "é");
    assert_eq!(
        block.hash(),
        "ba9b66c9f8c416025551b0d1166cc7b60d204653da636d70d1a67c3e0982249d"
    );
}

#[test]
fn block_new_stamps_the_current_time() {
    let before = now_millis();
    let block = Block::new(vec![tx("a", "b", 1)], "prev");
    let after = now_millis();
    assert!(before > 1_500_000_000_000);
    assert!(before <= block.timestamp() && block.timestamp() <= after);
    let again = Block::at(block.timestamp(), vec![tx("a", "b", 1)], "prev");
    assert_eq!(block.hash(), again.hash());
}

#[test]
fn millis_combines_seconds_and_nanoseconds() {
    assert_eq!(millis(0, 0), 0);
    assert_eq!(millis(1, 999_999), 1000);
    assert_eq!(millis(12, 345_678_901), 12_345);
    assert_eq!(millis(u64::MAX / 1000, 0), u64::MAX / 1000 * 1000);
    assert_eq!(millis(u64::MAX / 1000 + 1, 0), u64::MAX);
    assert_eq!(millis(u64::MAX, 999_999_999), u64::MAX);
}

#[test]
fn big_endian_bytes_of_a_timestamp() {
    assert_eq!(u64_be_bytes(0x0102030405060708), vec![1, 2, 3, 4, 5, 6, 7, 8]);
    assert_eq!(u64_be_bytes(1000), vec![0, 0, 0, 0, 0, 0, 3, 232]);
}

#[test]
fn byte_and_string_equality() {
    assert!(bytes_eq(b"abc", b"abc"));
    assert!(!bytes_eq(b"abc", b"abd"));
    assert!(!bytes_eq(b"abc", b"ab"));
    assert!(bytes_eq(b"", b""));
    assert!(str_eq("head", "head"));
    assert!(!str_eq("head", "tail"));
}

#[test]
fn keys_are_the_bytes_given() {
    assert_eq!(DBKey::from_u8(&[1, 2, 3]).as_slice(), &[1, 2, 3]);
    assert_eq!(DBKey::from_u8(b"").as_slice(), b"");
    assert_eq!(DBKey::from_str("curr_hash").as_slice(), b"curr_hash");
    assert_eq!(DBKey::from_str("é").as_slice(), &[195, 169]);
}

#[test]
fn write_batch_keeps_its_writes_in_order() {
    let mut batch = WriteBatch::new();
    assert_eq!(batch.len(), 0);
    batch.put(DBKey::from_u8(b"k1"), b"v1");
    batch.put(DBKey::from_u8(b"k2"), b"v2");
    assert_eq!(batch.len(), 2);
    assert_eq!(batch.key(0), b"k1");
    assert_eq!(batch.value(0), b"v1");
    assert_eq!(batch.key(1), b"k2");
    assert_eq!(batch.value(1), b"v2");
}

#[test]
fn mem_store_later_write_wins() {
    let mut store = MemStore::new();
    assert_eq!(store.get(&DBKey::from_u8(b"k")).unwrap(), None);
    let mut batch = WriteBatch::new();
    batch.put(DBKey::from_u8(b"k"), b"one");
    batch.put(DBKey::from_u8(b"other"), b"x");
    batch.put(DBKey::from_u8(b"k"), b"two");
    store.write_batch(&batch, false).unwrap();
    assert_eq!(store.get(&DBKey::from_u8(b"k")).unwrap(), Some(b"two".to_vec()));
    assert_eq!(store.get(&DBKey::from_u8(b"other")).unwrap(), Some(b"x".to_vec()));
    assert_eq!(store.get(&DBKey::from_u8(b"missing")).unwrap(), None);
}

#[test]
fn mem_store_refuses_whole_batches_when_failing() {
    let mut store = store_with(b"k", b"old");
    store.set_failing(true);
    let mut batch = WriteBatch::new();
    batch.put(DBKey::from_u8(b"k"), b"new");
    batch.put(DBKey::from_u8(b"j"), b"new");
    assert!(store.write_batch(&batch, true).is_err());
    assert_eq!(store.get(&DBKey::from_u8(b"k")).unwrap(), Some(b"old".to_vec()));
    assert_eq!(store.get(&DBKey::from_u8(b"j")).unwrap(), None);
    store.set_failing(false);
    assert!(store.write_batch(&batch, true).is_ok());
    assert_eq!(store.get(&DBKey::from_u8(b"k")).unwrap(), Some(b"new".to_vec()));
}

#[test]
fn decode_balance_reads_little_endian_and_defaults_to_zero() {
    assert_eq!(decode_balance(None).unwrap(), 0);
    assert_eq!(decode_balance(Some(vec![232, 3, 0, 0, 0, 0, 0, 0])).unwrap(), 1000);
    assert_eq!(decode_balance(Some(vec![0, 1, 0, 0, 0, 0, 0, 0, 9, 9])).unwrap(), 256);
    assert!(matches!(decode_balance(Some(vec![1, 2, 3])), Err(LedgerError::Corrupt)));
    assert!(matches!(decode_balance(Some(Vec::new())), Err(LedgerError::Corrupt)));
}

#[test]
fn genesis_seeds_the_mint_and_the_head() {
    let ledger = fresh();
    assert_eq!(ledger.curr_hash(), GENESIS_AT_1000);
    assert_eq!(ledger.balance("a").unwrap(), 100000000000);
    assert_eq!(stored(&ledger, b"curr_hash"), Some(GENESIS_AT_1000.as_bytes().to_vec()));
    assert_eq!(stored(&ledger, b"a"), Some(vec![0, 232, 118, 72, 23, 0, 0, 0]));
    assert_eq!(stored(&ledger, b""), None);
}

#[test]
fn transfer_then_stale_block() {
    let mut ledger = fresh();
    let genesis = ledger.curr_hash().to_string();
    let block = Block::at(5000, vec![tx("a", "b", 1000)], &genesis);
    ledger.commit(&block).unwrap();
    assert_eq!(ledger.balance("a").unwrap(), 99999999000);
    assert_eq!(ledger.balance("b").unwrap(), 1000);
    assert_eq!(ledger.curr_hash(), block.hash());
    let stale = Block::at(6000, vec![tx("a", "b", 500)], &genesis);
    assert!(ledger.commit(&stale).is_ok());
    assert_eq!(ledger.balance("a").unwrap(), 99999999000);
    assert_eq!(ledger.balance("b").unwrap(), 1000);
    assert_eq!(ledger.curr_hash(), block.hash());
}

#[test]
fn head_follows_the_last_accepted_block() {
    let mut ledger = fresh();
    let genesis = ledger.curr_hash().to_string();
    let first = Block::at(1, vec![tx("a", "b", 1)], &genesis);
    let second = Block::at(2, vec![tx("a", "c", 1)], first.hash());
    let unrelated = Block::at(3, vec![tx("a", "d", 1)], "nowhere");
    ledger.commit(&unrelated).unwrap();
    assert_eq!(ledger.curr_hash(), genesis);
    ledger.commit(&second).unwrap();
    assert_eq!(ledger.curr_hash(), genesis);
    ledger.commit(&first).unwrap();
    assert_eq!(ledger.curr_hash(), first.hash());
    ledger.commit(&second).unwrap();
    assert_eq!(ledger.curr_hash(), second.hash());
    ledger.commit(&unrelated).unwrap();
    ledger.commit(&first).unwrap();
    assert_eq!(ledger.curr_hash(), second.hash());
    assert_eq!(stored(&ledger, b"curr_hash"), Some(second.hash().as_bytes().to_vec()));
    assert_eq!(ledger.balance("d").unwrap(), 0);
}

#[test]
fn committing_a_block_twice_applies_it_once() {
    let mut ledger = fresh();
    let block = Block::at(7, vec![tx("a", "b", 250)], ledger.curr_hash());
    ledger.commit(&block).unwrap();
    ledger.commit(&block).unwrap();
    assert_eq!(ledger.balance("a").unwrap(), 100000000000 - 250);
    assert_eq!(ledger.balance("b").unwrap(), 250);
    assert_eq!(ledger.curr_hash(), block.hash());
}

#[test]
fn funded_transfers_conserve_the_total() {
    let mut ledger = fresh();
    let accounts = ["a", "b", "c", "d"];
    let steps = [("a", "b", 600), ("b", "c", 200), ("c", "d", 500), ("b", "a", 400), ("d", "a", 1)];
    for (n, (from, to, value)) in steps.iter().enumerate() {
        let block = Block::at(n as u64, vec![tx(from, to, *value)], ledger.curr_hash());
        ledger.commit(&block).unwrap();
        let total: u64 = accounts.iter().map(|acct| ledger.balance(acct).unwrap()).sum();
        assert_eq!(total, 100000000000);
    }
    assert_eq!(ledger.balance("a").unwrap(), 100000000000 - 600 + 400);
    assert_eq!(ledger.balance("b").unwrap(), 0);
    assert_eq!(ledger.balance("c").unwrap(), 200);
    assert_eq!(ledger.balance("d").unwrap(), 0);
}

#[test]
fn underfunded_transfer_is_skipped_and_the_block_still_commits() {
    let mut ledger = fresh();
    let block = Block::at(9, vec![tx("b", "c", 5), tx("a", "c", 10)], ledger.curr_hash());
    ledger.commit(&block).unwrap();
    assert_eq!(ledger.curr_hash(), block.hash());
    assert_eq!(ledger.balance("b").unwrap(), 0);
    assert_eq!(stored(&ledger, b"b"), None);
    assert_eq!(ledger.balance("c").unwrap(), 10);
    assert_eq!(ledger.balance("a").unwrap(), 100000000000 - 10);
}

#[test]
fn transfers_in_one_block_read_the_balances_before_the_block() {
    let mut ledger = fresh();
    let block = Block::at(9, vec![tx("a", "b", 100), tx("b", "c", 50), tx("a", "c", 30)], ledger.curr_hash());
    ledger.commit(&block).unwrap();
    assert_eq!(ledger.balance("b").unwrap(), 100);
    assert_eq!(ledger.balance("c").unwrap(), 30);
    assert_eq!(ledger.balance("a").unwrap(), 100000000000 - 30);
}

#[test]
fn transfer_of_the_exact_balance_empties_the_sender() {
    let mut ledger = fresh();
    let block = Block::at(1, vec![tx("a", "b", 100000000000)], ledger.curr_hash());
    ledger.commit(&block).unwrap();
    assert_eq!(ledger.balance("a").unwrap(), 0);
    assert_eq!(ledger.balance("b").unwrap(), 100000000000);
    assert_eq!(stored(&ledger, b"a"), Some(vec![0; 8]));
}

#[test]
fn unwritten_account_reads_zero() {
    let ledger = fresh();
    assert_eq!(ledger.balance("nobody").unwrap(), 0);
    assert_eq!(ledger.balance("").unwrap(), 0);
    assert_eq!(ledger.balance("b").unwrap(), 0);
}

#[test]
fn failed_write_changes_neither_balances_nor_head() {
    let ledger = fresh();
    let genesis = ledger.curr_hash().to_string();
    let mut store = ledger.into_store();
    store.set_failing(true);
    let mut ledger = Ledger::open_at(store, 9999).unwrap();
    assert_eq!(ledger.curr_hash(), genesis);
    let block = Block::at(5000, vec![tx("a", "b", 1000)], &genesis);
    assert!(matches!(ledger.commit(&block), Err(LedgerError::Store(_))));
    assert_eq!(ledger.curr_hash(), genesis);
    assert_eq!(ledger.balance("a").unwrap(), 100000000000);
    assert_eq!(ledger.balance("b").unwrap(), 0);
    assert_eq!(stored(&ledger, b"curr_hash"), Some(genesis.as_bytes().to_vec()));
    let mut store = ledger.into_store();
    store.set_failing(false);
    let mut ledger = Ledger::open_at(store, 9999).unwrap();
    ledger.commit(&block).unwrap();
    assert_eq!(ledger.curr_hash(), block.hash());
    assert_eq!(ledger.balance("b").unwrap(), 1000);
}

#[test]
fn genesis_fails_on_a_store_that_refuses_writes() {
    let mut store = MemStore::new();
    store.set_failing(true);
    assert!(matches!(Ledger::open_at(store, 1000), Err(LedgerError::Store(_))));
}

#[test]
fn genesis_head_depends_on_the_timestamp_alone() {
    let one = Ledger::open_at(MemStore::new(), 1000).unwrap();
    let two = Ledger::open_at(MemStore::new(), 1000).unwrap();
    let later = Ledger::open_at(MemStore::new(), 2000).unwrap();
    assert_eq!(one.curr_hash(), two.curr_hash());
    assert_eq!(one.curr_hash(), GENESIS_AT_1000);
    assert_eq!(later.curr_hash(), GENESIS_AT_2000);
    assert_ne!(one.curr_hash(), later.curr_hash());
}

#[test]
fn reopening_keeps_the_stored_head() {
    let mut ledger = fresh();
    let block = Block::at(5000, vec![tx("a", "b", 1000)], ledger.curr_hash());
    ledger.commit(&block).unwrap();
    let reopened = Ledger::open_at(ledger.into_store(), 77).unwrap();
    assert_eq!(reopened.curr_hash(), block.hash());
    assert_eq!(reopened.balance("a").unwrap(), 99999999000);
}

#[test]
fn new_starts_a_chain_on_an_empty_store() {
    let ledger = Ledger::new(MemStore::new()).unwrap();
    assert_eq!(ledger.curr_hash().len(), 64);
    assert_eq!(ledger.balance("a").unwrap(), 100000000000);
    let reopened = Ledger::new(store_with(b"curr_hash", b"abc")).unwrap();
    assert_eq!(reopened.curr_hash(), "abc");
    assert_eq!(reopened.balance("a").unwrap(), 0);
}

#[test]
fn head_that_is_not_utf8_is_corrupt() {
    let store = store_with(b"curr_hash", &[0xff, 0xfe]);
    assert!(matches!(Ledger::open_at(store, 1), Err(LedgerError::Corrupt)));
}

#[test]
fn undecodable_balance_is_corrupt_and_stops_the_commit() {
    let mut store = store_with(b"b", &[1, 2, 3]);
    let mut batch = WriteBatch::new();
    batch.put(DBKey::from_u8(b"curr_hash"), b"h0");
    batch.put(DBKey::from_u8(b"a"), &[10, 0, 0, 0, 0, 0, 0, 0]);
    store.write_batch(&batch, true).unwrap();
    let mut ledger = Ledger::open_at(store, 1).unwrap();
    assert!(matches!(ledger.balance("b"), Err(LedgerError::Corrupt)));
    let block = Block::at(1, vec![tx("a", "c", 4), tx("a", "b", 1)], "h0");
    assert!(matches!(ledger.commit(&block), Err(LedgerError::Corrupt)));
    assert_eq!(ledger.curr_hash(), "h0");
    assert_eq!(ledger.balance("a").unwrap(), 10);
    assert_eq!(ledger.balance("c").unwrap(), 0);
}

#[test]
fn receiver_overflow_stops_the_commit() {
    let mut store = store_with(b"rich", &[0xff; 8]);
    let mut batch = WriteBatch::new();
    batch.put(DBKey::from_u8(b"curr_hash"), b"h0");
    batch.put(DBKey::from_u8(b"a"), &[10, 0, 0, 0, 0, 0, 0, 0]);
    store.write_batch(&batch, true).unwrap();
    let mut ledger = Ledger::open_at(store, 1).unwrap();
    assert_eq!(ledger.balance("rich").unwrap(), u64::MAX);
    let block = Block::at(1, vec![tx("a", "rich", 1)], "h0");
    assert!(matches!(ledger.commit(&block), Err(LedgerError::Overflow)));
    assert_eq!(ledger.curr_hash(), "h0");
    assert_eq!(ledger.balance("a").unwrap(), 10);
    let zero = Block::at(2, vec![tx("a", "rich", 0)], "h0");
    ledger.commit(&zero).unwrap();
    assert_eq!(ledger.curr_hash(), zero.hash());
    assert_eq!(ledger.balance("rich").unwrap(), u64::MAX);
}

#[test]
fn head_is_staged_after_the_balances() {
    let mut ledger = fresh();
    let block = Block::at(1, vec![tx("a", "curr_hash", 5)], ledger.curr_hash());
    ledger.commit(&block).unwrap();
    assert_eq!(stored(&ledger, b"curr_hash"), Some(block.hash().as_bytes().to_vec()));
    assert_eq!(ledger.curr_hash(), block.hash());
}

struct Recording {
    inner: MemStore,
    reads_fail: std::cell::Cell<bool>,
    batches: usize,
    synced: Vec<bool>,
}

impl Recording {
    fn new() -> Self {
        Recording {
            inner: MemStore::new(),
            reads_fail: std::cell::Cell::new(false),
            batches: 0,
            synced: Vec::new(),
        }
    }
}

impl Store for Recording {
    fn get(&self, key: &DBKey) -> Result<Option<Vec<u8>>, StoreError> {
        if self.reads_fail.get() {
            return Err(StoreError { message: "read refused".to_string() });
        }
        self.inner.get(key)
    }

    fn write_batch(&mut self, batch: &WriteBatch, sync: bool) -> Result<(), StoreError> {
        self.batches += 1;
        self.synced.push(sync);
        self.inner.write_batch(batch, sync)
    }
}

#[test]
fn each_accepted_block_is_one_durable_batch() {
    let mut ledger = Ledger::open_at(Recording::new(), 1000).unwrap();
    assert_eq!(ledger.store().batches, 1);
    let genesis = ledger.curr_hash().to_string();
    let block = Block::at(1, vec![tx("a", "b", 1), tx("a", "c", 2), tx("z", "c", 2)], &genesis);
    ledger.commit(&block).unwrap();
    assert_eq!(ledger.store().batches, 2);
    let stale = Block::at(2, vec![tx("a", "b", 1)], &genesis);
    ledger.commit(&stale).unwrap();
    assert_eq!(ledger.store().batches, 2);
    assert_eq!(ledger.store().synced, vec![true, true]);
}

#[test]
fn failed_read_is_a_store_error_and_changes_nothing() {
    let mut ledger = Ledger::open_at(Recording::new(), 1000).unwrap();
    let genesis = ledger.curr_hash().to_string();
    ledger.store().reads_fail.set(true);
    assert!(matches!(ledger.balance("a"), Err(LedgerError::Store(_))));
    let block = Block::at(1, vec![tx("a", "b", 1)], &genesis);
    assert!(matches!(ledger.commit(&block), Err(LedgerError::Store(_))));
    assert_eq!(ledger.curr_hash(), genesis);
    assert_eq!(ledger.store().batches, 1);
    ledger.store().reads_fail.set(false);
    assert_eq!(ledger.balance("a").unwrap(), 100000000000);
    assert_eq!(ledger.balance("b").unwrap(), 0);
    let store = ledger.into_store();
    store.reads_fail.set(true);
    assert!(matches!(Ledger::open_at(store, 1), Err(LedgerError::Store(_))));
}

#[test]
fn disjoint_transfers_in_one_block_conserve_the_total() {
    let mut ledger = fresh();
    let seed = Block::at(1, vec![tx("a", "c", 40)], ledger.curr_hash());
    ledger.commit(&seed).unwrap();
    let block = Block::at(
        2,
        vec![tx("a", "b", 500), tx("c", "d", 15), tx("e", "f", 1)],
        ledger.curr_hash(),
    );
    ledger.commit(&block).unwrap();
    assert_eq!(ledger.balance("a").unwrap(), 100000000000 - 540);
    assert_eq!(ledger.balance("b").unwrap(), 500);
    assert_eq!(ledger.balance("c").unwrap(), 25);
    assert_eq!(ledger.balance("d").unwrap(), 15);
    assert_eq!(ledger.balance("e").unwrap(), 0);
    assert_eq!(ledger.balance("f").unwrap(), 0);
    let total: u64 = ["a", "b", "c", "d", "e", "f"]
        .iter()
        .map(|acct| ledger.balance(acct).unwrap())
        .sum();
    assert_eq!(total, 100000000000);
}
