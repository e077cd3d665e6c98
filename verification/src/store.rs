//! The key-value store the ledger persists to: point reads and atomic
//! batches of writes over opaque byte strings.

use vstd::prelude::*;
use vstd::slice::*;
use vstd::string::*;
use vstd::utf8::*;
use crate::codec::bytes_eq;

verus! {

/// The store that results from `puts` applied to `m` in order: a later write
/// to a key replaces an earlier one.
pub open spec fn apply_puts(m: Map<Seq<u8>, Seq<u8>>, puts: Seq<(Seq<u8>, Seq<u8>)>) -> Map<
    Seq<u8>,
    Seq<u8>,
>
    decreases puts.len(),
{
    if puts.len() == 0 {
        m
    } else {
        apply_puts(m, puts.drop_last()).insert(puts.last().0, puts.last().1)
    }
}

/// What a point read of `key` finds in `m`.
pub open spec fn lookup(m: Map<Seq<u8>, Seq<u8>>, key: Seq<u8>) -> Option<Seq<u8>> {
    if m.contains_key(key) {
        Some(m[key])
    } else {
        None
    }
}

/// The byte string that a read handed back, if any.
pub open spec fn found_view(found: Option<Vec<u8>>) -> Option<Seq<u8>> {
    match found {
        Some(bytes) => Some(bytes@),
        None => None,
    }
}

/// The writes held by a vector of key-value pairs.
pub open spec fn puts_view(puts: Seq<(Vec<u8>, Vec<u8>)>) -> Seq<(Seq<u8>, Seq<u8>)> {
    puts.map_values(|p: (Vec<u8>, Vec<u8>)| (p.0@, p.1@))
}

/// A key that no write in `puts` touches keeps what it had in `m`.
pub proof fn lemma_apply_puts_miss(
    m: Map<Seq<u8>, Seq<u8>>,
    puts: Seq<(Seq<u8>, Seq<u8>)>,
    key: Seq<u8>,
)
    requires
        forall|j: int| 0 <= j < puts.len() ==> puts[j].0 != key,
    ensures
        lookup(apply_puts(m, puts), key) == lookup(m, key),
    decreases puts.len(),
{
    if puts.len() > 0 {
        lemma_apply_puts_miss(m, puts.drop_last(), key);
    }
}

/// A key holds the value of the last write to it in `puts`.
pub proof fn lemma_apply_puts_hit(
    m: Map<Seq<u8>, Seq<u8>>,
    puts: Seq<(Seq<u8>, Seq<u8>)>,
    key: Seq<u8>,
    i: int,
)
    requires
        0 <= i < puts.len(),
        puts[i].0 == key,
        forall|j: int| i < j < puts.len() ==> puts[j].0 != key,
    ensures
        lookup(apply_puts(m, puts), key) == Some(puts[i].1),
    decreases puts.len(),
{
    if i < puts.len() - 1 {
        lemma_apply_puts_hit(m, puts.drop_last(), key, i);
    }
}

/// A key of the store: an opaque byte string.
#[derive(Debug)]
pub struct DBKey(Vec<u8>);

impl View for DBKey {
    type V = Seq<u8>;

    closed spec fn view(&self) -> Seq<u8> {
        self.0@
    }
}

impl DBKey {
    /// The key made of the given bytes.
    pub fn from_u8(key: &[u8]) -> (k: Self)
        ensures
            k@ == key@,
    {
        DBKey(slice_to_vec(key))
    }

    /// The key made of the UTF-8 bytes of `key`.
    pub fn from_str(key: &str) -> (k: Self)
        ensures
            k@ == encode_utf8(key@),
    {
        DBKey(slice_to_vec(key.as_bytes()))
    }

    /// The key's bytes.
    pub fn as_slice(&self) -> (bytes: &[u8])
        ensures
            bytes@ == self@,
    {
        self.0.as_slice()
    }
}

/// A failure reported by the storage layer.
#[derive(Debug)]
pub struct StoreError {
    pub message: String,
}

/// An ordered set of writes that a store applies as one unit.
#[derive(Debug)]
pub struct WriteBatch {
    puts: Vec<(Vec<u8>, Vec<u8>)>,
}

impl View for WriteBatch {
    type V = Seq<(Seq<u8>, Seq<u8>)>;

    closed spec fn view(&self) -> Seq<(Seq<u8>, Seq<u8>)> {
        puts_view(self.puts@)
    }
}

impl WriteBatch {
    /// A batch without writes.
    pub fn new() -> (batch: Self)
        ensures
            batch@ == Seq::<(Seq<u8>, Seq<u8>)>::empty(),
    {
        let batch = WriteBatch { puts: Vec::new() };
        assert(batch@ =~= Seq::<(Seq<u8>, Seq<u8>)>::empty());
        batch
    }

    /// Stages the write of `value` under `key`, after those already staged.
    pub fn put(&mut self, key: DBKey, value: &[u8])
        ensures
            final(self)@ == old(self)@.push((key@, value@)),
    {
        self.puts.push((key.0, slice_to_vec(value)));
        assert(self@ =~= old(self)@.push((key@, value@)));
    }

    /// The number of staged writes.
    pub fn len(&self) -> (n: usize)
        ensures
            n == self@.len(),
    {
        self.puts.len()
    }

    /// The key of the `i`-th staged write.
    pub fn key(&self, i: usize) -> (key: &[u8])
        requires
            i < self@.len(),
        ensures
            key@ == self@[i as int].0,
    {
        self.puts[i].0.as_slice()
    }

    /// The value of the `i`-th staged write.
    pub fn value(&self, i: usize) -> (value: &[u8])
        requires
            i < self@.len(),
        ensures
            value@ == self@[i as int].1,
    {
        self.puts[i].1.as_slice()
    }
}

/// What the ledger needs of a key-value store.
pub trait Store {
    /// What the store holds. An implementation that is verified says what
    /// that is; one that is not leaves it open, and its two methods are then
    /// taken on trust to read and write one map.
    open spec fn contents(&self) -> Map<Seq<u8>, Seq<u8>> {
        arbitrary()
    }

    /// Whether reads and writes are sure to succeed. An implementation that
    /// is not verified promises no such thing.
    open spec fn dependable(&self) -> bool {
        false
    }

    /// A point read. A read that succeeds tells what the store holds under
    /// `key`; on a store that is not dependable any read may fail.
    fn get(&self, key: &DBKey) -> (r: Result<Option<Vec<u8>>, StoreError>)
        ensures
            r matches Ok(found) ==> found_view(found) == lookup(self.contents(), key@),
            self.dependable() ==> r is Ok,
    ;

    /// Applies all of `batch` or nothing of it; with `sync` the write is
    /// durable before the call returns.
    fn write_batch(&mut self, batch: &WriteBatch, sync: bool) -> (r: Result<(), StoreError>)
        ensures
            r is Ok ==> final(self).contents() == apply_puts(old(self).contents(), batch@),
            r is Err ==> final(self).contents() == old(self).contents(),
            old(self).dependable() ==> r is Ok && final(self).dependable(),
    ;
}

/// A store in memory, which can be told to refuse its writes.
#[derive(Debug)]
pub struct MemStore {
    log: Vec<(Vec<u8>, Vec<u8>)>,
    failing: bool,
}

impl MemStore {
    /// Whether the store refuses batches.
    pub closed spec fn is_failing(&self) -> bool {
        self.failing
    }

    /// An empty store that accepts writes.
    pub fn new() -> (store: Self)
        ensures
            store.contents() == Map::<Seq<u8>, Seq<u8>>::empty(),
            !store.is_failing(),
    {
        let store = MemStore { log: Vec::new(), failing: false };
        assert(puts_view(store.log@) =~= Seq::<(Seq<u8>, Seq<u8>)>::empty());
        store
    }

    /// Makes the store refuse (`true`) or accept (`false`) later batches.
    pub fn set_failing(&mut self, failing: bool)
        ensures
            final(self).contents() == old(self).contents(),
            final(self).is_failing() == failing,
    {
        self.failing = failing;
    }
}

impl Store for MemStore {
    closed spec fn contents(&self) -> Map<Seq<u8>, Seq<u8>> {
        apply_puts(Map::empty(), puts_view(self.log@))
    }

    open spec fn dependable(&self) -> bool {
        !self.is_failing()
    }

    fn get(&self, key: &DBKey) -> (r: Result<Option<Vec<u8>>, StoreError>)
        ensures
            r is Ok,
    {
        let ghost puts = puts_view(self.log@);
        let mut i: usize = self.log.len();
        while i > 0
            invariant
                i <= self.log.len(),
                puts == puts_view(self.log@),
                forall|j: int| i <= j < puts.len() ==> puts[j].0 != key@,
            decreases i,
        {
            i = i - 1;
            if bytes_eq(self.log[i].0.as_slice(), key.as_slice()) {
                proof {
                    lemma_apply_puts_hit(Map::empty(), puts, key@, i as int);
                }
                return Ok(Some(slice_to_vec(self.log[i].1.as_slice())));
            }
        }
        proof {
            lemma_apply_puts_miss(Map::empty(), puts, key@);
        }
        Ok(None)
    }

    fn write_batch(&mut self, batch: &WriteBatch, sync: bool) -> (r: Result<(), StoreError>)
        ensures
            r is Ok <==> !old(self).is_failing(),
            final(self).is_failing() == old(self).is_failing(),
    {
        if self.failing {
            return Err(StoreError { message: "write refused".to_string() });
        }
        let ghost before = self.contents();
        let mut i: usize = 0;
        assert(batch@.take(0) =~= Seq::<(Seq<u8>, Seq<u8>)>::empty());
        while i < batch.len()
            invariant
                i <= batch@.len(),
                self.failing == old(self).failing,
                self.contents() == apply_puts(before, batch@.take(i as int)),
            decreases batch@.len() - i,
        {
            let ghost log = puts_view(self.log@);
            let key = slice_to_vec(batch.key(i));
            let value = slice_to_vec(batch.value(i));
            self.log.push((key, value));
            proof {
                let item = batch@[i as int];
                assert(puts_view(self.log@) =~= log.push(item));
                assert(log.push(item).drop_last() =~= log);
                assert(batch@.take(i + 1).drop_last() =~= batch@.take(i as int));
            }
            i = i + 1;
        }
        assert(batch@.take(i as int) =~= batch@);
        Ok(())
    }
}

} // verus!
