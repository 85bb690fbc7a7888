//! Transactions that wait for a block, and the hashes of blocks that are
//! still to be fetched from a peer.

use vstd::prelude::*;
use crate::blockchain::byte_strings;
use crate::primitives::{bytes_eq, copy_bytes, hex_encode, hex_text};
use crate::transaction::{Transaction, TransactionView};

verus! {

/// A pending transaction under its key, the id in hexadecimal.
pub struct PoolEntry {
    pub key: String,
    pub tx: Transaction,
}

pub struct PoolEntryView {
    pub key: Seq<char>,
    pub tx: TransactionView,
}

impl View for PoolEntry {
    type V = PoolEntryView;

    open spec fn view(&self) -> PoolEntryView {
        PoolEntryView { key: self.key@, tx: self.tx@ }
    }
}

/// The position of the first entry with a key, from `from` on.
pub open spec fn key_position(entries: Seq<PoolEntryView>, key: Seq<char>, from: int) -> Option<int>
    decreases entries.len() - from,
{
    if from < 0 || from >= entries.len() {
        None
    } else if entries[from].key == key {
        Some(from)
    } else {
        key_position(entries, key, from + 1)
    }
}

/// No two entries share a key.
pub open spec fn distinct_keys(entries: Seq<PoolEntryView>) -> bool {
    forall|i: int, j: int|
        0 <= i < j < entries.len() ==> (#[trigger] entries[i]).key != (#[trigger] entries[j]).key
}

/// The pool after a transaction was added under a key: it takes the place of
/// the entry with that key, or comes last.
pub open spec fn with_entry(entries: Seq<PoolEntryView>, entry: PoolEntryView) -> Seq<PoolEntryView> {
    match key_position(entries, entry.key, 0) {
        Some(position) => entries.update(position, entry),
        None => entries.push(entry),
    }
}

/// The pool without the entry of a key.
pub open spec fn without_key(entries: Seq<PoolEntryView>, key: Seq<char>) -> Seq<PoolEntryView> {
    match key_position(entries, key, 0) {
        Some(position) => entries.remove(position),
        None => entries,
    }
}

/// The position of the first occurrence of a hash in a queue, from `from` on.
pub open spec fn hash_position(queue: Seq<Seq<u8>>, hash: Seq<u8>, from: int) -> Option<int>
    decreases queue.len() - from,
{
    if from < 0 || from >= queue.len() {
        None
    } else if queue[from] == hash {
        Some(from)
    } else {
        hash_position(queue, hash, from + 1)
    }
}

/// A queue without the first occurrence of a hash.
pub open spec fn without_hash(queue: Seq<Seq<u8>>, hash: Seq<u8>) -> Seq<Seq<u8>> {
    match hash_position(queue, hash, 0) {
        Some(position) => queue.remove(position),
        None => queue,
    }
}

/// What `key_position` finds is an entry with the key, and no entry before
/// it has the key.
pub proof fn lemma_key_position(entries: Seq<PoolEntryView>, key: Seq<char>, from: int)
    requires
        0 <= from,
    ensures
        match key_position(entries, key, from) {
            Some(position) => from <= position < entries.len() && entries[position].key == key
                && forall|i: int| from <= i < position ==> entries[i].key != key,
            None => forall|i: int| from <= i < entries.len() ==> entries[i].key != key,
        },
    decreases entries.len() - from,
{
    if from < entries.len() && entries[from].key != key {
        lemma_key_position(entries, key, from + 1);
    }
}

pub struct MemoryPool {
    inner: Vec<PoolEntry>,
}

impl View for MemoryPool {
    type V = Seq<PoolEntryView>;

    closed spec fn view(&self) -> Seq<PoolEntryView> {
        self.inner@.map_values(|e: PoolEntry| e@)
    }
}

impl MemoryPool {
    /// No two entries of the pool share a key.
    pub open spec fn well_formed(&self) -> bool {
        distinct_keys(self@)
    }

    /// An empty pool.
    pub fn new() -> (pool: MemoryPool)
        ensures
            pool@ == Seq::<PoolEntryView>::empty(),
            pool.well_formed(),
    {
        let pool = MemoryPool { inner: Vec::new() };
        assert(pool@ =~= Seq::<PoolEntryView>::empty());
        pool
    }

    fn position(&self, key: &String) -> (position: Option<usize>)
        ensures
            position.is_some() == key_position(self@, key@, 0).is_some(),
            position.is_some() ==> position.unwrap() as int == key_position(self@, key@, 0).unwrap()
                && position.unwrap() < self.inner@.len(),
    {
        let mut i: usize = 0;
        while i < self.inner.len()
            invariant
                i <= self.inner@.len(),
                key_position(self@, key@, 0) == key_position(self@, key@, i as int),
            decreases self.inner@.len() - i,
        {
            if self.inner[i].key == *key {
                return Some(i);
            }
            i += 1;
        }
        None
    }

    /// Whether the pool holds a transaction under this key.
    pub fn contains(&self, txid_hex: &str) -> (held: bool)
        ensures
            held == key_position(self@, txid_hex@, 0).is_some(),
    {
        let key = txid_hex.to_owned();
        self.position(&key).is_some()
    }

    /// Adds a transaction under its id in hexadecimal. A transaction that
    /// the pool holds under that key is replaced.
    pub fn add(&mut self, tx: Transaction)
        ensures
            final(self)@ == with_entry(old(self)@, PoolEntryView { key: hex_text(tx@.id), tx: tx@ }),
            old(self).well_formed() ==> final(self).well_formed(),
    {
        let key = hex_encode(tx.get_id());
        let ghost before = self@;
        let entry = PoolEntry { key, tx };
        let ghost view = entry@;
        proof {
            lemma_key_position(before, view.key, 0);
        }
        match self.position(&entry.key) {
            Some(position) => {
                self.inner.remove(position);
                self.inner.insert(position, entry);
                assert(self@ =~= before.update(position as int, view));
            },
            None => {
                self.inner.push(entry);
                assert(self@ =~= before.push(view));
            },
        }
    }

    /// The transaction under a key.
    pub fn get(&self, txid_hex: &str) -> (tx: Option<Transaction>)
        ensures
            tx.is_some() == key_position(self@, txid_hex@, 0).is_some(),
            tx.is_some() ==> tx.unwrap()@ == self@[key_position(self@, txid_hex@, 0).unwrap()].tx,
    {
        let key = txid_hex.to_owned();
        match self.position(&key) {
            Some(position) => Some(self.inner[position].tx.duplicate()),
            None => None,
        }
    }

    /// Takes the transaction under a key out of the pool.
    pub fn remove(&mut self, txid_hex: &str)
        ensures
            final(self)@ == without_key(old(self)@, txid_hex@),
            old(self).well_formed() ==> final(self).well_formed(),
    {
        let key = txid_hex.to_owned();
        let ghost before = self@;
        match self.position(&key) {
            Some(position) => {
                self.inner.remove(position);
                assert(self@ =~= before.remove(position as int));
            },
            None => {},
        }
    }

    /// All transactions of the pool, in the order in which their keys were
    /// first added.
    pub fn get_all(&self) -> (all: Vec<Transaction>)
        ensures
            all@.len() == self@.len(),
            forall|i: int| 0 <= i < self@.len() ==> all@[i]@ == self@[i].tx,
    {
        let mut all: Vec<Transaction> = Vec::new();
        let mut i: usize = 0;
        while i < self.inner.len()
            invariant
                i <= self.inner@.len(),
                all@.len() == i,
                forall|k: int| 0 <= k < i ==> all@[k]@ == self@[k].tx,
            decreases self.inner@.len() - i,
        {
            all.push(self.inner[i].tx.duplicate());
            i += 1;
        }
        all
    }

    /// Number of transactions in the pool.
    pub fn len(&self) -> (n: usize)
        ensures
            n == self@.len(),
    {
        self.inner.len()
    }

    /// Checks that no two entries share a key.
    pub fn validate(&self) -> (valid: bool)
        ensures
            valid == self.well_formed(),
    {
        let n: usize = self.inner.len();
        let mut j: usize = 0;
        while j < n
            invariant
                j <= n,
                n == self.inner@.len(),
                n == self@.len(),
                forall|a: int, b: int|
                    0 <= a < b < j ==> (#[trigger] self@[a]).key != (#[trigger] self@[b]).key,
            decreases n - j,
        {
            let mut i: usize = 0;
            while i < j
                invariant
                    i <= j < n,
                    n == self.inner@.len(),
                    n == self@.len(),
                    forall|a: int| 0 <= a < i ==> (#[trigger] self@[a]).key != self@[j as int].key,
                decreases j - i,
            {
                assert(self.inner@[i as int]@ == self@[i as int]);
                assert(self.inner@[j as int]@ == self@[j as int]);
                if self.inner[i].key == self.inner[j].key {
                    return false;
                }
                i += 1;
            }
            j += 1;
        }
        true
    }

    /// Empties the pool.
    pub fn clear(&mut self)
        ensures
            final(self)@ == Seq::<PoolEntryView>::empty(),
            final(self).well_formed(),
    {
        self.inner.clear();
        assert(self@ =~= Seq::<PoolEntryView>::empty());
    }
}

pub struct BlockInTransit {
    inner: Vec<Vec<u8>>,
}

impl View for BlockInTransit {
    type V = Seq<Seq<u8>>;

    closed spec fn view(&self) -> Seq<Seq<u8>> {
        byte_strings(self.inner@)
    }
}

impl BlockInTransit {
    /// An empty queue.
    pub fn new() -> (queue: BlockInTransit)
        ensures
            queue@ == Seq::<Seq<u8>>::empty(),
    {
        let queue = BlockInTransit { inner: Vec::new() };
        assert(queue@ =~= Seq::<Seq<u8>>::empty());
        queue
    }

    /// Appends hashes to the queue, in their order.
    pub fn add_blocks(&mut self, blocks: Vec<Vec<u8>>)
        ensures
            final(self)@ == old(self)@ + byte_strings(blocks@),
    {
        let mut i: usize = 0;
        assert(self@ =~= old(self)@ + byte_strings(blocks@).take(0));
        while i < blocks.len()
            invariant
                i <= blocks@.len(),
                self@ == old(self)@ + byte_strings(blocks@).take(i as int),
            decreases blocks@.len() - i,
        {
            let ghost before = self@;
            self.inner.push(copy_bytes(blocks[i].as_slice()));
            assert(self@ =~= before.push(blocks@[i as int]@));
            assert(self@ =~= old(self)@ + byte_strings(blocks@).take(i + 1));
            i += 1;
        }
        assert(byte_strings(blocks@).take(blocks@.len() as int) =~= byte_strings(blocks@));
    }

    /// The hash at the head of the queue.
    pub fn first(&self) -> (head: Option<Vec<u8>>)
        ensures
            head.is_some() == (self@.len() > 0),
            head.is_some() ==> head.unwrap()@ == self@[0],
    {
        if self.inner.len() == 0 {
            None
        } else {
            Some(copy_bytes(self.inner[0].as_slice()))
        }
    }

    /// Takes the first occurrence of a hash out of the queue.
    pub fn remove(&mut self, block_hash: &[u8])
        ensures
            final(self)@ == without_hash(old(self)@, block_hash@),
    {
        let mut i: usize = 0;
        while i < self.inner.len()
            invariant
                i <= self.inner@.len(),
                *self == *old(self),
                hash_position(self@, block_hash@, 0) == hash_position(self@, block_hash@, i as int),
            decreases self.inner@.len() - i,
        {
            if bytes_eq(self.inner[i].as_slice(), block_hash) {
                let ghost before = self@;
                self.inner.remove(i);
                assert(self@ =~= before.remove(i as int));
                return ;
            }
            i += 1;
        }
    }

    /// Whether the queue holds a hash.
    pub fn contains(&self, block_hash: &[u8]) -> (held: bool)
        ensures
            held == hash_position(self@, block_hash@, 0).is_some(),
    {
        let mut i: usize = 0;
        while i < self.inner.len()
            invariant
                i <= self.inner@.len(),
                hash_position(self@, block_hash@, 0) == hash_position(self@, block_hash@, i as int),
            decreases self.inner@.len() - i,
        {
            if bytes_eq(self.inner[i].as_slice(), block_hash) {
                return true;
            }
            i += 1;
        }
        false
    }

    /// Empties the queue.
    pub fn clear(&mut self)
        ensures
            final(self)@ == Seq::<Seq<u8>>::empty(),
    {
        self.inner.clear();
        assert(self@ =~= Seq::<Seq<u8>>::empty());
    }

    /// Number of hashes in the queue.
    pub fn len(&self) -> (n: usize)
        ensures
            n == self@.len(),
    {
        self.inner.len()
    }
}

} // verus!
