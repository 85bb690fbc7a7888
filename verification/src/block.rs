//! Blocks and the bytes that their proof of work is computed over.

use vstd::prelude::*;
use vstd::arithmetic::power2::pow2;
use crate::codec::{framed, le_bytes, put_framed, put_i64, put_raw, put_u32, put_u64, unsigned64};
use crate::primitives::{be_value, below_power_of_two, bytes_eq, copy_bytes, sha256, sha256_digest};
use crate::transaction::{encode_transaction, Transaction, TransactionView};

verus! {

/// Difficulty of mining: a block's hash, read as a number, lies below two to
/// the power of 256 minus this.
pub const TARGET_BITS: u32 = 8;

pub struct Block {
    pub timestamp: i64,
    pub prev_block_hash: Vec<u8>,
    pub hash: Vec<u8>,
    pub transactions: Vec<Transaction>,
    pub nonce: i64,
}

pub struct BlockView {
    pub timestamp: i64,
    pub prev_block_hash: Seq<u8>,
    pub hash: Seq<u8>,
    pub transactions: Seq<TransactionView>,
    pub nonce: i64,
}

impl View for Block {
    type V = BlockView;

    open spec fn view(&self) -> BlockView {
        BlockView {
            timestamp: self.timestamp,
            prev_block_hash: self.prev_block_hash@,
            hash: self.hash@,
            transactions: transactions_view(self.transactions@),
            nonce: self.nonce,
        }
    }
}

pub open spec fn transactions_view(transactions: Seq<Transaction>) -> Seq<TransactionView> {
    transactions.map_values(|t: Transaction| t@)
}

pub open spec fn blocks_view(blocks: Seq<Block>) -> Seq<BlockView> {
    blocks.map_values(|b: Block| b@)
}

/// The ids of a list of transactions, one after the other.
pub open spec fn joined_ids(transactions: Seq<TransactionView>) -> Seq<u8>
    decreases transactions.len(),
{
    if transactions.len() == 0 {
        Seq::empty()
    } else {
        joined_ids(transactions.drop_last()) + transactions.last().id
    }
}

/// The digest that stands for a block's transactions in its header.
pub open spec fn transactions_digest(transactions: Seq<TransactionView>) -> Seq<u8> {
    sha256_digest(joined_ids(transactions))
}

/// The bytes that are hashed for a nonce: the previous block's hash, the
/// digest of the transactions, the timestamp, the difficulty and the nonce.
pub open spec fn header_bytes(
    prev_block_hash: Seq<u8>,
    digest: Seq<u8>,
    timestamp: i64,
    bits: u32,
    nonce: i64,
) -> Seq<u8> {
    prev_block_hash + digest + le_bytes(unsigned64(timestamp), 8) + le_bytes(bits as nat, 4)
        + le_bytes(unsigned64(nonce), 8)
}

/// The hash that a block has with a given nonce.
pub open spec fn hash_with_nonce(block: BlockView, bits: u32, nonce: i64) -> Seq<u8> {
    sha256_digest(
        header_bytes(
            block.prev_block_hash,
            transactions_digest(block.transactions),
            block.timestamp,
            bits,
            nonce,
        ),
    )
}

/// Whether a hash, read as a number with the most significant byte first, lies
/// below the target of a difficulty.
pub open spec fn meets_target(hash: Seq<u8>, bits: u32) -> bool {
    bits <= 256 && be_value(hash) < pow2((256 - bits) as nat)
}

/// Whether a nonce solves a block at a difficulty.
pub open spec fn solves(block: BlockView, bits: u32, nonce: i64) -> bool {
    meets_target(hash_with_nonce(block, bits, nonce), bits)
}

/// A block whose stored hash is the hash of its header with its nonce, and
/// lies below the target.
pub open spec fn sealed(block: BlockView) -> bool {
    &&& block.nonce >= 0
    &&& block.hash == hash_with_nonce(block, TARGET_BITS, block.nonce)
    &&& meets_target(block.hash, TARGET_BITS)
}

pub open spec fn encode_transactions(transactions: Seq<TransactionView>) -> Seq<u8>
    decreases transactions.len(),
{
    if transactions.len() == 0 {
        Seq::empty()
    } else {
        encode_transactions(transactions.drop_last()) + encode_transaction(transactions.last())
    }
}

/// The bytes of a block: timestamp, previous hash, hash, the transactions
/// behind their number, and the nonce.
pub open spec fn encode_block(block: BlockView) -> Seq<u8> {
    le_bytes(unsigned64(block.timestamp), 8) + framed(block.prev_block_hash) + framed(block.hash)
        + le_bytes(block.transactions.len(), 8) + encode_transactions(block.transactions)
        + le_bytes(unsigned64(block.nonce), 8)
}

/// Whether a hash lies below the target of a difficulty.
pub fn hash_meets_target(hash: &[u8], bits: u32) -> (answer: bool)
    ensures
        answer == meets_target(hash@, bits),
{
    if bits > 256 {
        return false;
    }
    below_power_of_two(hash, 256 - bits)
}

/// The header bytes for a nonce, from the digest of the transactions.
pub fn assemble_header(
    prev_block_hash: &[u8],
    digest: &[u8],
    timestamp: i64,
    bits: u32,
    nonce: i64,
) -> (data: Vec<u8>)
    ensures
        data@ == header_bytes(prev_block_hash@, digest@, timestamp, bits, nonce),
{
    let mut data: Vec<u8> = Vec::new();
    put_raw(&mut data, prev_block_hash);
    put_raw(&mut data, digest);
    put_i64(&mut data, timestamp);
    put_u32(&mut data, bits);
    put_i64(&mut data, nonce);
    assert(data@ =~= header_bytes(prev_block_hash@, digest@, timestamp, bits, nonce));
    data
}

/// Copies of a list of transactions.
pub fn duplicate_transactions(transactions: &[Transaction]) -> (copy: Vec<Transaction>)
    ensures
        transactions_view(copy@) == transactions_view(transactions@),
{
    let mut copy: Vec<Transaction> = Vec::new();
    let mut i: usize = 0;
    while i < transactions.len()
        invariant
            i <= transactions@.len(),
            copy@.len() == i,
            forall|k: int| 0 <= k < i ==> copy@[k]@ == transactions@[k]@,
        decreases transactions@.len() - i,
    {
        copy.push(transactions[i].duplicate());
        i += 1;
    }
    assert(transactions_view(copy@) =~= transactions_view(transactions@));
    copy
}

impl Block {
    pub fn get_hash(&self) -> (hash: &[u8])
        ensures
            hash@ == self@.hash,
    {
        self.hash.as_slice()
    }

    pub fn get_prev_block_hash(&self) -> (hash: &[u8])
        ensures
            hash@ == self@.prev_block_hash,
    {
        self.prev_block_hash.as_slice()
    }

    pub fn get_transactions(&self) -> (transactions: &[Transaction])
        ensures
            transactions_view(transactions@) == self@.transactions,
    {
        self.transactions.as_slice()
    }

    pub fn get_timestamp(&self) -> (timestamp: i64)
        ensures
            timestamp == self@.timestamp,
    {
        self.timestamp
    }

    pub fn get_nonce(&self) -> (nonce: i64)
        ensures
            nonce == self@.nonce,
    {
        self.nonce
    }

    /// A copy with the same content.
    pub fn duplicate(&self) -> (copy: Block)
        ensures
            copy@ == self@,
    {
        Block {
            timestamp: self.timestamp,
            prev_block_hash: copy_bytes(self.prev_block_hash.as_slice()),
            hash: copy_bytes(self.hash.as_slice()),
            transactions: duplicate_transactions(self.transactions.as_slice()),
            nonce: self.nonce,
        }
    }

    /// The digest that stands for the block's transactions in its header.
    pub fn hash_transactions(&self) -> (digest: Vec<u8>)
        ensures
            digest@ == transactions_digest(self@.transactions),
    {
        let mut ids: Vec<u8> = Vec::new();
        let mut i: usize = 0;
        assert(self@.transactions.take(0) =~= Seq::<TransactionView>::empty());
        while i < self.transactions.len()
            invariant
                i <= self.transactions@.len(),
                ids@ == joined_ids(self@.transactions.take(i as int)),
            decreases self.transactions@.len() - i,
        {
            put_raw(&mut ids, self.transactions[i].get_id());
            proof {
                let next = self@.transactions.take(i + 1);
                assert(next.drop_last() =~= self@.transactions.take(i as int));
                assert(next.last() == self.transactions@[i as int]@);
            }
            i += 1;
        }
        assert(self@.transactions.take(self.transactions@.len() as int) =~= self@.transactions);
        sha256(ids.as_slice())
    }

    /// Recomputes the hash from the header fields and the stored nonce, and
    /// tells whether it is the stored hash and lies below the target.
    pub fn has_valid_proof(&self) -> (valid: bool)
        ensures
            valid == sealed(self@),
    {
        if self.nonce < 0 {
            return false;
        }
        let digest = self.hash_transactions();
        let data = assemble_header(
            self.prev_block_hash.as_slice(),
            digest.as_slice(),
            self.timestamp,
            TARGET_BITS,
            self.nonce,
        );
        let hash = sha256(data.as_slice());
        bytes_eq(hash.as_slice(), self.hash.as_slice()) && hash_meets_target(
            hash.as_slice(),
            TARGET_BITS,
        )
    }

    /// The block's bytes.
    pub fn serialize(&self) -> (bytes: Vec<u8>)
        ensures
            bytes@ == encode_block(self@),
    {
        let mut out: Vec<u8> = Vec::new();
        put_i64(&mut out, self.timestamp);
        put_framed(&mut out, self.prev_block_hash.as_slice());
        put_framed(&mut out, self.hash.as_slice());
        put_u64(&mut out, self.transactions.len() as u64);
        let ghost head = out@;
        let mut i: usize = 0;
        assert(head + encode_transactions(self@.transactions.take(0)) =~= head);
        while i < self.transactions.len()
            invariant
                i <= self.transactions@.len(),
                out@ == head + encode_transactions(self@.transactions.take(i as int)),
            decreases self.transactions@.len() - i,
        {
            let bytes = self.transactions[i].serialize();
            put_raw(&mut out, bytes.as_slice());
            proof {
                let next = self@.transactions.take(i + 1);
                assert(next.drop_last() =~= self@.transactions.take(i as int));
                assert(next.last() == self.transactions@[i as int]@);
                assert(out@ =~= head + encode_transactions(next));
            }
            i += 1;
        }
        assert(self@.transactions.take(self.transactions@.len() as int) =~= self@.transactions);
        put_i64(&mut out, self.nonce);
        assert(out@ =~= encode_block(self@));
        out
    }
}

} // verus!
