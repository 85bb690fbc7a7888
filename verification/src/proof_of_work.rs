//! The search for a nonce that brings a block's hash below the target.

use vstd::prelude::*;
use crate::block::{
    assemble_header, hash_meets_target, hash_with_nonce, header_bytes, solves, transactions_digest,
    Block, BlockView, TARGET_BITS,
};
use crate::primitives::sha256;

verus! {

/// The nonces that a search tries lie below this.
pub const MAX_NONCE: i64 = i64::MAX;

pub struct ProofOfWork {
    pub block: Block,
    pub target_bits: u32,
}

/// The lowest nonce that solves a block is `nonce`.
pub open spec fn lowest_solution(block: BlockView, bits: u32, nonce: i64) -> bool {
    &&& 0 <= nonce < MAX_NONCE
    &&& solves(block, bits, nonce)
    &&& forall|lower: i64| 0 <= lower < nonce ==> !#[trigger] solves(block, bits, lower)
}

/// No nonce of the search space solves a block.
pub open spec fn no_solution(block: BlockView, bits: u32) -> bool {
    forall|nonce: i64| 0 <= nonce < MAX_NONCE ==> !#[trigger] solves(block, bits, nonce)
}

/// The lowest nonce that solves a block, where one does.
pub open spec fn lowest_nonce(block: BlockView, bits: u32) -> i64 {
    choose|nonce: i64| lowest_solution(block, bits, nonce)
}

/// A block has at most one lowest solution.
pub proof fn lemma_lowest_solution_is_unique(block: BlockView, bits: u32, a: i64, b: i64)
    requires
        lowest_solution(block, bits, a),
        lowest_solution(block, bits, b),
    ensures
        a == b,
{
    if a < b {
        assert(!solves(block, bits, a));
    } else if b < a {
        assert(!solves(block, bits, b));
    }
}

/// The nonce that a search found is the lowest nonce, and then the search
/// space holds a solution.
pub proof fn lemma_found_is_lowest_nonce(block: BlockView, bits: u32, nonce: i64)
    requires
        lowest_solution(block, bits, nonce),
    ensures
        lowest_nonce(block, bits) == nonce,
        !no_solution(block, bits),
{
    lemma_lowest_solution_is_unique(block, bits, nonce, lowest_nonce(block, bits));
    assert(solves(block, bits, nonce));
}

impl ProofOfWork {
    /// A search on `block` at the ledger's difficulty.
    pub fn new_proof_of_work(block: Block) -> (pow: ProofOfWork)
        ensures
            pow.block == block,
            pow.target_bits == TARGET_BITS,
    {
        ProofOfWork { block, target_bits: TARGET_BITS }
    }

    /// Tries the nonces from 0 upwards and returns the first whose hash lies
    /// below the target, with that hash; `None` where none does.
    pub fn run(&self) -> (found: Option<(i64, Vec<u8>)>)
        ensures
            match found {
                Some((nonce, hash)) => lowest_solution(self.block@, self.target_bits, nonce)
                    && hash@ == hash_with_nonce(self.block@, self.target_bits, nonce),
                None => no_solution(self.block@, self.target_bits),
            },
    {
        let digest = self.block.hash_transactions();
        let mut nonce: i64 = 0;
        while nonce < MAX_NONCE
            invariant
                0 <= nonce <= MAX_NONCE,
                digest@ == transactions_digest(self.block@.transactions),
                forall|lower: i64|
                    0 <= lower < nonce ==> !#[trigger] solves(self.block@, self.target_bits, lower),
            decreases MAX_NONCE - nonce,
        {
            let data = assemble_header(
                self.block.get_prev_block_hash(),
                digest.as_slice(),
                self.block.get_timestamp(),
                self.target_bits,
                nonce,
            );
            let hash = sha256(data.as_slice());
            if hash_meets_target(hash.as_slice(), self.target_bits) {
                return Some((nonce, hash));
            }
            nonce += 1;
        }
        None
    }

    /// The bytes that are hashed for a nonce.
    pub fn prepare_data(&self, nonce: i64) -> (data: Vec<u8>)
        ensures
            data@ == header_bytes(
                self.block@.prev_block_hash,
                transactions_digest(self.block@.transactions),
                self.block@.timestamp,
                self.target_bits,
                nonce,
            ),
    {
        let digest = self.block.hash_transactions();
        assemble_header(
            self.block.get_prev_block_hash(),
            digest.as_slice(),
            self.block.get_timestamp(),
            self.target_bits,
            nonce,
        )
    }
}

} // verus!
