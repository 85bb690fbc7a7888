//! The chain of accepted blocks, from the genesis block to the tip.

use vstd::prelude::*;
use crate::block::{
    blocks_view, hash_with_nonce, sealed, transactions_view, Block, BlockView, TARGET_BITS,
};
use crate::primitives::{bytes_eq, copy_bytes, DIGEST_LEN};
use crate::proof_of_work::{
    lemma_found_is_lowest_nonce, lowest_nonce, lowest_solution, no_solution, ProofOfWork,
};
use crate::transaction::{
    coinbase, conserves, verify_within, Transaction, TransactionView,
};

verus! {

/// The previous hash of a genesis block: thirty-two zero bytes.
pub open spec fn genesis_parent() -> Seq<u8> {
    Seq::new(DIGEST_LEN as nat, |i: int| 0u8)
}

/// A genesis block: sealed, without a parent, holding one coinbase
/// transaction.
pub open spec fn genesis_block(block: BlockView) -> bool {
    &&& sealed(block)
    &&& block.prev_block_hash == genesis_parent()
    &&& block.transactions.len() == 1
    &&& coinbase(block.transactions[0])
}

/// A chain: it starts with a genesis block, every block is sealed, and every
/// later block names the hash of the block before it.
pub open spec fn linked(chain: Seq<BlockView>) -> bool {
    &&& chain.len() >= 1
    &&& genesis_block(chain[0])
    &&& forall|i: int| 0 <= i < chain.len() ==> sealed(#[trigger] chain[i])
    &&& forall|i: int|
        1 <= i < chain.len() ==> (#[trigger] chain[i]).prev_block_hash == chain[i - 1].hash
}

/// The first transaction with the given id among `transactions[from..]`.
pub open spec fn find_from(transactions: Seq<TransactionView>, txid: Seq<u8>, from: int) -> Option<
    TransactionView,
>
    decreases transactions.len() - from,
{
    if from < 0 || from >= transactions.len() {
        None
    } else if transactions[from].id == txid {
        Some(transactions[from])
    } else {
        find_from(transactions, txid, from + 1)
    }
}

/// The transaction with the given id in the newest of the first `upto` blocks
/// that holds one.
pub open spec fn find_below(chain: Seq<BlockView>, txid: Seq<u8>, upto: int) -> Option<
    TransactionView,
>
    decreases upto,
{
    if upto <= 0 || upto > chain.len() {
        None
    } else {
        match find_from(chain[upto - 1].transactions, txid, 0) {
            Some(tx) => Some(tx),
            None => find_below(chain, txid, upto - 1),
        }
    }
}

/// The transaction with the given id, searched from the tip.
pub open spec fn find_in_chain(chain: Seq<BlockView>, txid: Seq<u8>) -> Option<TransactionView> {
    find_below(chain, txid, chain.len() as int)
}

/// The position of the newest of the first `upto` blocks with the given hash.
pub open spec fn position_below(chain: Seq<BlockView>, hash: Seq<u8>, upto: int) -> Option<int>
    decreases upto,
{
    if upto <= 0 || upto > chain.len() {
        None
    } else if chain[upto - 1].hash == hash {
        Some(upto - 1)
    } else {
        position_below(chain, hash, upto - 1)
    }
}

/// The position of the block with the given hash, searched from the tip.
pub open spec fn position_of(chain: Seq<BlockView>, hash: Seq<u8>) -> Option<int> {
    position_below(chain, hash, chain.len() as int)
}

/// The hashes of a chain's blocks, the tip's first.
pub open spec fn hashes_from_tip(chain: Seq<BlockView>) -> Seq<Seq<u8>> {
    Seq::new(chain.len(), |i: int| chain[chain.len() - 1 - i].hash)
}

pub open spec fn byte_strings(items: Seq<Vec<u8>>) -> Seq<Seq<u8>> {
    items.map_values(|v: Vec<u8>| v@)
}

/// What the transactions of a block from `from` on say when each is
/// verified against a chain and the transactions before it: the first that
/// fails decides.
pub open spec fn first_failure(
    transactions: Seq<TransactionView>,
    chain: Seq<BlockView>,
    from: int,
) -> Option<AddOutcome>
    decreases transactions.len() - from,
{
    if from < 0 || from >= transactions.len() {
        None
    } else {
        match verify_within(transactions[from], chain, transactions.take(from)) {
            Err(_) => Some(AddOutcome::UnresolvedInput),
            Ok(false) => Some(AddOutcome::InvalidSignature),
            Ok(true) => if conserves(transactions[from], chain, transactions.take(from)) {
                first_failure(transactions, chain, from + 1)
            } else {
                Some(AddOutcome::Overspent)
            },
        }
    }
}

/// A block before it is mined: it has no hash yet, and its nonce is 0.
pub open spec fn candidate(
    prev_block_hash: Seq<u8>,
    transactions: Seq<TransactionView>,
    timestamp: i64,
) -> BlockView {
    BlockView {
        timestamp: timestamp,
        prev_block_hash: prev_block_hash,
        hash: Seq::empty(),
        transactions: transactions,
        nonce: 0,
    }
}

/// What mining makes of a candidate: the block with the lowest nonce that
/// solves it and the hash that this nonce gives; nothing where no nonce of
/// the search space solves it.
pub open spec fn mined(block: BlockView) -> Option<BlockView> {
    if no_solution(block, TARGET_BITS) {
        None
    } else {
        let nonce = lowest_nonce(block, TARGET_BITS);
        Some(
            BlockView {
                timestamp: block.timestamp,
                prev_block_hash: block.prev_block_hash,
                hash: hash_with_nonce(block, TARGET_BITS, nonce),
                transactions: block.transactions,
                nonce: nonce,
            },
        )
    }
}

/// The block that mining on top of a chain appends: the mined block, where
/// there is one and the chain takes it.
pub open spec fn mined_on(
    chain: Seq<BlockView>,
    transactions: Seq<TransactionView>,
    timestamp: i64,
) -> Option<BlockView> {
    match mined(candidate(chain.last().hash, transactions, timestamp)) {
        Some(block) => if add_outcome(chain, block) == AddOutcome::Appended {
            Some(block)
        } else {
            None
        },
        None => None,
    }
}

/// What happens to a block that is offered to a chain.
#[derive(Clone, Copy, Debug, PartialEq, Eq, Structural)]
pub enum AddOutcome {
    /// The block extends the tip and is now the tip.
    Appended,
    /// A block with this hash is already in the chain.
    Duplicate,
    /// The hash is not that of the header, or not below the target.
    InvalidProof,
    /// No block of the chain has the hash that the block names as its parent.
    UnknownParent,
    /// The parent is in the chain but is not the tip: the branch that the
    /// block starts holds no more work than the chain, which stays.
    SideBranch,
    /// An input of one of the block's transactions spends an output that the
    /// chain does not hold.
    UnresolvedInput,
    /// A signature in one of the block's transactions is wrong.
    InvalidSignature,
    /// One of the block's transactions has a negative output, or pays out
    /// more than its inputs bring in.
    Overspent,
}

/// What `add_block` decides for a block, given the chain.
pub open spec fn add_outcome(chain: Seq<BlockView>, block: BlockView) -> AddOutcome {
    if position_of(chain, block.hash).is_some() {
        AddOutcome::Duplicate
    } else if !sealed(block) {
        AddOutcome::InvalidProof
    } else if position_of(chain, block.prev_block_hash).is_none() {
        AddOutcome::UnknownParent
    } else if chain.last().hash != block.prev_block_hash {
        AddOutcome::SideBranch
    } else {
        match first_failure(block.transactions, chain, 0) {
            Some(failure) => failure,
            None => AddOutcome::Appended,
        }
    }
}

/// The chain after a block was offered to it.
pub open spec fn chain_after(chain: Seq<BlockView>, block: BlockView) -> Seq<BlockView> {
    if add_outcome(chain, block) == AddOutcome::Appended {
        chain.push(block)
    } else {
        chain
    }
}

pub struct Blockchain {
    blocks: Vec<Block>,
}

impl View for Blockchain {
    type V = Seq<BlockView>;

    closed spec fn view(&self) -> Seq<BlockView> {
        blocks_view(self.blocks@)
    }
}

impl Blockchain {
    /// The chain obeys the rules of a chain.
    pub open spec fn well_formed(&self) -> bool {
        linked(self@)
    }

    /// A chain of one block, or `None` where the block is no genesis block.
    pub fn create(genesis: Block) -> (chain: Option<Blockchain>)
        ensures
            chain.is_some() == genesis_block(genesis@),
            chain.is_some() ==> chain.unwrap()@ == seq![genesis@] && chain.unwrap().well_formed(),
    {
        let parent_ok = Blockchain::is_genesis_parent(genesis.get_prev_block_hash());
        if parent_ok && genesis.transactions.len() == 1 && genesis.transactions[0].is_coinbase()
            && genesis.has_valid_proof() {
            let ghost view = genesis@;
            let chain = Blockchain { blocks: vec![genesis] };
            assert(chain@ =~= seq![view]);
            Some(chain)
        } else {
            None
        }
    }

    /// Whether a hash is the previous hash of a genesis block.
    pub fn is_genesis_parent(hash: &[u8]) -> (answer: bool)
        ensures
            answer == (hash@ == genesis_parent()),
    {
        if hash.len() != DIGEST_LEN {
            return false;
        }
        let mut i: usize = 0;
        while i < hash.len()
            invariant
                i <= hash@.len(),
                hash@.len() == DIGEST_LEN,
                forall|k: int| 0 <= k < i ==> hash@[k] == 0u8,
            decreases hash@.len() - i,
        {
            if hash[i] != 0 {
                assert(genesis_parent()[i as int] == 0u8);
                return false;
            }
            i += 1;
        }
        assert(hash@ =~= genesis_parent());
        true
    }

    /// Checks the whole chain against the rules of a chain: the genesis
    /// block, every proof of work, every link.
    pub fn validate(&self) -> (valid: bool)
        ensures
            valid == self.well_formed(),
    {
        let n: usize = self.blocks.len();
        if n == 0 {
            return false;
        }
        let genesis = &self.blocks[0];
        assert(genesis@ == self@[0]);
        if !Blockchain::is_genesis_parent(genesis.get_prev_block_hash())
            || genesis.transactions.len() != 1 || !genesis.transactions[0].is_coinbase() {
            return false;
        }
        let mut i: usize = 0;
        while i < n
            invariant
                i <= n,
                n == self.blocks@.len(),
                n == self@.len(),
                forall|k: int| 0 <= k < i ==> sealed(#[trigger] self@[k]),
                forall|k: int|
                    1 <= k < i ==> (#[trigger] self@[k]).prev_block_hash == self@[k - 1].hash,
            decreases n - i,
        {
            assert(self.blocks@[i as int]@ == self@[i as int]);
            if !self.blocks[i].has_valid_proof() {
                return false;
            }
            if i > 0 {
                assert(self.blocks@[i - 1]@ == self@[i - 1]);
                if !bytes_eq(self.blocks[i].get_prev_block_hash(), self.blocks[i - 1].get_hash()) {
                    return false;
                }
            }
            i += 1;
        }
        true
    }

    /// A copy with the same blocks.
    pub fn duplicate(&self) -> (copy: Blockchain)
        ensures
            copy@ == self@,
    {
        let mut blocks: Vec<Block> = Vec::new();
        let mut i: usize = 0;
        while i < self.blocks.len()
            invariant
                i <= self.blocks@.len(),
                blocks@.len() == i,
                forall|k: int| 0 <= k < i ==> blocks@[k]@ == self.blocks@[k]@,
            decreases self.blocks@.len() - i,
        {
            blocks.push(self.blocks[i].duplicate());
            i += 1;
        }
        let copy = Blockchain { blocks };
        assert(copy@ =~= self@);
        copy
    }

    /// Number of blocks.
    pub fn len(&self) -> (n: usize)
        ensures
            n == self@.len(),
    {
        self.blocks.len()
    }

    /// The block at a position, the genesis block at 0.
    pub fn block_at(&self, position: usize) -> (block: &Block)
        requires
            position < self@.len(),
        ensures
            block@ == self@[position as int],
    {
        &self.blocks[position]
    }

    /// The height of the tip: the number of blocks minus one.
    pub fn get_best_height(&self) -> (height: usize)
        requires
            self.well_formed(),
        ensures
            height == self@.len() - 1,
    {
        self.blocks.len() - 1
    }

    /// The hash of the tip.
    pub fn get_tip_hash(&self) -> (hash: &[u8])
        requires
            self.well_formed(),
        ensures
            hash@ == self@.last().hash,
    {
        self.blocks[self.blocks.len() - 1].get_hash()
    }

    /// The position of the block with this hash, searched from the tip.
    pub fn find_position(&self, hash: &[u8]) -> (position: Option<usize>)
        ensures
            position.is_some() == position_of(self@, hash@).is_some(),
            position.is_some() ==> position.unwrap() as int == position_of(self@, hash@).unwrap(),
    {
        let mut upto: usize = self.blocks.len();
        while upto > 0
            invariant
                upto <= self.blocks@.len(),
                position_of(self@, hash@) == position_below(self@, hash@, upto as int),
            decreases upto,
        {
            if bytes_eq(self.blocks[upto - 1].get_hash(), hash) {
                return Some(upto - 1);
            }
            upto -= 1;
        }
        None
    }

    /// The block with this hash, if the chain holds one.
    pub fn get_block(&self, hash: &[u8]) -> (block: Option<Block>)
        ensures
            block.is_some() == position_of(self@, hash@).is_some(),
            block.is_some() ==> block.unwrap()@ == self@[position_of(self@, hash@).unwrap()],
    {
        match self.find_position(hash) {
            Some(position) => {
                proof {
                    lemma_position_in_range(self@, hash@, self@.len() as int);
                }
                Some(self.blocks[position].duplicate())
            },
            None => None,
        }
    }

    /// The hashes of all blocks, from the tip back to the genesis block.
    pub fn get_block_hashes(&self) -> (hashes: Vec<Vec<u8>>)
        ensures
            byte_strings(hashes@) == hashes_from_tip(self@),
    {
        let mut hashes: Vec<Vec<u8>> = Vec::new();
        let n: usize = self.blocks.len();
        let mut i: usize = 0;
        while i < n
            invariant
                n == self.blocks@.len(),
                i <= n,
                hashes@.len() == i,
                forall|k: int| 0 <= k < i ==> hashes@[k]@ == self@[n - 1 - k].hash,
            decreases n - i,
        {
            hashes.push(copy_bytes(self.blocks[n - 1 - i].get_hash()));
            i += 1;
        }
        assert(byte_strings(hashes@) =~= hashes_from_tip(self@));
        hashes
    }

    /// The transaction with this id, searched from the tip.
    pub fn find_transaction(&self, txid: &[u8]) -> (found: Option<Transaction>)
        ensures
            found.is_some() == find_in_chain(self@, txid@).is_some(),
            found.is_some() ==> found.unwrap()@ == find_in_chain(self@, txid@).unwrap(),
    {
        let mut upto: usize = self.blocks.len();
        while upto > 0
            invariant
                upto <= self.blocks@.len(),
                find_in_chain(self@, txid@) == find_below(self@, txid@, upto as int),
            decreases upto,
        {
            let block = &self.blocks[upto - 1];
            let transactions = block.get_transactions();
            let mut i: usize = 0;
            while i < transactions.len()
                invariant
                    i <= transactions@.len(),
                    0 < upto <= self.blocks@.len(),
                    find_in_chain(self@, txid@) == find_below(self@, txid@, upto as int),
                    transactions_view(transactions@) == self@[upto - 1].transactions,
                    find_from(self@[upto - 1].transactions, txid@, 0) == find_from(
                        self@[upto - 1].transactions,
                        txid@,
                        i as int,
                    ),
                decreases transactions@.len() - i,
            {
                if bytes_eq(transactions[i].get_id(), txid) {
                    assert(self@[upto - 1].transactions[i as int] == transactions@[i as int]@);
                    return Some(transactions[i].duplicate());
                }
                assert(self@[upto - 1].transactions[i as int] == transactions@[i as int]@);
                i += 1;
            }
            upto -= 1;
        }
        None
    }

    /// Offers a block to the chain. It is appended where it is new, carries a
    /// valid proof of work, names the tip as its parent, and each of its
    /// transactions verifies against the chain and the transactions before
    /// it in the block and creates no money; otherwise the chain stays as
    /// it is and the outcome says why.
    pub fn add_block(&mut self, block: &Block) -> (outcome: AddOutcome)
        requires
            old(self).well_formed(),
        ensures
            outcome == add_outcome(old(self)@, block@),
            final(self)@ == chain_after(old(self)@, block@),
            final(self).well_formed(),
    {
        if self.find_position(block.get_hash()).is_some() {
            return AddOutcome::Duplicate;
        }
        if !block.has_valid_proof() {
            return AddOutcome::InvalidProof;
        }
        if self.find_position(block.get_prev_block_hash()).is_none() {
            return AddOutcome::UnknownParent;
        }
        if !bytes_eq(self.get_tip_hash(), block.get_prev_block_hash()) {
            return AddOutcome::SideBranch;
        }
        let transactions = block.get_transactions();
        let mut i: usize = 0;
        while i < transactions.len()
            invariant
                i <= transactions@.len(),
                transactions_view(transactions@) == block@.transactions,
                *self == *old(self),
                self.well_formed(),
                position_of(self@, block@.hash).is_none(),
                sealed(block@),
                position_of(self@, block@.prev_block_hash).is_some(),
                self@.last().hash == block@.prev_block_hash,
                first_failure(block@.transactions, self@, 0) == first_failure(
                    block@.transactions,
                    self@,
                    i as int,
                ),
            decreases transactions@.len() - i,
        {
            assert(block@.transactions[i as int] == transactions@[i as int]@);
            match transactions[i].verify_within(self, transactions, i) {
                Err(_) => {
                    return AddOutcome::UnresolvedInput;
                },
                Ok(false) => {
                    return AddOutcome::InvalidSignature;
                },
                Ok(true) => {},
            }
            if !transactions[i].conserves_value(self, transactions, i) {
                return AddOutcome::Overspent;
            }
            i += 1;
        }
        let ghost before = self@;
        self.blocks.push(block.duplicate());
        assert(self@ =~= before.push(block@));
        AddOutcome::Appended
    }

    /// Mines a block that holds the given transactions on top of the tip and
    /// appends it. Returns the block, or `None`, with the chain unchanged,
    /// where no nonce solves it or the chain refuses it.
    pub fn mine_block(&mut self, transactions: Vec<Transaction>, timestamp: i64) -> (block: Option<
        Block,
    >)
        requires
            old(self).well_formed(),
        ensures
            final(self).well_formed(),
            block.is_some() == mined_on(
                old(self)@,
                transactions_view(transactions@),
                timestamp,
            ).is_some(),
            block.is_some() ==> block.unwrap()@ == mined_on(
                old(self)@,
                transactions_view(transactions@),
                timestamp,
            ).unwrap() && final(self)@ == old(self)@.push(block.unwrap()@) && sealed(
                block.unwrap()@,
            ),
            block.is_none() ==> final(self)@ == old(self)@,
    {
        let parent = copy_bytes(self.get_tip_hash());
        match Block::new_block(parent, transactions, timestamp) {
            Some(block) => {
                match self.add_block(&block) {
                    AddOutcome::Appended => Some(block),
                    _ => None,
                }
            },
            None => None,
        }
    }
}

impl Block {
    /// Mines a block on top of the block with hash `prev_block_hash`: the
    /// lowest nonce that brings the hash below the target is taken. `None`
    /// where no nonce does.
    pub fn new_block(prev_block_hash: Vec<u8>, transactions: Vec<Transaction>, timestamp: i64) -> (block:
        Option<Block>)
        ensures
            block.is_some() == mined(
                candidate(prev_block_hash@, transactions_view(transactions@), timestamp),
            ).is_some(),
            block.is_some() ==> block.unwrap()@ == mined(
                candidate(prev_block_hash@, transactions_view(transactions@), timestamp),
            ).unwrap() && sealed(block.unwrap()@),
    {
        let block = Block { timestamp, prev_block_hash, hash: Vec::new(), transactions, nonce: 0 };
        let ghost start = block@;
        assert(start.hash =~= Seq::<u8>::empty());
        let pow = ProofOfWork::new_proof_of_work(block);
        let found = pow.run();
        match found {
            Some((nonce, hash)) => {
                let mut block = pow.block;
                block.nonce = nonce;
                block.hash = hash;
                proof {
                    lemma_found_is_lowest_nonce(start, TARGET_BITS, nonce);
                    lemma_solutions_ignore_seal(start, block@, TARGET_BITS);
                }
                Some(block)
            },
            None => None,
        }
    }

    /// Mines the genesis block around a coinbase transaction.
    pub fn new_genesis_block(coinbase_tx: Transaction, timestamp: i64) -> (block: Option<Block>)
        ensures
            block.is_some() == mined(
                candidate(genesis_parent(), seq![coinbase_tx@], timestamp),
            ).is_some(),
            block.is_some() ==> block.unwrap()@ == mined(
                candidate(genesis_parent(), seq![coinbase_tx@], timestamp),
            ).unwrap() && sealed(block.unwrap()@) && (coinbase(coinbase_tx@) ==> genesis_block(
                block.unwrap()@,
            )),
    {
        let mut parent: Vec<u8> = Vec::new();
        let mut i: usize = 0;
        while i < DIGEST_LEN
            invariant
                i <= DIGEST_LEN,
                parent@.len() == i,
                forall|k: int| 0 <= k < i ==> parent@[k] == 0u8,
            decreases DIGEST_LEN - i,
        {
            parent.push(0u8);
            i += 1;
        }
        assert(parent@ =~= genesis_parent());
        let ghost view = coinbase_tx@;
        let transactions = vec![coinbase_tx];
        assert(transactions_view(transactions@) =~= seq![view]);
        Block::new_block(parent, transactions, timestamp)
    }
}

/// Which nonces solve a block does not depend on the hash and nonce that it
/// carries.
pub proof fn lemma_solutions_ignore_seal(a: BlockView, b: BlockView, bits: u32)
    requires
        a.prev_block_hash == b.prev_block_hash,
        a.transactions == b.transactions,
        a.timestamp == b.timestamp,
    ensures
        forall|nonce: i64| hash_with_nonce(a, bits, nonce) == hash_with_nonce(b, bits, nonce),
        forall|nonce: i64| lowest_solution(a, bits, nonce) == lowest_solution(b, bits, nonce),
        no_solution(a, bits) == no_solution(b, bits),
{
    assert forall|nonce: i64|
        crate::block::solves(a, bits, nonce) == crate::block::solves(b, bits, nonce) by {}
}

/// A position that the search finds lies inside the chain and holds a block
/// with the hash.
pub proof fn lemma_position_in_range(chain: Seq<BlockView>, hash: Seq<u8>, upto: int)
    requires
        upto <= chain.len(),
    ensures
        position_below(chain, hash, upto).is_some() ==> 0 <= position_below(
            chain,
            hash,
            upto,
        ).unwrap() < upto && chain[position_below(chain, hash, upto).unwrap()].hash == hash,
        position_below(chain, hash, upto).is_none() ==> forall|i: int|
            0 <= i < upto ==> chain[i].hash != hash,
    decreases upto,
{
    if upto > 0 {
        lemma_position_in_range(chain, hash, upto - 1);
    }
}

/// In a chain that a program holds, no transaction has more outputs than an
/// index can number.
pub proof fn lemma_held_chain_is_countable(chain: Blockchain)
    ensures
        crate::utxo_laws::countable_outputs(chain@, chain@.len() as int),
{
    assert forall|b: int, t: int|
        0 <= b < chain@.len() && 0 <= t < chain@[b].transactions.len() implies (
    #[trigger] chain@[b].transactions[t]).vout.len() <= usize::MAX by {
        let tx = chain.blocks@[b].transactions@[t];
        assert(chain@[b].transactions[t] == tx@);
        assert(tx.vout@.len() == tx.vout.len());
    }
}

/// Every block of a well-formed chain carries the hash of its own header
/// with its nonce, and that hash, read as a number, lies below the target.
pub proof fn lemma_accepted_blocks_are_sealed(chain: Blockchain, position: int)
    requires
        chain.well_formed(),
        0 <= position < chain@.len(),
    ensures
        chain@[position].hash == hash_with_nonce(
            chain@[position],
            TARGET_BITS,
            chain@[position].nonce,
        ),
        crate::block::meets_target(chain@[position].hash, TARGET_BITS),
{
}

} // verus!
