//! The peer protocol: the packages that nodes exchange, and what a node does
//! and answers when one arrives.

use vstd::prelude::*;
use crate::block::{encode_block, transactions_view, Block, BlockView};
use crate::blockchain::{
    add_outcome, byte_strings, chain_after, hashes_from_tip, mined_on, position_of, AddOutcome,
    Blockchain,
};
use crate::decode::{parse_block, parse_transaction};
use crate::memory_pool::{
    hash_position, key_position, with_entry, without_key, BlockInTransit, MemoryPool, PoolEntryView,
};
use crate::node::{addresses, with_address, Nodes, CENTRAL_NODE};
use crate::primitives::{base58_payload, copy_bytes, hex_encode, hex_text};
use crate::transaction::{
    address_hash, check_input, coinbase, coinbase_paying, conserves, encode_transaction, lemma_verified_inputs, verify_outcome, InputCheck,
    Transaction, TransactionView, TxError,
};
use crate::utxo_set::{
    apply_block, index_of, inputs_unspent, lemma_each_input_unspent, unspent, UTXOSet,
    UtxoEntryView,
};

verus! {

/// The protocol version that a node announces.
pub const NODE_VERSION: usize = 1;

/// Number of pending transactions at which a miner mines a block.
pub const TRANSACTION_THRESHOLD: usize = 2;

/// What an inventory or a request speaks of.
#[derive(Clone, Copy, Debug, PartialEq, Eq, Structural)]
pub enum OpType {
    Tx,
    Block,
}

/// A message between nodes. Each names the address of its sender.
#[derive(Debug)]
pub enum Package {
    Block { addr_from: String, block: Vec<u8> },
    GetBlocks { addr_from: String },
    GetData { addr_from: String, op_type: OpType, id: Vec<u8> },
    Inv { addr_from: String, op_type: OpType, items: Vec<Vec<u8>> },
    Tx { addr_from: String, transaction: Vec<u8> },
    Version { addr_from: String, version: usize, best_height: usize },
}

pub enum PackageView {
    Block { addr_from: Seq<char>, block: Seq<u8> },
    GetBlocks { addr_from: Seq<char> },
    GetData { addr_from: Seq<char>, op_type: OpType, id: Seq<u8> },
    Inv { addr_from: Seq<char>, op_type: OpType, items: Seq<Seq<u8>> },
    Tx { addr_from: Seq<char>, transaction: Seq<u8> },
    Version { addr_from: Seq<char>, version: usize, best_height: usize },
}

impl View for Package {
    type V = PackageView;

    open spec fn view(&self) -> PackageView {
        match self {
            Package::Block { addr_from, block } => PackageView::Block {
                addr_from: addr_from@,
                block: block@,
            },
            Package::GetBlocks { addr_from } => PackageView::GetBlocks { addr_from: addr_from@ },
            Package::GetData { addr_from, op_type, id } => PackageView::GetData {
                addr_from: addr_from@,
                op_type: *op_type,
                id: id@,
            },
            Package::Inv { addr_from, op_type, items } => PackageView::Inv {
                addr_from: addr_from@,
                op_type: *op_type,
                items: byte_strings(items@),
            },
            Package::Tx { addr_from, transaction } => PackageView::Tx {
                addr_from: addr_from@,
                transaction: transaction@,
            },
            Package::Version { addr_from, version, best_height } => PackageView::Version {
                addr_from: addr_from@,
                version: *version,
                best_height: *best_height,
            },
        }
    }
}

/// A package on its way to an address.
#[derive(Debug)]
pub struct Outbound {
    pub to: String,
    pub package: Package,
}

pub struct OutboundView {
    pub to: Seq<char>,
    pub package: PackageView,
}

impl View for Outbound {
    type V = OutboundView;

    open spec fn view(&self) -> OutboundView {
        OutboundView { to: self.to@, package: self.package@ }
    }
}

pub open spec fn outbound_view(out: Seq<Outbound>) -> Seq<OutboundView> {
    out.map_values(|o: Outbound| o@)
}

/// The request for one item.
pub open spec fn get_data_to(to: Seq<char>, from: Seq<char>, op_type: OpType, id: Seq<u8>) -> OutboundView {
    OutboundView { to: to, package: PackageView::GetData { addr_from: from, op_type: op_type, id: id } }
}

/// The inventory of some items.
pub open spec fn inv_to(to: Seq<char>, from: Seq<char>, op_type: OpType, items: Seq<Seq<u8>>) -> OutboundView {
    OutboundView { to: to, package: PackageView::Inv { addr_from: from, op_type: op_type, items: items } }
}

/// The request for a peer's inventory of blocks.
pub fn send_get_blocks(addr: &str, node_addr: &str) -> (out: Outbound)
    ensures
        out@ == (OutboundView {
            to: addr@,
            package: PackageView::GetBlocks { addr_from: node_addr@ },
        }),
{
    Outbound { to: addr.to_owned(), package: Package::GetBlocks { addr_from: node_addr.to_owned() } }
}

/// The announcement of the sender's height.
pub fn send_version(addr: &str, node_addr: &str, height: usize) -> (out: Outbound)
    ensures
        out@ == (OutboundView {
            to: addr@,
            package: PackageView::Version {
                addr_from: node_addr@,
                version: NODE_VERSION,
                best_height: height,
            },
        }),
{
    Outbound {
        to: addr.to_owned(),
        package: Package::Version {
            addr_from: node_addr.to_owned(),
            version: NODE_VERSION,
            best_height: height,
        },
    }
}

/// The request for one block or transaction.
pub fn send_get_data(addr: &str, node_addr: &str, op_type: OpType, id: &[u8]) -> (out: Outbound)
    ensures
        out@ == get_data_to(addr@, node_addr@, op_type, id@),
{
    Outbound {
        to: addr.to_owned(),
        package: Package::GetData { addr_from: node_addr.to_owned(), op_type, id: copy_bytes(id) },
    }
}

/// The inventory of some blocks or transactions.
pub fn send_inv(addr: &str, node_addr: &str, op_type: OpType, blocks: &[Vec<u8>]) -> (out: Outbound)
    ensures
        out@ == inv_to(addr@, node_addr@, op_type, byte_strings(blocks@)),
{
    let mut items: Vec<Vec<u8>> = Vec::new();
    let mut i: usize = 0;
    while i < blocks.len()
        invariant
            i <= blocks@.len(),
            items@.len() == i,
            forall|k: int| 0 <= k < i ==> items@[k]@ == blocks@[k]@,
        decreases blocks@.len() - i,
    {
        items.push(copy_bytes(blocks[i].as_slice()));
        i += 1;
    }
    assert(byte_strings(items@) =~= byte_strings(blocks@));
    Outbound {
        to: addr.to_owned(),
        package: Package::Inv { addr_from: node_addr.to_owned(), op_type, items },
    }
}

/// The delivery of a block.
pub fn send_block(addr: &str, node_addr: &str, block: &Block) -> (out: Outbound)
    ensures
        out@ == (OutboundView {
            to: addr@,
            package: PackageView::Block { addr_from: node_addr@, block: encode_block(block@) },
        }),
{
    Outbound {
        to: addr.to_owned(),
        package: Package::Block { addr_from: node_addr.to_owned(), block: block.serialize() },
    }
}

/// The delivery of a transaction.
pub fn send_tx(addr: &str, node_addr: &str, tx: &Transaction) -> (out: Outbound)
    ensures
        out@ == (OutboundView {
            to: addr@,
            package: PackageView::Tx {
                addr_from: node_addr@,
                transaction: encode_transaction(tx@),
            },
        }),
{
    Outbound {
        to: addr.to_owned(),
        package: Package::Tx { addr_from: node_addr.to_owned(), transaction: tx.serialize() },
    }
}

/// The answer to a peer's height: a peer that is ahead is asked for its
/// blocks, a peer that is behind is told the local height.
pub open spec fn version_reply(
    node_addr: Seq<char>,
    local_height: usize,
    addr_from: Seq<char>,
    best_height: usize,
) -> Seq<OutboundView> {
    if local_height < best_height {
        seq![OutboundView { to: addr_from, package: PackageView::GetBlocks { addr_from: node_addr } }]
    } else if local_height > best_height {
        seq![
            OutboundView {
                to: addr_from,
                package: PackageView::Version {
                    addr_from: node_addr,
                    version: NODE_VERSION,
                    best_height: local_height,
                },
            },
        ]
    } else {
        Seq::empty()
    }
}

/// The answer to a request for one item: the item where the node has it,
/// nothing where not.
pub open spec fn get_data_reply(
    node_addr: Seq<char>,
    chain: Seq<BlockView>,
    pool: Seq<PoolEntryView>,
    addr_from: Seq<char>,
    op_type: OpType,
    id: Seq<u8>,
) -> Seq<OutboundView> {
    match op_type {
        OpType::Block => match position_of(chain, id) {
            Some(position) => seq![
                OutboundView {
                    to: addr_from,
                    package: PackageView::Block {
                        addr_from: node_addr,
                        block: encode_block(chain[position]),
                    },
                },
            ],
            None => Seq::empty(),
        },
        OpType::Tx => match key_position(pool, hex_text(id), 0) {
            Some(position) => seq![
                OutboundView {
                    to: addr_from,
                    package: PackageView::Tx {
                        addr_from: node_addr,
                        transaction: encode_transaction(pool[position].tx),
                    },
                },
            ],
            None => Seq::empty(),
        },
    }
}

/// The queue after the first `upto` advertised hashes were considered: a
/// hash enters where neither the chain nor the queue has it.
pub open spec fn enqueue_unseen(
    chain: Seq<BlockView>,
    queue: Seq<Seq<u8>>,
    items: Seq<Seq<u8>>,
    upto: int,
) -> Seq<Seq<u8>>
    decreases upto,
{
    if upto <= 0 || upto > items.len() {
        queue
    } else {
        let before = enqueue_unseen(chain, queue, items, upto - 1);
        let hash = items[upto - 1];
        if position_of(chain, hash).is_none() && hash_position(before, hash, 0).is_none() {
            before.push(hash)
        } else {
            before
        }
    }
}

/// The requests for those of the first `upto` advertised transactions that
/// the pool does not hold.
pub open spec fn requests_for_unseen(
    node_addr: Seq<char>,
    pool: Seq<PoolEntryView>,
    addr_from: Seq<char>,
    items: Seq<Seq<u8>>,
    upto: int,
) -> Seq<OutboundView>
    decreases upto,
{
    if upto <= 0 || upto > items.len() {
        Seq::empty()
    } else {
        let before = requests_for_unseen(node_addr, pool, addr_from, items, upto - 1);
        if key_position(pool, hex_text(items[upto - 1]), 0).is_none() {
            before.push(get_data_to(addr_from, node_addr, OpType::Tx, items[upto - 1]))
        } else {
            before
        }
    }
}

/// An inventory for each of the first `upto` known nodes but the node
/// itself and one other address.
pub open spec fn announcements(
    nodes: Seq<Seq<char>>,
    node_addr: Seq<char>,
    skip: Seq<char>,
    op_type: OpType,
    items: Seq<Seq<u8>>,
    upto: int,
) -> Seq<OutboundView>
    decreases upto,
{
    if upto <= 0 || upto > nodes.len() {
        Seq::empty()
    } else {
        let before = announcements(nodes, node_addr, skip, op_type, items, upto - 1);
        if nodes[upto - 1] == node_addr || nodes[upto - 1] == skip {
            before
        } else {
            before.push(inv_to(nodes[upto - 1], node_addr, op_type, items))
        }
    }
}

/// The pool without the first `upto` transactions of a list.
pub open spec fn pool_without(
    pool: Seq<PoolEntryView>,
    transactions: Seq<TransactionView>,
    upto: int,
) -> Seq<PoolEntryView>
    decreases upto,
{
    if upto <= 0 || upto > transactions.len() {
        pool
    } else {
        without_key(
            pool_without(pool, transactions, upto - 1),
            hex_text(transactions[upto - 1].id),
        )
    }
}

/// A transaction that may enter the pool: it verifies against the chain,
/// it creates no money, the outputs that it spends are unspent, and the pool
/// does not hold it.
pub open spec fn admissible(
    chain: Seq<BlockView>,
    index: Seq<UtxoEntryView>,
    pool: Seq<PoolEntryView>,
    tx: TransactionView,
) -> bool {
    &&& verify_outcome(tx, chain) == Ok::<bool, TxError>(true)
    &&& conserves(tx, chain, Seq::empty())
    &&& coinbase(tx) || inputs_unspent(index, tx.vin, 0)
    &&& key_position(pool, hex_text(tx.id), 0).is_none()
}

/// A transaction that is no coinbase and may enter the pool spends, with
/// each of its inputs, an output that the chain holds and that is unspent,
/// and each input carries a signature that is valid under the input's key
/// for the message made with the hash that locks that output.
pub proof fn lemma_admitted_inputs_are_signed(
    chain: Seq<BlockView>,
    index: Seq<UtxoEntryView>,
    pool: Seq<PoolEntryView>,
    tx: TransactionView,
    input: int,
)
    requires
        admissible(chain, index, pool, tx),
        !coinbase(tx),
        0 <= input < tx.vin.len(),
    ensures
        check_input(tx, chain, Seq::empty(), input) == InputCheck::Valid,
        unspent(index, tx.vin[input].txid, tx.vin[input].vout),
{
    lemma_verified_inputs(tx, chain, Seq::empty(), 0, input);
    lemma_each_input_unspent(index, tx.vin, 0, input);
}

/// The transactions of a pool, in its order.
pub open spec fn pooled(pool: Seq<PoolEntryView>) -> Seq<TransactionView> {
    pool.map_values(|e: PoolEntryView| e.tx)
}

/// The transaction that pays the miner, made with the given bytes in place
/// of a signature: none where the node does not mine or its mining address
/// is no address.
pub open spec fn reward_for(mining_address: Option<String>, signature: Seq<u8>) -> Option<
    TransactionView,
> {
    match mining_address {
        None => None,
        Some(address) => match base58_payload(address@) {
            None => None,
            Some(payload) => match address_hash(payload) {
                None => None,
                Some(owner) => Some(coinbase_paying(signature, owner)),
            },
        },
    }
}

pub open spec fn reward_view(reward: Option<Transaction>) -> Option<TransactionView> {
    match reward {
        Some(tx) => Some(tx@),
        None => None,
    }
}

/// How a node changes, and what it sends, when a peer delivers a block.
/// Bytes that hold no block change nothing. The block is offered to the
/// chain; where the chain takes it, the index follows and the block's
/// transactions leave the pool. Then the head of the queue of blocks in
/// transit leaves the queue and is requested from the peer; where the queue
/// is empty, the index is built anew.
pub open spec fn block_delivered(
    before: Server,
    after: Server,
    addr_from: Seq<char>,
    bytes: Seq<u8>,
    out: Seq<OutboundView>,
) -> bool {
    &&& after.nodes == before.nodes
    &&& after.node_addr == before.node_addr
    &&& after.mining_address == before.mining_address
    &&& match parse_block(bytes) {
        None => {
            &&& out == Seq::<OutboundView>::empty()
            &&& after.utxo_set == before.utxo_set
            &&& after.memory_pool == before.memory_pool
            &&& after.blocks_in_transit == before.blocks_in_transit
        },
        Some(received) => {
            let accepted = add_outcome(before.utxo_set.chain(), received) == AddOutcome::Appended;
            let queue = before.blocks_in_transit@;
            &&& after.utxo_set.chain() == chain_after(before.utxo_set.chain(), received)
            &&& after.memory_pool@ == (if accepted {
                pool_without(
                    before.memory_pool@,
                    received.transactions,
                    received.transactions.len() as int,
                )
            } else {
                before.memory_pool@
            })
            &&& if queue.len() > 0 {
                &&& out == seq![get_data_to(addr_from, before.node_addr@, OpType::Block, queue[0])]
                &&& after.blocks_in_transit@ == queue.remove(0)
                &&& after.utxo_set.index() == (if accepted {
                    apply_block(before.utxo_set.index(), received)
                } else {
                    before.utxo_set.index()
                })
            } else {
                &&& out == Seq::<OutboundView>::empty()
                &&& after.blocks_in_transit@ == queue
                &&& after.utxo_set.index() == index_of(after.utxo_set.chain())
            }
        },
    }
}

/// How a node changes, and what it sends, when a peer delivers a
/// transaction and `reward` is the transaction that would pay the miner.
/// Bytes that hold no transaction, a transaction that does not verify and
/// one that the pool holds change nothing. An admitted transaction is
/// advertised by the central node to the nodes other than the sender. Where
/// the pool has then reached the threshold and there is a reward, a block
/// with all pending transactions and the reward is mined; where the chain
/// takes it, the index follows, the pool is emptied and the block is
/// advertised to the known nodes.
pub open spec fn transaction_delivered(
    before: Server,
    after: Server,
    addr_from: Seq<char>,
    bytes: Seq<u8>,
    timestamp: i64,
    reward: Option<TransactionView>,
    out: Seq<OutboundView>,
) -> bool {
    let chain = before.utxo_set.chain();
    &&& after.nodes == before.nodes
    &&& after.node_addr == before.node_addr
    &&& after.mining_address == before.mining_address
    &&& after.blocks_in_transit == before.blocks_in_transit
    &&& match parse_transaction(bytes) {
        None => {
            &&& out == Seq::<OutboundView>::empty()
            &&& after.utxo_set == before.utxo_set
            &&& after.memory_pool == before.memory_pool
        },
        Some(tx) => if !admissible(chain, before.utxo_set.index(), before.memory_pool@, tx) {
            &&& out == Seq::<OutboundView>::empty()
            &&& after.utxo_set == before.utxo_set
            &&& after.memory_pool@ == before.memory_pool@
        } else {
            let pool = with_entry(before.memory_pool@, PoolEntryView { key: hex_text(tx.id), tx: tx });
            let relayed = if before.node_addr@ == CENTRAL_NODE@ {
                announcements(
                    before.nodes@,
                    before.node_addr@,
                    addr_from,
                    OpType::Tx,
                    seq![tx.id],
                    before.nodes@.len() as int,
                )
            } else {
                Seq::empty()
            };
            let block = if pool.len() >= TRANSACTION_THRESHOLD && reward.is_some() {
                mined_on(chain, pooled(pool).push(reward.unwrap()), timestamp)
            } else {
                None
            };
            match block {
                Some(mined) => {
                    &&& after.utxo_set.chain() == chain.push(mined)
                    &&& after.utxo_set.index() == apply_block(before.utxo_set.index(), mined)
                    &&& after.memory_pool@.len() == 0
                    &&& out == relayed + announcements(
                        before.nodes@,
                        before.node_addr@,
                        before.node_addr@,
                        OpType::Block,
                        seq![mined.hash],
                        before.nodes@.len() as int,
                    )
                },
                None => {
                    &&& after.utxo_set.chain() == chain
                    &&& after.utxo_set.index() == before.utxo_set.index()
                    &&& after.memory_pool@ == pool
                    &&& out == relayed
                },
            }
        },
    }
}

/// How a node changes, and what it sends, when a package arrives.
/// `timestamp` is the time that a block mined now would carry.
pub open spec fn served(
    before: Server,
    after: Server,
    pkg: PackageView,
    timestamp: i64,
    out: Seq<OutboundView>,
) -> bool {
    &&& after.node_addr == before.node_addr
    &&& after.mining_address == before.mining_address
    &&& match pkg {
        PackageView::Version { addr_from, version, best_height } => {
            &&& out == version_reply(
                before.node_addr@,
                (before.utxo_set.chain().len() - 1) as usize,
                addr_from,
                best_height,
            )
            &&& after.nodes@ == with_address(before.nodes@, addr_from)
            &&& after.utxo_set == before.utxo_set
            &&& after.memory_pool == before.memory_pool
            &&& after.blocks_in_transit == before.blocks_in_transit
        },
        PackageView::GetBlocks { addr_from } => {
            &&& out == seq![
                inv_to(
                    addr_from,
                    before.node_addr@,
                    OpType::Block,
                    hashes_from_tip(before.utxo_set.chain()),
                ),
            ]
            &&& after == before
        },
        PackageView::GetData { addr_from, op_type, id } => {
            &&& out == get_data_reply(
                before.node_addr@,
                before.utxo_set.chain(),
                before.memory_pool@,
                addr_from,
                op_type,
                id,
            )
            &&& after == before
        },
        PackageView::Inv { addr_from, op_type, items } => match op_type {
            OpType::Block => {
                let queue = enqueue_unseen(
                    before.utxo_set.chain(),
                    before.blocks_in_transit@,
                    items,
                    items.len() as int,
                );
                &&& after.utxo_set == before.utxo_set
                &&& after.memory_pool == before.memory_pool
                &&& after.nodes == before.nodes
                &&& if queue.len() > 0 {
                    after.blocks_in_transit@ == queue.remove(0) && out
                        == seq![
                        get_data_to(addr_from, before.node_addr@, OpType::Block, queue[0]),
                    ]
                } else {
                    after.blocks_in_transit@ == queue && out
                        == Seq::<OutboundView>::empty()
                }
            },
            OpType::Tx => {
                &&& out == requests_for_unseen(
                    before.node_addr@,
                    before.memory_pool@,
                    addr_from,
                    items,
                    items.len() as int,
                )
                &&& after == before
            },
        },
        PackageView::Block { addr_from, block } => block_delivered(
            before,
            after,
            addr_from,
            block,
            out,
        ),
        PackageView::Tx { addr_from, transaction } => exists|signature: Seq<u8>|
            signature.len() == 16 && transaction_delivered(
                before,
                after,
                addr_from,
                transaction,
                timestamp,
                #[trigger] reward_for(before.mining_address, signature),
                out,
            ),
    }
}

/// A node: its chain with the index of unspent outputs, the pending
/// transactions, the blocks it waits for and the peers it knows.
pub struct Server {
    pub utxo_set: UTXOSet,
    pub memory_pool: MemoryPool,
    pub blocks_in_transit: BlockInTransit,
    pub nodes: Nodes,
    pub node_addr: String,
    pub mining_address: Option<String>,
}

impl Server {
    /// The parts of the node obey their rules.
    pub open spec fn well_formed(&self) -> bool {
        &&& self.utxo_set.well_formed()
        &&& self.memory_pool.well_formed()
        &&& self.nodes.well_formed()
    }

    /// Checks the parts of the node against their rules.
    pub fn validate(&self) -> (valid: bool)
        ensures
            valid == self.well_formed(),
    {
        self.utxo_set.validate() && self.memory_pool.validate() && self.nodes.node_is_known(
            CENTRAL_NODE,
        )
    }

    /// The central node, on top of a chain: no pending transactions, nothing
    /// in transit, no peer known but itself, no mining. It obeys its rules
    /// where the chain does.
    pub fn new(blockchain: Blockchain) -> (server: Server)
        ensures
            blockchain.well_formed() ==> server.well_formed(),
            server.utxo_set.chain() == blockchain@,
            server.utxo_set.in_sync(),
            server.memory_pool@.len() == 0,
            server.blocks_in_transit@.len() == 0,
            server.nodes@ == seq![CENTRAL_NODE@],
            server.node_addr@ == CENTRAL_NODE@,
            server.mining_address.is_none(),
    {
        Server::with_config(blockchain, CENTRAL_NODE.to_owned(), None)
    }

    /// A node with its own address, on top of a chain; it mines for
    /// `mining_address` where that is given.
    pub fn with_config(blockchain: Blockchain, node_addr: String, mining_address: Option<String>) -> (server:
        Server)
        ensures
            blockchain.well_formed() ==> server.well_formed(),
            server.utxo_set.chain() == blockchain@,
            server.utxo_set.in_sync(),
            server.memory_pool@.len() == 0,
            server.blocks_in_transit@.len() == 0,
            server.nodes@ == seq![CENTRAL_NODE@],
            server.node_addr == node_addr,
            server.mining_address == mining_address,
    {
        let mut utxo_set = UTXOSet::new(blockchain);
        utxo_set.reindex();
        Server {
            utxo_set,
            memory_pool: MemoryPool::new(),
            blocks_in_transit: BlockInTransit::new(),
            nodes: Nodes::new(),
            node_addr,
            mining_address,
        }
    }

    /// The height of the node's chain.
    pub fn best_height(&self) -> (height: usize)
        requires
            self.well_formed(),
        ensures
            height == self.utxo_set.chain().len() - 1,
    {
        self.utxo_set.get_blockchain().get_best_height()
    }

    /// A peer announced its height. The peer becomes known. A peer that is
    /// ahead is asked for its blocks; a peer that is behind is told the
    /// node's height.
    pub fn handle_version(&mut self, addr_from: &str, best_height: usize) -> (out: Vec<Outbound>)
        requires
            old(self).well_formed(),
        ensures
            final(self).well_formed(),
            outbound_view(out@) == version_reply(
                old(self).node_addr@,
                (old(self).utxo_set.chain().len() - 1) as usize,
                addr_from@,
                best_height,
            ),
            final(self).nodes@ == with_address(old(self).nodes@, addr_from@),
            final(self).utxo_set == old(self).utxo_set,
            final(self).memory_pool == old(self).memory_pool,
            final(self).blocks_in_transit == old(self).blocks_in_transit,
            final(self).node_addr == old(self).node_addr,
            final(self).mining_address == old(self).mining_address,
    {
        let local = self.best_height();
        let mut out: Vec<Outbound> = Vec::new();
        if local < best_height {
            out.push(send_get_blocks(addr_from, self.node_addr.as_str()));
        } else if local > best_height {
            out.push(send_version(addr_from, self.node_addr.as_str(), local));
        }
        self.nodes.add_node(addr_from.to_owned());
        assert(outbound_view(out@) =~= version_reply(
            old(self).node_addr@,
            local,
            addr_from@,
            best_height,
        ));
        out
    }

    /// A peer asked for the inventory: it gets the hashes of all blocks, the
    /// tip's first.
    pub fn handle_get_blocks(&self, addr_from: &str) -> (out: Vec<Outbound>)
        ensures
            outbound_view(out@) == seq![
                inv_to(addr_from@, self.node_addr@, OpType::Block, hashes_from_tip(self.utxo_set.chain())),
            ],
    {
        let hashes = self.utxo_set.get_blockchain().get_block_hashes();
        let mut out: Vec<Outbound> = Vec::new();
        out.push(send_inv(addr_from, self.node_addr.as_str(), OpType::Block, hashes.as_slice()));
        assert(outbound_view(out@) =~= seq![
            inv_to(addr_from@, self.node_addr@, OpType::Block, hashes_from_tip(self.utxo_set.chain())),
        ]);
        out
    }

    /// A peer asked for one block or transaction: it gets the item where
    /// the node has it, and no answer where not.
    pub fn handle_get_data(&self, addr_from: &str, op_type: OpType, id: &[u8]) -> (out: Vec<Outbound>)
        ensures
            outbound_view(out@) == get_data_reply(
                self.node_addr@,
                self.utxo_set.chain(),
                self.memory_pool@,
                addr_from@,
                op_type,
                id@,
            ),
    {
        let mut out: Vec<Outbound> = Vec::new();
        match op_type {
            OpType::Block => {
                match self.utxo_set.get_blockchain().get_block(id) {
                    Some(block) => {
                        out.push(send_block(addr_from, self.node_addr.as_str(), &block));
                    },
                    None => {},
                }
            },
            OpType::Tx => {
                let txid_hex = hex_encode(id);
                match self.memory_pool.get(txid_hex.as_str()) {
                    Some(tx) => {
                        out.push(send_tx(addr_from, self.node_addr.as_str(), &tx));
                    },
                    None => {},
                }
            },
        }
        assert(outbound_view(out@) =~= get_data_reply(
            self.node_addr@,
            self.utxo_set.chain(),
            self.memory_pool@,
            addr_from@,
            op_type,
            id@,
        ));
        out
    }

    /// A peer advertised blocks. Each hash that neither the chain nor the
    /// queue has joins the queue; then the head of the queue leaves it and
    /// is requested from the peer.
    pub fn handle_inv_blocks(&mut self, addr_from: &str, items: &[Vec<u8>]) -> (out: Vec<Outbound>)
        ensures
            ({
                let queue = enqueue_unseen(
                    old(self).utxo_set.chain(),
                    old(self).blocks_in_transit@,
                    byte_strings(items@),
                    items@.len() as int,
                );
                if queue.len() > 0 {
                    final(self).blocks_in_transit@ == queue.remove(0) && outbound_view(out@) == seq![
                        get_data_to(addr_from@, old(self).node_addr@, OpType::Block, queue[0]),
                    ]
                } else {
                    final(self).blocks_in_transit@ == queue && outbound_view(out@)
                        == Seq::<OutboundView>::empty()
                }
            }),
            final(self).utxo_set == old(self).utxo_set,
            final(self).memory_pool == old(self).memory_pool,
            final(self).nodes == old(self).nodes,
            final(self).node_addr == old(self).node_addr,
            final(self).mining_address == old(self).mining_address,
    {
        let mut i: usize = 0;
        while i < items.len()
            invariant
                i <= items@.len(),
                self.blocks_in_transit@ == enqueue_unseen(
                    old(self).utxo_set.chain(),
                    old(self).blocks_in_transit@,
                    byte_strings(items@),
                    i as int,
                ),
                self.utxo_set == old(self).utxo_set,
                self.memory_pool == old(self).memory_pool,
                self.nodes == old(self).nodes,
                self.node_addr == old(self).node_addr,
                self.mining_address == old(self).mining_address,
            decreases items@.len() - i,
        {
            let hash = items[i].as_slice();
            assert(byte_strings(items@)[i as int] == hash@);
            if self.utxo_set.get_blockchain().find_position(hash).is_none()
                && !self.blocks_in_transit.contains(hash) {
                let ghost before = self.blocks_in_transit@;
                let single = vec![copy_bytes(hash)];
                assert(byte_strings(single@) =~= seq![hash@]);
                self.blocks_in_transit.add_blocks(single);
                assert(self.blocks_in_transit@ =~= before.push(hash@));
            }
            i += 1;
        }
        let mut out: Vec<Outbound> = Vec::new();
        match self.blocks_in_transit.first() {
            Some(head) => {
                out.push(send_get_data(addr_from, self.node_addr.as_str(), OpType::Block, head.as_slice()));
                self.blocks_in_transit.remove(head.as_slice());
                assert(outbound_view(out@) =~= seq![
                    get_data_to(addr_from@, old(self).node_addr@, OpType::Block, head@),
                ]);
            },
            None => {
                assert(outbound_view(out@) =~= Seq::<OutboundView>::empty());
            },
        }
        out
    }

    /// A peer advertised transactions: each that the pool does not hold is
    /// requested from the peer.
    pub fn handle_inv_transactions(&self, addr_from: &str, items: &[Vec<u8>]) -> (out: Vec<Outbound>)
        ensures
            outbound_view(out@) == requests_for_unseen(
                self.node_addr@,
                self.memory_pool@,
                addr_from@,
                byte_strings(items@),
                items@.len() as int,
            ),
    {
        let mut out: Vec<Outbound> = Vec::new();
        let mut i: usize = 0;
        assert(outbound_view(out@) =~= Seq::<OutboundView>::empty());
        while i < items.len()
            invariant
                i <= items@.len(),
                outbound_view(out@) == requests_for_unseen(
                    self.node_addr@,
                    self.memory_pool@,
                    addr_from@,
                    byte_strings(items@),
                    i as int,
                ),
            decreases items@.len() - i,
        {
            let id = items[i].as_slice();
            assert(byte_strings(items@)[i as int] == id@);
            let txid_hex = hex_encode(id);
            if !self.memory_pool.contains(txid_hex.as_str()) {
                let ghost before = outbound_view(out@);
                let request = send_get_data(addr_from, self.node_addr.as_str(), OpType::Tx, id);
                let ghost request_view = request@;
                out.push(request);
                assert(outbound_view(out@) =~= before.push(request_view));
            }
            i += 1;
        }
        out
    }

    /// Takes the transactions of a block out of the pool.
    pub fn forget_confirmed(&mut self, block: &Block)
        ensures
            final(self).memory_pool@ == pool_without(
                old(self).memory_pool@,
                block@.transactions,
                block@.transactions.len() as int,
            ),
            old(self).memory_pool.well_formed() ==> final(self).memory_pool.well_formed(),
            final(self).utxo_set == old(self).utxo_set,
            final(self).blocks_in_transit == old(self).blocks_in_transit,
            final(self).nodes == old(self).nodes,
            final(self).node_addr == old(self).node_addr,
            final(self).mining_address == old(self).mining_address,
    {
        let transactions = block.get_transactions();
        let mut i: usize = 0;
        while i < transactions.len()
            invariant
                i <= transactions@.len(),
                transactions_view(transactions@) == block@.transactions,
                self.memory_pool@ == pool_without(
                    old(self).memory_pool@,
                    block@.transactions,
                    i as int,
                ),
                old(self).memory_pool.well_formed() ==> self.memory_pool.well_formed(),
                self.utxo_set == old(self).utxo_set,
                self.blocks_in_transit == old(self).blocks_in_transit,
                self.nodes == old(self).nodes,
                self.node_addr == old(self).node_addr,
                self.mining_address == old(self).mining_address,
            decreases transactions@.len() - i,
        {
            assert(block@.transactions[i as int] == transactions@[i as int]@);
            let txid_hex = hex_encode(transactions[i].get_id());
            self.memory_pool.remove(txid_hex.as_str());
            i += 1;
        }
    }

    /// A peer delivered a block.
    pub fn handle_block(&mut self, addr_from: &str, block: &[u8]) -> (out: Vec<Outbound>)
        requires
            old(self).well_formed(),
        ensures
            final(self).well_formed(),
            block_delivered(*old(self), *final(self), addr_from@, block@, outbound_view(out@)),
    {
        let mut out: Vec<Outbound> = Vec::new();
        assert(outbound_view(out@) =~= Seq::<OutboundView>::empty());
        let received = match Block::deserialize(block) {
            Some(received) => received,
            None => {
                return out;
            },
        };
        let outcome = self.utxo_set.accept_block(&received);
        if outcome == AddOutcome::Appended {
            self.forget_confirmed(&received);
        }
        match self.blocks_in_transit.first() {
            Some(head) => {
                out.push(send_get_data(addr_from, self.node_addr.as_str(), OpType::Block, head.as_slice()));
                self.blocks_in_transit.remove(head.as_slice());
                assert(outbound_view(out@) =~= seq![
                    get_data_to(addr_from@, old(self).node_addr@, OpType::Block, head@),
                ]);
            },
            None => {
                self.utxo_set.reindex();
            },
        }
        out
    }

    /// Admits a transaction to the pool where it verifies against the chain,
    /// creates no money, spends unspent outputs only, and the pool does not
    /// hold it yet.
    pub fn admit_transaction(&mut self, tx: Transaction) -> (admitted: bool)
        ensures
            admitted == admissible(
                old(self).utxo_set.chain(),
                old(self).utxo_set.index(),
                old(self).memory_pool@,
                tx@,
            ),
            final(self).memory_pool@ == (if admitted {
                with_entry(
                    old(self).memory_pool@,
                    PoolEntryView { key: hex_text(tx@.id), tx: tx@ },
                )
            } else {
                old(self).memory_pool@
            }),
            old(self).memory_pool.well_formed() ==> final(self).memory_pool.well_formed(),
            final(self).utxo_set == old(self).utxo_set,
            final(self).blocks_in_transit == old(self).blocks_in_transit,
            final(self).nodes == old(self).nodes,
            final(self).node_addr == old(self).node_addr,
            final(self).mining_address == old(self).mining_address,
    {
        let verified = match tx.verify(self.utxo_set.get_blockchain()) {
            Ok(valid) => valid,
            Err(_) => false,
        };
        if !verified {
            return false;
        }
        let none: Vec<Transaction> = Vec::new();
        assert(transactions_view(none@).take(0) =~= Seq::<TransactionView>::empty());
        if !tx.conserves_value(self.utxo_set.get_blockchain(), none.as_slice(), 0) {
            return false;
        }
        if !self.utxo_set.spends_unspent(&tx) {
            return false;
        }
        let txid_hex = hex_encode(tx.get_id());
        if self.memory_pool.contains(txid_hex.as_str()) {
            return false;
        }
        self.memory_pool.add(tx);
        true
    }

    /// An inventory for every known node but the node itself and `skip`.
    pub fn announce(&self, skip: &str, op_type: OpType, items: &[Vec<u8>]) -> (out: Vec<Outbound>)
        ensures
            outbound_view(out@) == announcements(
                self.nodes@,
                self.node_addr@,
                skip@,
                op_type,
                byte_strings(items@),
                self.nodes@.len() as int,
            ),
    {
        let nodes = self.nodes.get_nodes();
        let skipped = skip.to_owned();
        let mut out: Vec<Outbound> = Vec::new();
        let mut i: usize = 0;
        assert(outbound_view(out@) =~= Seq::<OutboundView>::empty());
        while i < nodes.len()
            invariant
                i <= nodes@.len(),
                addresses(nodes@) == self.nodes@,
                skipped@ == skip@,
                outbound_view(out@) == announcements(
                    self.nodes@,
                    self.node_addr@,
                    skip@,
                    op_type,
                    byte_strings(items@),
                    i as int,
                ),
            decreases nodes@.len() - i,
        {
            assert(self.nodes@[i as int] == nodes@[i as int]@);
            if !(nodes[i] == self.node_addr) && !(nodes[i] == skipped) {
                let ghost before = outbound_view(out@);
                let inv = send_inv(nodes[i].as_str(), self.node_addr.as_str(), op_type, items);
                let ghost inv_view = inv@;
                out.push(inv);
                assert(outbound_view(out@) =~= before.push(inv_view));
            }
            i += 1;
        }
        out
    }

    /// Mines a block that holds the pending transactions and, last, the
    /// given coinbase transaction. Where the block is found and the chain
    /// takes it, the index follows and the pool is emptied; otherwise
    /// nothing changes.
    pub fn mine_pending(&mut self, coinbase_tx: Transaction, timestamp: i64) -> (block: Option<Block>)
        requires
            old(self).well_formed(),
        ensures
            final(self).well_formed(),
            old(self).utxo_set.in_sync() ==> final(self).utxo_set.in_sync(),
            final(self).blocks_in_transit == old(self).blocks_in_transit,
            final(self).nodes == old(self).nodes,
            final(self).node_addr == old(self).node_addr,
            final(self).mining_address == old(self).mining_address,
            block.is_some() == mined_on(
                old(self).utxo_set.chain(),
                pooled(old(self).memory_pool@).push(coinbase_tx@),
                timestamp,
            ).is_some(),
            block.is_some() ==> {
                &&& block.unwrap()@ == mined_on(
                    old(self).utxo_set.chain(),
                    pooled(old(self).memory_pool@).push(coinbase_tx@),
                    timestamp,
                ).unwrap()
                &&& final(self).utxo_set.chain() == old(self).utxo_set.chain().push(
                    block.unwrap()@,
                )
                &&& final(self).utxo_set.index() == apply_block(
                    old(self).utxo_set.index(),
                    block.unwrap()@,
                )
                &&& final(self).memory_pool@.len() == 0
            },
            block.is_none() ==> {
                &&& final(self).utxo_set.chain() == old(self).utxo_set.chain()
                &&& final(self).utxo_set.index() == old(self).utxo_set.index()
                &&& final(self).memory_pool@ == old(self).memory_pool@
            },
    {
        let mut transactions = self.memory_pool.get_all();
        transactions.push(coinbase_tx);
        assert(transactions_view(transactions@) =~= pooled(self.memory_pool@).push(coinbase_tx@));
        match self.utxo_set.mine_block(transactions, timestamp) {
            Some(block) => {
                self.memory_pool.clear();
                Some(block)
            },
            None => None,
        }
    }

    /// A peer delivered a transaction, and `reward` is the transaction that
    /// pays the miner of the block that may follow.
    pub fn handle_tx_with(
        &mut self,
        addr_from: &str,
        transaction: &[u8],
        timestamp: i64,
        reward: Option<Transaction>,
    ) -> (out: Vec<Outbound>)
        requires
            old(self).well_formed(),
        ensures
            final(self).well_formed(),
            old(self).utxo_set.in_sync() ==> final(self).utxo_set.in_sync(),
            transaction_delivered(
                *old(self),
                *final(self),
                addr_from@,
                transaction@,
                timestamp,
                reward_view(reward),
                outbound_view(out@),
            ),
    {
        let mut out: Vec<Outbound> = Vec::new();
        assert(outbound_view(out@) =~= Seq::<OutboundView>::empty());
        let tx = match Transaction::deserialize(transaction) {
            Some(tx) => tx,
            None => {
                return out;
            },
        };
        let txid = copy_bytes(tx.get_id());
        if !self.admit_transaction(tx) {
            return out;
        }
        let central = CENTRAL_NODE.to_owned();
        if self.node_addr == central {
            let ids = vec![txid];
            assert(byte_strings(ids@) =~= seq![ids@[0]@]);
            out = self.announce(addr_from, OpType::Tx, ids.as_slice());
        }
        let ghost relayed = outbound_view(out@);
        if self.memory_pool.len() >= TRANSACTION_THRESHOLD {
            match reward {
                Some(coinbase_tx) => {
                    match self.mine_pending(coinbase_tx, timestamp) {
                        Some(block) => {
                            let hashes = vec![copy_bytes(block.get_hash())];
                            assert(byte_strings(hashes@) =~= seq![block@.hash]);
                            let mut announced = self.announce(
                                self.node_addr.as_str(),
                                OpType::Block,
                                hashes.as_slice(),
                            );
                            let ghost announced_view = outbound_view(announced@);
                            out.append(&mut announced);
                            assert(outbound_view(out@) =~= relayed + announced_view);
                        },
                        None => {},
                    }
                },
                None => {},
            }
        }
        out
    }

    /// A peer delivered a transaction. Where the node mines, the reward is
    /// a fresh coinbase transaction for its mining address, with sixteen
    /// random bytes in place of a signature.
    pub fn handle_tx(&mut self, addr_from: &str, transaction: &[u8], timestamp: i64) -> (out: Vec<
        Outbound,
    >)
        requires
            old(self).well_formed(),
        ensures
            final(self).well_formed(),
            old(self).utxo_set.in_sync() ==> final(self).utxo_set.in_sync(),
            exists|signature: Seq<u8>|
                signature.len() == 16 && transaction_delivered(
                    *old(self),
                    *final(self),
                    addr_from@,
                    transaction@,
                    timestamp,
                    #[trigger] reward_for(old(self).mining_address, signature),
                    outbound_view(out@),
                ),
    {
        let reward = match &self.mining_address {
            Some(address) => Transaction::new_coinbase_tx(address.as_str()),
            None => None,
        };
        let ghost held = reward_view(reward);
        let ghost signature = match held {
            Some(tx) => tx.vin[0].signature,
            None => Seq::new(16, |i: int| 0u8),
        };
        assert(reward_view(reward) == reward_for(self.mining_address, signature));
        let out = self.handle_tx_with(addr_from, transaction, timestamp, reward);
        assert(transaction_delivered(
            *old(self),
            *self,
            addr_from@,
            transaction@,
            timestamp,
            reward_for(old(self).mining_address, signature),
            outbound_view(out@),
        ));
        out
    }

    /// What the node does with a package that arrived, and the packages
    /// that it sends in answer. `timestamp` is the time that a block mined
    /// now would carry.
    pub fn serve(&mut self, pkg: &Package, timestamp: i64) -> (out: Vec<Outbound>)
        requires
            old(self).well_formed(),
        ensures
            final(self).well_formed(),
            served(*old(self), *final(self), pkg@, timestamp, outbound_view(out@)),
    {
        match pkg {
            Package::Version { addr_from, version, best_height } => self.handle_version(
                addr_from.as_str(),
                *best_height,
            ),
            Package::GetBlocks { addr_from } => self.handle_get_blocks(addr_from.as_str()),
            Package::GetData { addr_from, op_type, id } => self.handle_get_data(
                addr_from.as_str(),
                *op_type,
                id.as_slice(),
            ),
            Package::Inv { addr_from, op_type, items } => match op_type {
                OpType::Block => self.handle_inv_blocks(addr_from.as_str(), items.as_slice()),
                OpType::Tx => self.handle_inv_transactions(addr_from.as_str(), items.as_slice()),
            },
            Package::Block { addr_from, block } => self.handle_block(
                addr_from.as_str(),
                block.as_slice(),
            ),
            Package::Tx { addr_from, transaction } => self.handle_tx(
                addr_from.as_str(),
                transaction.as_slice(),
                timestamp,
            ),
        }
    }
    /// Serves a package where the node's state obeys its rules, and does
    /// nothing where it does not.
    pub fn serve_checked(&mut self, pkg: &Package, timestamp: i64) -> (out: Option<Vec<Outbound>>)
        ensures
            out.is_some() == old(self).well_formed(),
            out.is_some() ==> final(self).well_formed() && served(
                *old(self),
                *final(self),
                pkg@,
                timestamp,
                outbound_view(out.unwrap()@),
            ),
            out.is_none() ==> *final(self) == *old(self),
    {
        if self.validate() {
            Some(self.serve(pkg, timestamp))
        } else {
            None
        }
    }
}

} // verus!
