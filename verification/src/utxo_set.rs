//! The index of unspent outputs: for each transaction that still has some,
//! the outputs that no later input has spent.

use vstd::prelude::*;
use crate::block::{sealed, Block, BlockView};
use crate::blockchain::{add_outcome, chain_after, linked, mined_on, AddOutcome, Blockchain};
use crate::primitives::{bytes_eq, copy_bytes, hex_encode, hex_text};
use crate::transaction::{
    coinbase, outputs_view, TXInputView, TXOutput, TXOutputView, Transaction,
    TransactionView,
};

verus! {

/// An unspent output, with its position among its transaction's outputs.
pub struct UtxoOutput {
    pub index: usize,
    pub output: TXOutput,
}

pub struct UtxoOutputView {
    pub index: usize,
    pub output: TXOutputView,
}

impl View for UtxoOutput {
    type V = UtxoOutputView;

    open spec fn view(&self) -> UtxoOutputView {
        UtxoOutputView { index: self.index, output: self.output@ }
    }
}

/// The unspent outputs of one transaction.
pub struct UtxoEntry {
    pub txid: Vec<u8>,
    pub outputs: Vec<UtxoOutput>,
}

pub struct UtxoEntryView {
    pub txid: Seq<u8>,
    pub outputs: Seq<UtxoOutputView>,
}

impl View for UtxoEntry {
    type V = UtxoEntryView;

    open spec fn view(&self) -> UtxoEntryView {
        UtxoEntryView { txid: self.txid@, outputs: unspent_view(self.outputs@) }
    }
}

/// Outputs of one transaction that were picked for spending.
pub struct Spendable {
    pub txid_hex: String,
    pub outputs: Vec<usize>,
}

pub struct SpendableView {
    pub txid_hex: Seq<char>,
    pub outputs: Seq<usize>,
}

impl View for Spendable {
    type V = SpendableView;

    open spec fn view(&self) -> SpendableView {
        SpendableView { txid_hex: self.txid_hex@, outputs: self.outputs@ }
    }
}

pub open spec fn unspent_view(outputs: Seq<UtxoOutput>) -> Seq<UtxoOutputView> {
    outputs.map_values(|o: UtxoOutput| o@)
}

pub open spec fn entries_view(entries: Seq<UtxoEntry>) -> Seq<UtxoEntryView> {
    entries.map_values(|e: UtxoEntry| e@)
}

pub open spec fn spendable_view(picked: Seq<Spendable>) -> Seq<SpendableView> {
    picked.map_values(|s: Spendable| s@)
}

/// The position of the first entry for a transaction, from `from` on.
pub open spec fn entry_position(index: Seq<UtxoEntryView>, txid: Seq<u8>, from: int) -> Option<int>
    decreases index.len() - from,
{
    if from < 0 || from >= index.len() {
        None
    } else if index[from].txid == txid {
        Some(from)
    } else {
        entry_position(index, txid, from + 1)
    }
}

/// The outputs of a list other than the one at position `vout` of its
/// transaction.
pub open spec fn without_output(outputs: Seq<UtxoOutputView>, vout: usize) -> Seq<UtxoOutputView>
    decreases outputs.len(),
{
    if outputs.len() == 0 {
        Seq::empty()
    } else if outputs.last().index == vout {
        without_output(outputs.drop_last(), vout)
    } else {
        without_output(outputs.drop_last(), vout).push(outputs.last())
    }
}

/// The index after output `vout` of transaction `txid` was spent: the output
/// leaves its entry, and an entry that is left empty leaves the index. An
/// index without an entry for the transaction stays as it is.
pub open spec fn spend(index: Seq<UtxoEntryView>, txid: Seq<u8>, vout: usize) -> Seq<UtxoEntryView> {
    match entry_position(index, txid, 0) {
        None => index,
        Some(position) => {
            let rest = without_output(index[position].outputs, vout);
            if rest.len() == 0 {
                index.remove(position)
            } else {
                index.update(position, UtxoEntryView { txid: txid, outputs: rest })
            }
        },
    }
}

/// The output at position `vout` of its transaction, among the outputs from
/// `from` on.
pub open spec fn listed_output(outputs: Seq<UtxoOutputView>, vout: usize, from: int) -> Option<
    TXOutputView,
>
    decreases outputs.len() - from,
{
    if from < 0 || from >= outputs.len() {
        None
    } else if outputs[from].index == vout {
        Some(outputs[from].output)
    } else {
        listed_output(outputs, vout, from + 1)
    }
}

/// Output `vout` of transaction `txid`, where the index holds it.
pub open spec fn unspent_output(index: Seq<UtxoEntryView>, txid: Seq<u8>, vout: usize) -> Option<
    TXOutputView,
> {
    match entry_position(index, txid, 0) {
        Some(position) => listed_output(index[position].outputs, vout, 0),
        None => None,
    }
}

/// Whether output `vout` of transaction `txid` is unspent.
pub open spec fn unspent(index: Seq<UtxoEntryView>, txid: Seq<u8>, vout: usize) -> bool {
    unspent_output(index, txid, vout).is_some()
}

/// Whether each of the inputs from `from` on spends an unspent output.
pub open spec fn inputs_unspent(index: Seq<UtxoEntryView>, inputs: Seq<TXInputView>, from: int) -> bool
    decreases inputs.len() - from,
{
    if from < 0 || from >= inputs.len() {
        true
    } else {
        unspent(index, inputs[from].txid, inputs[from].vout) && inputs_unspent(
            index,
            inputs,
            from + 1,
        )
    }
}

/// Where the inputs from `from` on spend unspent outputs, each of them does.
pub proof fn lemma_each_input_unspent(
    index: Seq<UtxoEntryView>,
    inputs: Seq<TXInputView>,
    from: int,
    at: int,
)
    requires
        inputs_unspent(index, inputs, from),
        0 <= from <= at < inputs.len(),
    ensures
        unspent(index, inputs[at].txid, inputs[at].vout),
    decreases inputs.len() - from,
{
    if from < at {
        lemma_each_input_unspent(index, inputs, from + 1, at);
    }
}

/// All outputs of a transaction, each with its position.
pub open spec fn all_outputs(outputs: Seq<TXOutputView>) -> Seq<UtxoOutputView> {
    Seq::new(outputs.len(), |i: int| UtxoOutputView { index: i as usize, output: outputs[i] })
}

/// The index after the outputs of a transaction were recorded: they replace
/// the transaction's entry, or form a new one at the end.
pub open spec fn record(index: Seq<UtxoEntryView>, txid: Seq<u8>, outputs: Seq<UtxoOutputView>) -> Seq<
    UtxoEntryView,
> {
    let entry = UtxoEntryView { txid: txid, outputs: outputs };
    match entry_position(index, txid, 0) {
        None => index.push(entry),
        Some(position) => index.update(position, entry),
    }
}

/// The index after the first `upto` inputs of a list were spent, in order.
pub open spec fn spend_inputs(index: Seq<UtxoEntryView>, inputs: Seq<TXInputView>, upto: int) -> Seq<
    UtxoEntryView,
>
    decreases upto,
{
    if upto <= 0 || upto > inputs.len() {
        index
    } else {
        spend(spend_inputs(index, inputs, upto - 1), inputs[upto - 1].txid, inputs[upto - 1].vout)
    }
}

/// The index after a transaction: unless it is a coinbase, what its inputs
/// spend leaves; then all its outputs are recorded.
pub open spec fn apply_transaction(index: Seq<UtxoEntryView>, tx: TransactionView) -> Seq<
    UtxoEntryView,
> {
    let spent = if coinbase(tx) {
        index
    } else {
        spend_inputs(index, tx.vin, tx.vin.len() as int)
    };
    record(spent, tx.id, all_outputs(tx.vout))
}

/// The index after the first `upto` transactions of a list, in order.
pub open spec fn apply_transactions(
    index: Seq<UtxoEntryView>,
    transactions: Seq<TransactionView>,
    upto: int,
) -> Seq<UtxoEntryView>
    decreases upto,
{
    if upto <= 0 || upto > transactions.len() {
        index
    } else {
        apply_transaction(apply_transactions(index, transactions, upto - 1), transactions[upto - 1])
    }
}

/// The index after a block: its transactions in the block's order.
pub open spec fn apply_block(index: Seq<UtxoEntryView>, block: BlockView) -> Seq<UtxoEntryView> {
    apply_transactions(index, block.transactions, block.transactions.len() as int)
}

/// The index that the first `upto` blocks of a chain give, from an empty
/// index and the genesis block on.
pub open spec fn replay(chain: Seq<BlockView>, upto: int) -> Seq<UtxoEntryView>
    decreases upto,
{
    if upto <= 0 || upto > chain.len() {
        Seq::empty()
    } else {
        apply_block(replay(chain, upto - 1), chain[upto - 1])
    }
}

/// The index of a whole chain.
pub open spec fn index_of(chain: Seq<BlockView>) -> Seq<UtxoEntryView> {
    replay(chain, chain.len() as int)
}

/// A sum of amounts that stays at the bounds of `i32` where it would pass
/// them.
pub open spec fn saturated(sum: int) -> i32 {
    if sum > i32::MAX {
        i32::MAX
    } else if sum < i32::MIN {
        i32::MIN
    } else {
        sum as i32
    }
}

/// Picks among the first `upto` outputs of an entry: an output of the owner
/// is taken while the amount gathered so far is below `amount`. Gives the
/// amount gathered and the positions taken.
pub open spec fn pick_outputs(
    outputs: Seq<UtxoOutputView>,
    owner: Seq<u8>,
    amount: i32,
    gathered: i32,
    upto: int,
) -> (i32, Seq<usize>)
    decreases upto,
{
    if upto <= 0 || upto > outputs.len() {
        (gathered, Seq::empty())
    } else {
        let (before, taken) = pick_outputs(outputs, owner, amount, gathered, upto - 1);
        let candidate = outputs[upto - 1];
        if candidate.output.pub_key_hash == owner && before < amount {
            (saturated(before + candidate.output.value), taken.push(candidate.index))
        } else {
            (before, taken)
        }
    }
}

/// Picks among the first `upto` entries of an index, in order. An entry of
/// which nothing is taken does not appear.
pub open spec fn pick_entries(index: Seq<UtxoEntryView>, owner: Seq<u8>, amount: i32, upto: int) -> (
    i32,
    Seq<SpendableView>,
)
    decreases upto,
{
    if upto <= 0 || upto > index.len() {
        (0, Seq::empty())
    } else {
        let (before, picked) = pick_entries(index, owner, amount, upto - 1);
        let entry = index[upto - 1];
        let (after, taken) = pick_outputs(
            entry.outputs,
            owner,
            amount,
            before,
            entry.outputs.len() as int,
        );
        if taken.len() > 0 {
            (after, picked.push(SpendableView { txid_hex: hex_text(entry.txid), outputs: taken }))
        } else {
            (after, picked)
        }
    }
}

/// The owner's outputs among the first `upto` of an entry.
pub open spec fn owned_outputs(outputs: Seq<UtxoOutputView>, owner: Seq<u8>, upto: int) -> Seq<
    TXOutputView,
>
    decreases upto,
{
    if upto <= 0 || upto > outputs.len() {
        Seq::empty()
    } else if outputs[upto - 1].output.pub_key_hash == owner {
        owned_outputs(outputs, owner, upto - 1).push(outputs[upto - 1].output)
    } else {
        owned_outputs(outputs, owner, upto - 1)
    }
}

/// The owner's outputs in the first `upto` entries of an index.
pub open spec fn owned_in(index: Seq<UtxoEntryView>, owner: Seq<u8>, upto: int) -> Seq<TXOutputView>
    decreases upto,
{
    if upto <= 0 || upto > index.len() {
        Seq::empty()
    } else {
        owned_in(index, owner, upto - 1) + owned_outputs(
            index[upto - 1].outputs,
            owner,
            index[upto - 1].outputs.len() as int,
        )
    }
}

pub struct UTXOSet {
    blockchain: Blockchain,
    entries: Vec<UtxoEntry>,
}

impl UTXOSet {
    /// The entries of the index, in the order in which they were first
    /// recorded.
    pub closed spec fn index(&self) -> Seq<UtxoEntryView> {
        entries_view(self.entries@)
    }

    /// The blocks of the chain that the index belongs to.
    pub closed spec fn chain(&self) -> Seq<BlockView> {
        self.blockchain@
    }

    /// The chain obeys the rules of a chain.
    pub open spec fn well_formed(&self) -> bool {
        linked(self.chain())
    }

    /// The index is the one that a rebuild from the genesis block finds.
    pub open spec fn in_sync(&self) -> bool {
        self.index() == index_of(self.chain())
    }

    /// Checks the chain against the rules of a chain.
    pub fn validate(&self) -> (valid: bool)
        ensures
            valid == self.well_formed(),
    {
        self.blockchain.validate()
    }

    /// An empty index beside a chain.
    pub fn new(blockchain: Blockchain) -> (set: UTXOSet)
        ensures
            set.chain() == blockchain@,
            set.index() == Seq::<UtxoEntryView>::empty(),
    {
        let set = UTXOSet { blockchain, entries: Vec::new() };
        assert(set.index() =~= Seq::<UtxoEntryView>::empty());
        set
    }

    pub fn get_blockchain(&self) -> (blockchain: &Blockchain)
        ensures
            blockchain@ == self.chain(),
    {
        &self.blockchain
    }

    /// Number of transactions that have unspent outputs.
    pub fn count_transactions(&self) -> (count: usize)
        ensures
            count == self.index().len(),
    {
        self.entries.len()
    }

    /// The position of the entry of a transaction.
    fn position(&self, txid: &[u8]) -> (position: Option<usize>)
        ensures
            position.is_some() == entry_position(self.index(), txid@, 0).is_some(),
            position.is_some() ==> position.unwrap() as int == entry_position(
                self.index(),
                txid@,
                0,
            ).unwrap() && position.unwrap() < self.entries@.len(),
    {
        let mut i: usize = 0;
        while i < self.entries.len()
            invariant
                i <= self.entries@.len(),
                entry_position(self.index(), txid@, 0) == entry_position(
                    self.index(),
                    txid@,
                    i as int,
                ),
            decreases self.entries@.len() - i,
        {
            if bytes_eq(self.entries[i].txid.as_slice(), txid) {
                return Some(i);
            }
            i += 1;
        }
        None
    }

    /// Whether output `vout` of transaction `txid` is unspent.
    pub fn is_unspent(&self, txid: &[u8], vout: usize) -> (answer: bool)
        ensures
            answer == unspent(self.index(), txid@, vout),
    {
        match self.position(txid) {
            None => false,
            Some(position) => {
                let entry = &self.entries[position];
                assert(entry@ == self.index()[position as int]);
                let mut i: usize = 0;
                while i < entry.outputs.len()
                    invariant
                        i <= entry.outputs@.len(),
                        entry_position(self.index(), txid@, 0) == Some(position as int),
                        entry@ == self.index()[position as int],
                        listed_output(entry@.outputs, vout, 0) == listed_output(
                            entry@.outputs,
                            vout,
                            i as int,
                        ),
                    decreases entry.outputs@.len() - i,
                {
                    assert(entry@.outputs[i as int] == entry.outputs@[i as int]@);
                    if entry.outputs[i].index == vout {
                        return true;
                    }
                    i += 1;
                }
                false
            },
        }
    }

    /// Whether a transaction spends unspent outputs only. A coinbase
    /// transaction spends none.
    pub fn spends_unspent(&self, tx: &Transaction) -> (answer: bool)
        ensures
            answer == (coinbase(tx@) || inputs_unspent(self.index(), tx@.vin, 0)),
    {
        if tx.is_coinbase() {
            return true;
        }
        let inputs = tx.get_vin();
        let mut i: usize = 0;
        while i < inputs.len()
            invariant
                i <= inputs@.len(),
                crate::transaction::inputs_view(inputs@) == tx@.vin,
                !coinbase(tx@),
                inputs_unspent(self.index(), tx@.vin, 0) == inputs_unspent(
                    self.index(),
                    tx@.vin,
                    i as int,
                ),
            decreases inputs@.len() - i,
        {
            assert(tx@.vin[i as int] == inputs@[i as int]@);
            if !self.is_unspent(inputs[i].get_txid(), inputs[i].get_vout()) {
                return false;
            }
            i += 1;
        }
        true
    }

    /// Takes output `vout` of transaction `txid` out of the index.
    pub fn spend_output(&mut self, txid: &[u8], vout: usize)
        ensures
            final(self).index() == spend(old(self).index(), txid@, vout),
            final(self).chain() == old(self).chain(),
    {
        match self.position(txid) {
            None => {},
            Some(position) => {
                let ghost before = self.index();
                let entry = self.entries.remove(position);
                let mut rest: Vec<UtxoOutput> = Vec::new();
                let mut i: usize = 0;
                assert(entry@.outputs.take(0) =~= Seq::<UtxoOutputView>::empty());
                while i < entry.outputs.len()
                    invariant
                        i <= entry.outputs@.len(),
                        unspent_view(rest@) == without_output(entry@.outputs.take(i as int), vout),
                    decreases entry.outputs@.len() - i,
                {
                    proof {
                        let next = entry@.outputs.take(i + 1);
                        assert(next.drop_last() =~= entry@.outputs.take(i as int));
                        assert(next.last() == entry.outputs@[i as int]@);
                    }
                    if entry.outputs[i].index != vout {
                        let ghost old_rest = unspent_view(rest@);
                        rest.push(
                            UtxoOutput {
                                index: entry.outputs[i].index,
                                output: entry.outputs[i].output.duplicate(),
                            },
                        );
                        assert(unspent_view(rest@) =~= old_rest.push(entry.outputs@[i as int]@));
                    }
                    i += 1;
                }
                assert(entry@.outputs.take(entry.outputs@.len() as int) =~= entry@.outputs);
                assert(entry@ == before[position as int]);
                if rest.len() == 0 {
                    assert(self.index() =~= before.remove(position as int));
                } else {
                    let ghost rest_view = unspent_view(rest@);
                    self.entries.insert(position, UtxoEntry { txid: copy_bytes(txid), outputs: rest });
                    assert(self.index() =~= before.update(
                        position as int,
                        UtxoEntryView { txid: txid@, outputs: rest_view },
                    ));
                }
            },
        }
    }

    /// Records all outputs of a transaction as unspent.
    pub fn record_outputs(&mut self, txid: &[u8], outputs: &[TXOutput])
        ensures
            final(self).index() == record(
                old(self).index(),
                txid@,
                all_outputs(outputs_view(outputs@)),
            ),
            final(self).chain() == old(self).chain(),
    {
        let mut unspent: Vec<UtxoOutput> = Vec::new();
        let mut i: usize = 0;
        while i < outputs.len()
            invariant
                i <= outputs@.len(),
                unspent@.len() == i,
                forall|k: int|
                    0 <= k < i ==> unspent@[k]@ == (UtxoOutputView {
                        index: k as usize,
                        output: outputs@[k]@,
                    }),
            decreases outputs@.len() - i,
        {
            unspent.push(UtxoOutput { index: i, output: outputs[i].duplicate() });
            i += 1;
        }
        let entry = UtxoEntry { txid: copy_bytes(txid), outputs: unspent };
        assert(entry@.outputs =~= all_outputs(outputs_view(outputs@)));
        let ghost before = self.index();
        let ghost entry_view = entry@;
        match self.position(txid) {
            None => {
                self.entries.push(entry);
                assert(self.index() =~= before.push(entry_view));
            },
            Some(position) => {
                self.entries.remove(position);
                self.entries.insert(position, entry);
                assert(self.index() =~= before.update(position as int, entry_view));
            },
        }
    }

    /// Brings the index up to date with one transaction.
    pub fn apply(&mut self, tx: &Transaction)
        ensures
            final(self).index() == apply_transaction(old(self).index(), tx@),
            final(self).chain() == old(self).chain(),
    {
        if !tx.is_coinbase() {
            let inputs = tx.get_vin();
            let mut i: usize = 0;
            while i < inputs.len()
                invariant
                    i <= inputs@.len(),
                    crate::transaction::inputs_view(inputs@) == tx@.vin,
                    self.index() == spend_inputs(old(self).index(), tx@.vin, i as int),
                    self.chain() == old(self).chain(),
                decreases inputs@.len() - i,
            {
                assert(tx@.vin[i as int] == inputs@[i as int]@);
                self.spend_output(inputs[i].get_txid(), inputs[i].get_vout());
                i += 1;
            }
        }
        self.record_outputs(tx.get_id(), tx.get_vout());
    }

    /// Brings the index up to date with a block that was appended to the
    /// chain: transaction by transaction, in the block's order, what the
    /// inputs spend leaves the index and the new outputs enter it.
    pub fn update(&mut self, block: &Block)
        ensures
            final(self).index() == apply_block(old(self).index(), block@),
            final(self).chain() == old(self).chain(),
    {
        let transactions = block.get_transactions();
        let mut i: usize = 0;
        while i < transactions.len()
            invariant
                i <= transactions@.len(),
                crate::block::transactions_view(transactions@) == block@.transactions,
                self.index() == apply_transactions(old(self).index(), block@.transactions, i as int),
                self.chain() == old(self).chain(),
            decreases transactions@.len() - i,
        {
            assert(block@.transactions[i as int] == transactions@[i as int]@);
            self.apply(&transactions[i]);
            i += 1;
        }
    }

    /// Builds the index anew: it is emptied, and the chain's blocks are
    /// applied from the genesis block to the tip.
    pub fn reindex(&mut self)
        ensures
            final(self).index() == index_of(old(self).chain()),
            final(self).chain() == old(self).chain(),
    {
        self.entries.clear();
        assert(self.index() =~= Seq::<UtxoEntryView>::empty());
        let n: usize = self.blockchain.len();
        let mut i: usize = 0;
        while i < n
            invariant
                i <= n,
                n == self.chain().len(),
                self.chain() == old(self).chain(),
                self.index() == replay(self.chain(), i as int),
            decreases n - i,
        {
            let block = self.blockchain.block_at(i).duplicate();
            self.update(&block);
            i += 1;
        }
    }

    /// Offers a block to the chain, and brings the index up to date with it
    /// where the chain takes it.
    pub fn accept_block(&mut self, block: &Block) -> (outcome: AddOutcome)
        requires
            old(self).well_formed(),
        ensures
            outcome == add_outcome(old(self).chain(), block@),
            final(self).chain() == chain_after(old(self).chain(), block@),
            final(self).index() == (if outcome == AddOutcome::Appended {
                apply_block(old(self).index(), block@)
            } else {
                old(self).index()
            }),
            final(self).well_formed(),
            old(self).in_sync() ==> final(self).in_sync(),
    {
        let outcome = self.blockchain.add_block(block);
        if outcome == AddOutcome::Appended {
            self.update(block);
            proof {
                lemma_reindex_is_incremental_update(old(self).chain(), block@);
            }
        }
        outcome
    }

    /// Mines a block with the given transactions on top of the tip, appends
    /// it and brings the index up to date with it. `None`, with nothing
    /// changed, where no nonce solves the block or the chain refuses it.
    pub fn mine_block(&mut self, transactions: Vec<Transaction>, timestamp: i64) -> (block: Option<
        Block,
    >)
        requires
            old(self).well_formed(),
        ensures
            final(self).well_formed(),
            old(self).in_sync() ==> final(self).in_sync(),
            block.is_some() == mined_on(
                old(self).chain(),
                crate::block::transactions_view(transactions@),
                timestamp,
            ).is_some(),
            block.is_some() ==> {
                &&& block.unwrap()@ == mined_on(
                    old(self).chain(),
                    crate::block::transactions_view(transactions@),
                    timestamp,
                ).unwrap()
                &&& sealed(block.unwrap()@)
                &&& final(self).chain() == old(self).chain().push(block.unwrap()@)
                &&& final(self).index() == apply_block(old(self).index(), block.unwrap()@)
            },
            block.is_none() ==> final(self).chain() == old(self).chain() && final(self).index()
                == old(self).index(),
    {
        match self.blockchain.mine_block(transactions, timestamp) {
            Some(block) => {
                self.update(&block);
                proof {
                    lemma_reindex_is_incremental_update(old(self).chain(), block@);
                }
                Some(block)
            },
            None => None,
        }
    }

    /// All unspent outputs of an owner, in the order of the index.
    pub fn find_utxo(&self, pub_key_hash: &[u8]) -> (utxos: Vec<TXOutput>)
        ensures
            outputs_view(utxos@) == owned_in(self.index(), pub_key_hash@, self.index().len() as int),
    {
        let mut utxos: Vec<TXOutput> = Vec::new();
        let mut i: usize = 0;
        assert(outputs_view(utxos@) =~= Seq::<TXOutputView>::empty());
        while i < self.entries.len()
            invariant
                i <= self.entries@.len(),
                outputs_view(utxos@) == owned_in(self.index(), pub_key_hash@, i as int),
            decreases self.entries@.len() - i,
        {
            let entry = &self.entries[i];
            let ghost start = outputs_view(utxos@);
            let mut j: usize = 0;
            assert(entry@ == self.index()[i as int]);
            assert(start + Seq::<TXOutputView>::empty() =~= start);
            while j < entry.outputs.len()
                invariant
                    j <= entry.outputs@.len(),
                    outputs_view(utxos@) == start + owned_outputs(
                        entry@.outputs,
                        pub_key_hash@,
                        j as int,
                    ),
                decreases entry.outputs@.len() - j,
            {
                let candidate = &entry.outputs[j];
                assert(entry@.outputs[j as int] == candidate@);
                if candidate.output.is_locked_with_key(pub_key_hash) {
                    let ghost before = outputs_view(utxos@);
                    utxos.push(candidate.output.duplicate());
                    assert(outputs_view(utxos@) =~= before.push(candidate@.output));
                    assert(before.push(candidate@.output) =~= start + owned_outputs(
                        entry@.outputs,
                        pub_key_hash@,
                        j + 1,
                    ));
                }
                j += 1;
            }
            i += 1;
        }
        utxos
    }

    /// Gathers outputs of an owner for spending `amount`: the index is
    /// scanned in order, and an output of the owner is taken while what was
    /// gathered so far is below `amount`. Returns the amount gathered and, for
    /// each transaction of which outputs were taken, its id in hexadecimal
    /// and their positions.
    pub fn find_spendable_outputs(&self, pub_key_hash: &[u8], amount: i32) -> (found: (
        i32,
        Vec<Spendable>,
    ))
        ensures
            (found.0, spendable_view(found.1@)) == pick_entries(
                self.index(),
                pub_key_hash@,
                amount,
                self.index().len() as int,
            ),
    {
        let mut picked: Vec<Spendable> = Vec::new();
        let mut gathered: i32 = 0;
        let mut i: usize = 0;
        assert(spendable_view(picked@) =~= Seq::<SpendableView>::empty());
        while i < self.entries.len()
            invariant
                i <= self.entries@.len(),
                (gathered, spendable_view(picked@)) == pick_entries(
                    self.index(),
                    pub_key_hash@,
                    amount,
                    i as int,
                ),
            decreases self.entries@.len() - i,
        {
            let entry = &self.entries[i];
            assert(entry@ == self.index()[i as int]);
            let ghost before = gathered;
            let mut taken: Vec<usize> = Vec::new();
            let mut j: usize = 0;
            while j < entry.outputs.len()
                invariant
                    j <= entry.outputs@.len(),
                    (gathered, taken@) == pick_outputs(
                        entry@.outputs,
                        pub_key_hash@,
                        amount,
                        before,
                        j as int,
                    ),
                decreases entry.outputs@.len() - j,
            {
                let candidate = &entry.outputs[j];
                assert(entry@.outputs[j as int] == candidate@);
                if candidate.output.is_locked_with_key(pub_key_hash) && gathered < amount {
                    gathered = saturating_sum(gathered, candidate.output.get_value());
                    taken.push(candidate.index);
                }
                j += 1;
            }
            if taken.len() > 0 {
                let ghost old_picked = spendable_view(picked@);
                let chosen = Spendable { txid_hex: hex_encode(entry.txid.as_slice()), outputs: taken };
                let ghost chosen_view = chosen@;
                picked.push(chosen);
                assert(spendable_view(picked@) =~= old_picked.push(chosen_view));
            }
            i += 1;
        }
        (gathered, picked)
    }
}

/// The sum of two amounts, kept within the bounds of `i32`.
pub fn saturating_sum(a: i32, b: i32) -> (sum: i32)
    ensures
        sum == saturated(a + b),
{
    let wide: i64 = a as i64 + b as i64;
    if wide > i32::MAX as i64 {
        i32::MAX
    } else if wide < i32::MIN as i64 {
        i32::MIN
    } else {
        wide as i32
    }
}

/// The index of a chain does not depend on blocks that come later.
pub proof fn lemma_replay_prefix(chain: Seq<BlockView>, block: BlockView, upto: int)
    requires
        0 <= upto <= chain.len(),
    ensures
        replay(chain.push(block), upto) == replay(chain, upto),
    decreases upto,
{
    if upto > 0 {
        lemma_replay_prefix(chain, block, upto - 1);
        assert(chain.push(block)[upto - 1] == chain[upto - 1]);
    }
}

/// Building the index anew after a block was appended gives what updating
/// the index of the chain before with that block gives: an index kept up to
/// date block by block is the index that a rebuild from the genesis block
/// finds.
pub proof fn lemma_reindex_is_incremental_update(chain: Seq<BlockView>, block: BlockView)
    ensures
        index_of(chain.push(block)) == apply_block(index_of(chain), block),
{
    lemma_replay_prefix(chain, block, chain.len() as int);
    assert(chain.push(block)[chain.len() as int] == block);
}

} // verus!
