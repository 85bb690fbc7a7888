//! What the index of unspent outputs holds, stated over the history of
//! transactions: an output is unspent exactly where the last transaction
//! with its id has it and no later transaction has spent it.

use vstd::prelude::*;
use crate::block::BlockView;
use crate::transaction::{coinbase, TXInputView, TXOutputView, TransactionView};
use crate::utxo_set::{
    all_outputs, apply_transaction, apply_transactions, entry_position, listed_output, record,
    replay, spend, spend_inputs, unspent_output, without_output, UtxoEntryView, UtxoOutputView,
};

verus! {

/// No two entries of an index belong to one transaction.
pub open spec fn distinct_entries(index: Seq<UtxoEntryView>) -> bool {
    forall|i: int, j: int|
        0 <= i < j < index.len() ==> (#[trigger] index[i]).txid != (#[trigger] index[j]).txid
}

/// Whether one of the first `upto` inputs spends output `vout` of
/// transaction `txid`.
pub open spec fn consumed_by(inputs: Seq<TXInputView>, txid: Seq<u8>, vout: usize, upto: int) -> bool
    decreases upto,
{
    if upto <= 0 || upto > inputs.len() {
        false
    } else {
        consumed_by(inputs, txid, vout, upto - 1) || (inputs[upto - 1].txid == txid && inputs[upto
            - 1].vout == vout)
    }
}

/// Whether a transaction spends output `vout` of transaction `txid`. A
/// coinbase transaction spends nothing.
pub open spec fn spends(tx: TransactionView, txid: Seq<u8>, vout: usize) -> bool {
    !coinbase(tx) && consumed_by(tx.vin, txid, vout, tx.vin.len() as int)
}

/// Output `vout` of transaction `txid` as it is there to be spent after the
/// first `upto` transactions of a list, given what was there before them:
/// the last transaction with that id decides by its outputs, and after it no
/// transaction has spent the output.
pub open spec fn output_after(
    before: Option<TXOutputView>,
    transactions: Seq<TransactionView>,
    upto: int,
    txid: Seq<u8>,
    vout: usize,
) -> Option<TXOutputView>
    decreases upto,
{
    if upto <= 0 || upto > transactions.len() {
        before
    } else if transactions[upto - 1].id == txid {
        if vout < transactions[upto - 1].vout.len() {
            Some(transactions[upto - 1].vout[vout as int])
        } else {
            None
        }
    } else if spends(transactions[upto - 1], txid, vout) {
        None
    } else {
        output_after(before, transactions, upto - 1, txid, vout)
    }
}

/// Output `vout` of transaction `txid` as it is there to be spent after the
/// first `upto` blocks of a chain.
pub open spec fn output_in(chain: Seq<BlockView>, upto: int, txid: Seq<u8>, vout: usize) -> Option<
    TXOutputView,
>
    decreases upto,
{
    if upto <= 0 || upto > chain.len() {
        None
    } else {
        output_after(
            output_in(chain, upto - 1, txid, vout),
            chain[upto - 1].transactions,
            chain[upto - 1].transactions.len() as int,
            txid,
            vout,
        )
    }
}

/// No transaction of the first `upto` blocks has more outputs than an index
/// can number.
pub open spec fn countable_outputs(chain: Seq<BlockView>, upto: int) -> bool {
    forall|b: int, t: int|
        0 <= b < upto && b < chain.len() && 0 <= t < chain[b].transactions.len() ==> (
        #[trigger] chain[b].transactions[t]).vout.len() <= usize::MAX
}

/// What `entry_position` finds is an entry of the transaction, the first
/// from `from` on.
pub proof fn lemma_entry_position(index: Seq<UtxoEntryView>, txid: Seq<u8>, from: int)
    requires
        0 <= from,
    ensures
        match entry_position(index, txid, from) {
            Some(position) => from <= position < index.len() && index[position].txid == txid,
            None => forall|i: int| from <= i < index.len() ==> (#[trigger] index[i]).txid != txid,
        },
    decreases index.len() - from,
{
    if from < index.len() && index[from].txid != txid {
        lemma_entry_position(index, txid, from + 1);
    }
}

/// In an index of distinct entries, the entry of a transaction is found
/// where it stands.
pub proof fn lemma_position_of_distinct(index: Seq<UtxoEntryView>, txid: Seq<u8>, position: int)
    requires
        distinct_entries(index),
        0 <= position < index.len(),
        index[position].txid == txid,
    ensures
        entry_position(index, txid, 0) == Some(position),
{
    lemma_entry_position(index, txid, 0);
    let found = entry_position(index, txid, 0);
    if found.is_none() {
        assert(index[position].txid != txid);
    } else if found.unwrap() < position {
        assert(index[found.unwrap()].txid != index[position].txid);
    } else if found.unwrap() > position {
        assert(index[position].txid != index[found.unwrap()].txid);
    }
}

/// An output that is appended is listed behind those that were.
pub proof fn lemma_listed_output_push(
    outputs: Seq<UtxoOutputView>,
    last: UtxoOutputView,
    vout: usize,
    from: int,
)
    requires
        0 <= from <= outputs.len(),
    ensures
        listed_output(outputs.push(last), vout, from) == (match listed_output(outputs, vout, from) {
            Some(output) => Some(output),
            None => if last.index == vout {
                Some(last.output)
            } else {
                None
            },
        }),
    decreases outputs.len() - from,
{
    let longer = outputs.push(last);
    if from < outputs.len() {
        assert(longer[from] == outputs[from]);
        if outputs[from].index != vout {
            lemma_listed_output_push(outputs, last, vout, from + 1);
        }
    } else {
        assert(longer[from] == last);
        assert(listed_output(longer, vout, from + 1).is_none());
    }
}

/// Taking an output out of a list leaves the others as they were.
pub proof fn lemma_without_output(outputs: Seq<UtxoOutputView>, spent: usize, vout: usize)
    ensures
        listed_output(without_output(outputs, spent), vout, 0) == (if vout == spent {
            None
        } else {
            listed_output(outputs, vout, 0)
        }),
    decreases outputs.len(),
{
    if outputs.len() > 0 {
        let front = outputs.drop_last();
        let last = outputs.last();
        lemma_without_output(front, spent, vout);
        assert(outputs =~= front.push(last));
        lemma_listed_output_push(front, last, vout, 0);
        if last.index != spent {
            lemma_listed_output_push(without_output(front, spent), last, vout, 0);
        }
    }
}

/// All outputs of a transaction are listed, each at its position, and no
/// other.
pub proof fn lemma_all_outputs(outputs: Seq<TXOutputView>, vout: usize)
    requires
        outputs.len() <= usize::MAX,
    ensures
        listed_output(all_outputs(outputs), vout, 0) == (if vout < outputs.len() {
            Some(outputs[vout as int])
        } else {
            None
        }),
    decreases outputs.len(),
{
    if outputs.len() > 0 {
        let front = outputs.drop_last();
        let last = UtxoOutputView { index: (outputs.len() - 1) as usize, output: outputs.last() };
        lemma_all_outputs(front, vout);
        assert(all_outputs(outputs) =~= all_outputs(front).push(last));
        lemma_listed_output_push(all_outputs(front), last, vout, 0);
        if vout < front.len() {
            assert(front[vout as int] == outputs[vout as int]);
        }
    }
}

/// After an output was spent, the index does not hold it, and holds every
/// other output as before.
pub proof fn lemma_spend(
    index: Seq<UtxoEntryView>,
    spent_txid: Seq<u8>,
    spent_vout: usize,
    txid: Seq<u8>,
    vout: usize,
)
    requires
        distinct_entries(index),
    ensures
        distinct_entries(spend(index, spent_txid, spent_vout)),
        unspent_output(spend(index, spent_txid, spent_vout), txid, vout) == (if txid == spent_txid
            && vout == spent_vout {
            None
        } else {
            unspent_output(index, txid, vout)
        }),
{
    let after = spend(index, spent_txid, spent_vout);
    lemma_entry_position(index, spent_txid, 0);
    lemma_entry_position(index, txid, 0);
    lemma_entry_position(after, txid, 0);
    match entry_position(index, spent_txid, 0) {
        None => {},
        Some(p) => {
            let rest = without_output(index[p].outputs, spent_vout);
            lemma_without_output(index[p].outputs, spent_vout, vout);
            if rest.len() == 0 {
                assert(after == index.remove(p));
                assert forall|i: int, j: int| 0 <= i < j < after.len() implies (
                #[trigger] after[i]).txid != (#[trigger] after[j]).txid by {
                    let a = if i < p { i } else { i + 1 };
                    let b = if j < p { j } else { j + 1 };
                    assert(after[i] == index[a]);
                    assert(after[j] == index[b]);
                }
                if txid == spent_txid {
                    if entry_position(after, txid, 0).is_some() {
                        let q = entry_position(after, txid, 0).unwrap();
                        let a = if q < p { q } else { q + 1 };
                        assert(after[q] == index[a]);
                        if a < p {
                            assert(index[a].txid != index[p].txid);
                        } else {
                            assert(index[p].txid != index[a].txid);
                        }
                    }
                    assert(listed_output(rest, vout, 0).is_none());
                } else {
                    match entry_position(index, txid, 0) {
                        Some(q) => {
                            let moved = if q < p { q } else { q - 1 };
                            assert(after[moved] == index[q]);
                            lemma_position_of_distinct(after, txid, moved);
                        },
                        None => {
                            if entry_position(after, txid, 0).is_some() {
                                let q = entry_position(after, txid, 0).unwrap();
                                let a = if q < p { q } else { q + 1 };
                                assert(after[q] == index[a]);
                                assert(index[a].txid != txid);
                            }
                        },
                    }
                }
            } else {
                let entry = UtxoEntryView { txid: spent_txid, outputs: rest };
                assert(after == index.update(p, entry));
                assert forall|i: int, j: int| 0 <= i < j < after.len() implies (
                #[trigger] after[i]).txid != (#[trigger] after[j]).txid by {
                    assert(after[i].txid == index[i].txid);
                    assert(after[j].txid == index[j].txid);
                }
                if txid == spent_txid {
                    lemma_position_of_distinct(after, txid, p);
                    lemma_position_of_distinct(index, txid, p);
                } else {
                    match entry_position(index, txid, 0) {
                        Some(q) => {
                            assert(after[q] == index[q]);
                            lemma_position_of_distinct(after, txid, q);
                        },
                        None => {
                            if entry_position(after, txid, 0).is_some() {
                                let q = entry_position(after, txid, 0).unwrap();
                                assert(after[q].txid == index[q].txid);
                                assert(index[q].txid != txid);
                            }
                        },
                    }
                }
            }
        },
    }
}

/// After the outputs of a transaction were recorded, they are its unspent
/// outputs, and the outputs of every other transaction are what they were.
pub proof fn lemma_record(
    index: Seq<UtxoEntryView>,
    new_txid: Seq<u8>,
    outputs: Seq<UtxoOutputView>,
    txid: Seq<u8>,
    vout: usize,
)
    requires
        distinct_entries(index),
    ensures
        distinct_entries(record(index, new_txid, outputs)),
        unspent_output(record(index, new_txid, outputs), txid, vout) == (if txid == new_txid {
            listed_output(outputs, vout, 0)
        } else {
            unspent_output(index, txid, vout)
        }),
{
    let after = record(index, new_txid, outputs);
    let entry = UtxoEntryView { txid: new_txid, outputs: outputs };
    lemma_entry_position(index, new_txid, 0);
    lemma_entry_position(index, txid, 0);
    lemma_entry_position(after, txid, 0);
    let place = match entry_position(index, new_txid, 0) {
        None => index.len() as int,
        Some(p) => p,
    };
    assert(after[place] == entry);
    assert forall|i: int| 0 <= i < after.len() && i != place implies #[trigger] after[i]
        == index[i] && index[i].txid != new_txid by {
        if entry_position(index, new_txid, 0).is_some() {
            if i < place {
                assert(index[i].txid != index[place].txid);
            } else {
                assert(index[place].txid != index[i].txid);
            }
        }
    }
    assert forall|i: int, j: int| 0 <= i < j < after.len() implies (#[trigger] after[i]).txid != (
    #[trigger] after[j]).txid by {
        if i != place && j != place {
            assert(index[i].txid != index[j].txid);
        }
    }
    if txid == new_txid {
        lemma_position_of_distinct(after, txid, place);
    } else {
        match entry_position(index, txid, 0) {
            Some(q) => {
                assert(after[q] == index[q]);
                lemma_position_of_distinct(after, txid, q);
            },
            None => {
                if entry_position(after, txid, 0).is_some() {
                    let q = entry_position(after, txid, 0).unwrap();
                    if q != place {
                        assert(after[q] == index[q]);
                        assert(index[q].txid != txid);
                    }
                }
            },
        }
    }
}

/// After the inputs of a transaction were spent, the index holds an output
/// where it did and none of them spent it.
pub proof fn lemma_spend_inputs(
    index: Seq<UtxoEntryView>,
    inputs: Seq<TXInputView>,
    upto: int,
    txid: Seq<u8>,
    vout: usize,
)
    requires
        distinct_entries(index),
        0 <= upto <= inputs.len(),
    ensures
        distinct_entries(spend_inputs(index, inputs, upto)),
        unspent_output(spend_inputs(index, inputs, upto), txid, vout) == (if consumed_by(
            inputs,
            txid,
            vout,
            upto,
        ) {
            None
        } else {
            unspent_output(index, txid, vout)
        }),
    decreases upto,
{
    if upto > 0 {
        lemma_spend_inputs(index, inputs, upto - 1, txid, vout);
        lemma_spend(
            spend_inputs(index, inputs, upto - 1),
            inputs[upto - 1].txid,
            inputs[upto - 1].vout,
            txid,
            vout,
        );
    }
}

/// After a transaction, the index holds all its outputs, and an output of
/// another transaction where it did and the transaction did not spend it.
pub proof fn lemma_apply_transaction(
    index: Seq<UtxoEntryView>,
    tx: TransactionView,
    txid: Seq<u8>,
    vout: usize,
)
    requires
        distinct_entries(index),
        tx.vout.len() <= usize::MAX,
    ensures
        distinct_entries(apply_transaction(index, tx)),
        unspent_output(apply_transaction(index, tx), txid, vout) == (if txid == tx.id {
            if vout < tx.vout.len() {
                Some(tx.vout[vout as int])
            } else {
                None
            }
        } else if spends(tx, txid, vout) {
            None
        } else {
            unspent_output(index, txid, vout)
        }),
{
    let spent = if coinbase(tx) {
        index
    } else {
        spend_inputs(index, tx.vin, tx.vin.len() as int)
    };
    if !coinbase(tx) {
        lemma_spend_inputs(index, tx.vin, tx.vin.len() as int, txid, vout);
    }
    lemma_record(spent, tx.id, all_outputs(tx.vout), txid, vout);
    lemma_all_outputs(tx.vout, vout);
}

/// After the first `upto` transactions of a list, the index holds exactly
/// the outputs that are there to be spent.
pub proof fn lemma_apply_transactions(
    index: Seq<UtxoEntryView>,
    transactions: Seq<TransactionView>,
    upto: int,
    txid: Seq<u8>,
    vout: usize,
)
    requires
        distinct_entries(index),
        0 <= upto <= transactions.len(),
        forall|t: int|
            0 <= t < transactions.len() ==> (#[trigger] transactions[t]).vout.len() <= usize::MAX,
    ensures
        distinct_entries(apply_transactions(index, transactions, upto)),
        unspent_output(apply_transactions(index, transactions, upto), txid, vout) == output_after(
            unspent_output(index, txid, vout),
            transactions,
            upto,
            txid,
            vout,
        ),
    decreases upto,
{
    if upto > 0 {
        lemma_apply_transactions(index, transactions, upto - 1, txid, vout);
        lemma_apply_transaction(
            apply_transactions(index, transactions, upto - 1),
            transactions[upto - 1],
            txid,
            vout,
        );
    }
}

/// The index that a chain gives holds, at a position of a transaction,
/// exactly the output that the last transaction with that id has there,
/// unless a transaction after it has spent it; and no two of its entries
/// belong to one transaction.
pub proof fn lemma_index_holds_the_unspent_outputs(
    chain: Seq<BlockView>,
    upto: int,
    txid: Seq<u8>,
    vout: usize,
)
    requires
        0 <= upto <= chain.len(),
        countable_outputs(chain, upto),
    ensures
        distinct_entries(replay(chain, upto)),
        unspent_output(replay(chain, upto), txid, vout) == output_in(chain, upto, txid, vout),
    decreases upto,
{
    if upto > 0 {
        lemma_index_holds_the_unspent_outputs(chain, upto - 1, txid, vout);
        let block = chain[upto - 1];
        assert forall|t: int| 0 <= t < block.transactions.len() implies (
        #[trigger] block.transactions[t]).vout.len() <= usize::MAX by {
            assert(chain[upto - 1].transactions[t].vout.len() <= usize::MAX);
        }
        lemma_apply_transactions(
            replay(chain, upto - 1),
            block.transactions,
            block.transactions.len() as int,
            txid,
            vout,
        );
    } else {
        lemma_entry_position(Seq::<UtxoEntryView>::empty(), txid, 0);
    }
}

} // verus!
