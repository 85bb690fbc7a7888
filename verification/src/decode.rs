//! Reading transactions and blocks back from their bytes.

use vstd::prelude::*;
use crate::block::{encode_block, encode_transactions, transactions_view, Block, BlockView};
use crate::codec::{
    framed, le_bytes, le_value, lemma_le_bytes_len, parse_framed, read_framed, read_i32, read_i64,
    read_u64, signed32, signed64, unsigned32, unsigned64,
};
use crate::transaction::{
    encode_input, encode_inputs, encode_output, encode_outputs, encode_transaction, inputs_view,
    outputs_view, TXInput, TXInputView, TXOutput, TXOutputView, Transaction, TransactionView,
};

verus! {

/// An input read at position `at`, and the position behind it.
pub open spec fn parse_input(input: Seq<u8>, at: int) -> Option<(TXInputView, int)> {
    match parse_framed(input, at) {
        None => None,
        Some((txid, a1)) => if a1 + 8 > input.len() || le_value(input, a1, 8) > usize::MAX {
            None
        } else {
            match parse_framed(input, a1 + 8) {
                None => None,
                Some((signature, a2)) => match parse_framed(input, a2) {
                    None => None,
                    Some((pub_key, a3)) => Some(
                        (
                            TXInputView {
                                txid: txid,
                                vout: le_value(input, a1, 8) as usize,
                                signature: signature,
                                pub_key: pub_key,
                            },
                            a3,
                        ),
                    ),
                },
            }
        },
    }
}

/// An output read at position `at`, and the position behind it.
pub open spec fn parse_output(input: Seq<u8>, at: int) -> Option<(TXOutputView, int)> {
    if at < 0 || at + 4 > input.len() {
        None
    } else {
        match parse_framed(input, at + 4) {
            None => None,
            Some((pub_key_hash, end)) => Some(
                (
                    TXOutputView {
                        value: signed32(le_value(input, at, 4)),
                        pub_key_hash: pub_key_hash,
                    },
                    end,
                ),
            ),
        }
    }
}

/// `count` inputs read one after the other from position `at`.
pub open spec fn parse_inputs(input: Seq<u8>, at: int, count: nat) -> Option<(Seq<TXInputView>, int)>
    decreases count,
{
    if count == 0 {
        Some((Seq::empty(), at))
    } else {
        match parse_inputs(input, at, (count - 1) as nat) {
            None => None,
            Some((items, middle)) => match parse_input(input, middle) {
                None => None,
                Some((item, end)) => Some((items.push(item), end)),
            },
        }
    }
}

/// `count` outputs read one after the other from position `at`.
pub open spec fn parse_outputs(input: Seq<u8>, at: int, count: nat) -> Option<
    (Seq<TXOutputView>, int),
>
    decreases count,
{
    if count == 0 {
        Some((Seq::empty(), at))
    } else {
        match parse_outputs(input, at, (count - 1) as nat) {
            None => None,
            Some((items, middle)) => match parse_output(input, middle) {
                None => None,
                Some((item, end)) => Some((items.push(item), end)),
            },
        }
    }
}

/// A transaction read at position `at`, and the position behind it.
pub open spec fn parse_transaction_at(input: Seq<u8>, at: int) -> Option<(TransactionView, int)> {
    match parse_framed(input, at) {
        None => None,
        Some((id, a1)) => if a1 + 8 > input.len() {
            None
        } else {
            match parse_inputs(input, a1 + 8, le_value(input, a1, 8)) {
                None => None,
                Some((vin, a2)) => if a2 < 0 || a2 + 8 > input.len() {
                    None
                } else {
                    match parse_outputs(input, a2 + 8, le_value(input, a2, 8)) {
                        None => None,
                        Some((vout, a3)) => Some(
                            (TransactionView { id: id, vin: vin, vout: vout }, a3),
                        ),
                    }
                },
            }
        },
    }
}

/// The transaction that a byte string holds from its first byte to its last.
pub open spec fn parse_transaction(input: Seq<u8>) -> Option<TransactionView> {
    match parse_transaction_at(input, 0) {
        Some((tx, end)) => if end == input.len() {
            Some(tx)
        } else {
            None
        },
        None => None,
    }
}

/// `count` transactions read one after the other from position `at`.
pub open spec fn parse_transactions(input: Seq<u8>, at: int, count: nat) -> Option<
    (Seq<TransactionView>, int),
>
    decreases count,
{
    if count == 0 {
        Some((Seq::empty(), at))
    } else {
        match parse_transactions(input, at, (count - 1) as nat) {
            None => None,
            Some((items, middle)) => match parse_transaction_at(input, middle) {
                None => None,
                Some((item, end)) => Some((items.push(item), end)),
            },
        }
    }
}

/// The block that a byte string holds from its first byte to its last.
pub open spec fn parse_block(input: Seq<u8>) -> Option<BlockView> {
    if 8 > input.len() {
        None
    } else {
        match parse_framed(input, 8) {
            None => None,
            Some((prev_block_hash, a1)) => match parse_framed(input, a1) {
                None => None,
                Some((hash, a2)) => if a2 + 8 > input.len() {
                    None
                } else {
                    match parse_transactions(input, a2 + 8, le_value(input, a2, 8)) {
                        None => None,
                        Some((transactions, a3)) => if a3 < 0 || a3 + 8 != input.len() {
                            None
                        } else {
                            Some(
                                BlockView {
                                    timestamp: signed64(le_value(input, 0, 8)),
                                    prev_block_hash: prev_block_hash,
                                    hash: hash,
                                    transactions: transactions,
                                    nonce: signed64(le_value(input, a3, 8)),
                                },
                            )
                        },
                    }
                },
            },
        }
    }
}

/// Where the first items cannot be read, more of them cannot either.
pub proof fn lemma_inputs_fail(input: Seq<u8>, at: int, fewer: nat, count: nat)
    requires
        parse_inputs(input, at, fewer).is_none(),
        fewer <= count,
    ensures
        parse_inputs(input, at, count).is_none(),
    decreases count,
{
    if fewer < count {
        lemma_inputs_fail(input, at, fewer, (count - 1) as nat);
    }
}

/// Where the first items cannot be read, more of them cannot either.
pub proof fn lemma_outputs_fail(input: Seq<u8>, at: int, fewer: nat, count: nat)
    requires
        parse_outputs(input, at, fewer).is_none(),
        fewer <= count,
    ensures
        parse_outputs(input, at, count).is_none(),
    decreases count,
{
    if fewer < count {
        lemma_outputs_fail(input, at, fewer, (count - 1) as nat);
    }
}

/// Where the first items cannot be read, more of them cannot either.
pub proof fn lemma_transactions_fail(input: Seq<u8>, at: int, fewer: nat, count: nat)
    requires
        parse_transactions(input, at, fewer).is_none(),
        fewer <= count,
    ensures
        parse_transactions(input, at, count).is_none(),
    decreases count,
{
    if fewer < count {
        lemma_transactions_fail(input, at, fewer, (count - 1) as nat);
    }
}

/// Reads an input at `at`.
pub fn read_input(input: &[u8], at: usize) -> (read: Option<(TXInput, usize)>)
    ensures
        read.is_some() == parse_input(input@, at as int).is_some(),
        read.is_some() ==> read.unwrap().0@ == parse_input(input@, at as int).unwrap().0
            && read.unwrap().1 as int == parse_input(input@, at as int).unwrap().1
            && read.unwrap().1 <= input@.len(),
{
    let total: usize = input.len();
    let (txid, a1) = match read_framed(input, at) {
        Some(read) => read,
        None => { return None; },
    };
    let vout = match read_u64(input, a1) {
        Some(value) => value,
        None => { return None; },
    };
    if vout > usize::MAX as u64 {
        return None;
    }
    let (signature, a2) = match read_framed(input, a1 + 8) {
        Some(read) => read,
        None => { return None; },
    };
    let (pub_key, a3) = match read_framed(input, a2) {
        Some(read) => read,
        None => { return None; },
    };
    Some((TXInput { txid, vout: vout as usize, signature, pub_key }, a3))
}

/// Reads an output at `at`.
pub fn read_output(input: &[u8], at: usize) -> (read: Option<(TXOutput, usize)>)
    ensures
        read.is_some() == parse_output(input@, at as int).is_some(),
        read.is_some() ==> read.unwrap().0@ == parse_output(input@, at as int).unwrap().0
            && read.unwrap().1 as int == parse_output(input@, at as int).unwrap().1
            && read.unwrap().1 <= input@.len(),
{
    let total: usize = input.len();
    let value = match read_i32(input, at) {
        Some(value) => value,
        None => { return None; },
    };
    let (pub_key_hash, end) = match read_framed(input, at + 4) {
        Some(read) => read,
        None => { return None; },
    };
    Some((TXOutput { value, pub_key_hash }, end))
}

/// Reads a transaction at `at`.
pub fn read_transaction(input: &[u8], at: usize) -> (read: Option<(Transaction, usize)>)
    ensures
        read.is_some() == parse_transaction_at(input@, at as int).is_some(),
        read.is_some() ==> read.unwrap().0@ == parse_transaction_at(input@, at as int).unwrap().0
            && read.unwrap().1 as int == parse_transaction_at(input@, at as int).unwrap().1
            && read.unwrap().1 <= input@.len(),
{
    let total: usize = input.len();
    let (id, a1) = match read_framed(input, at) {
        Some(read) => read,
        None => { return None; },
    };
    let n_in = match read_u64(input, a1) {
        Some(value) => value,
        None => { return None; },
    };
    let start_in: usize = a1 + 8;
    let mut vin: Vec<TXInput> = Vec::new();
    let mut at_in: usize = start_in;
    let mut i: u64 = 0;
    assert(inputs_view(vin@) =~= Seq::<TXInputView>::empty());
    while i < n_in
        invariant
            i <= n_in,
            at_in <= input@.len(),
            parse_framed(input@, at as int) == Some((id@, a1 as int)),
            a1 + 8 <= input@.len(),
            start_in == a1 + 8,
            n_in as nat == le_value(input@, a1 as int, 8),
            parse_inputs(input@, start_in as int, i as nat) == Some(
                (inputs_view(vin@), at_in as int),
            ),
        decreases n_in - i,
    {
        match read_input(input, at_in) {
            Some((item, next)) => {
                let ghost before = inputs_view(vin@);
                let ghost item_view = item@;
                vin.push(item);
                assert(inputs_view(vin@) =~= before.push(item_view));
                at_in = next;
            },
            None => {
                proof {
                    lemma_inputs_fail(input@, start_in as int, (i + 1) as nat, n_in as nat);
                }
                return None;
            },
        }
        i += 1;
    }
    let n_out = match read_u64(input, at_in) {
        Some(value) => value,
        None => { return None; },
    };
    let start_out: usize = at_in + 8;
    let mut vout: Vec<TXOutput> = Vec::new();
    let mut at_out: usize = start_out;
    let mut j: u64 = 0;
    assert(outputs_view(vout@) =~= Seq::<TXOutputView>::empty());
    while j < n_out
        invariant
            j <= n_out,
            at_out <= input@.len(),
            parse_framed(input@, at as int) == Some((id@, a1 as int)),
            a1 + 8 <= input@.len(),
            n_in as nat == le_value(input@, a1 as int, 8),
            parse_inputs(input@, a1 + 8, n_in as nat) == Some((inputs_view(vin@), at_in as int)),
            at_in + 8 <= input@.len(),
            start_out == at_in + 8,
            n_out as nat == le_value(input@, at_in as int, 8),
            parse_outputs(input@, start_out as int, j as nat) == Some(
                (outputs_view(vout@), at_out as int),
            ),
        decreases n_out - j,
    {
        match read_output(input, at_out) {
            Some((item, next)) => {
                let ghost before = outputs_view(vout@);
                let ghost item_view = item@;
                vout.push(item);
                assert(outputs_view(vout@) =~= before.push(item_view));
                at_out = next;
            },
            None => {
                proof {
                    lemma_outputs_fail(input@, start_out as int, (j + 1) as nat, n_out as nat);
                }
                return None;
            },
        }
        j += 1;
    }
    Some((Transaction { id, vin, vout }, at_out))
}

impl Transaction {
    /// The transaction that the bytes hold, where they hold one from the
    /// first byte to the last.
    pub fn deserialize(bytes: &[u8]) -> (tx: Option<Transaction>)
        ensures
            tx.is_some() == parse_transaction(bytes@).is_some(),
            tx.is_some() ==> tx.unwrap()@ == parse_transaction(bytes@).unwrap(),
    {
        match read_transaction(bytes, 0) {
            Some((tx, end)) => if end == bytes.len() {
                Some(tx)
            } else {
                None
            },
            None => None,
        }
    }
}

impl Block {
    /// The block that the bytes hold, where they hold one from the first
    /// byte to the last.
    pub fn deserialize(bytes: &[u8]) -> (block: Option<Block>)
        ensures
            block.is_some() == parse_block(bytes@).is_some(),
            block.is_some() ==> block.unwrap()@ == parse_block(bytes@).unwrap(),
    {
        let total: usize = bytes.len();
        let timestamp = match read_i64(bytes, 0) {
            Some(value) => value,
            None => { return None; },
        };
        let (prev_block_hash, a1) = match read_framed(bytes, 8) {
            Some(read) => read,
            None => { return None; },
        };
        let (hash, a2) = match read_framed(bytes, a1) {
            Some(read) => read,
            None => { return None; },
        };
        let count = match read_u64(bytes, a2) {
            Some(value) => value,
            None => { return None; },
        };
        let start: usize = a2 + 8;
        let mut transactions: Vec<Transaction> = Vec::new();
        let mut at: usize = start;
        let mut i: u64 = 0;
        assert(transactions_view(transactions@) =~= Seq::<TransactionView>::empty());
        while i < count
            invariant
                i <= count,
                at <= bytes@.len(),
                8 <= bytes@.len(),
                parse_framed(bytes@, 8) == Some((prev_block_hash@, a1 as int)),
                parse_framed(bytes@, a1 as int) == Some((hash@, a2 as int)),
                a2 + 8 <= bytes@.len(),
                start == a2 + 8,
                count as nat == le_value(bytes@, a2 as int, 8),
                parse_transactions(bytes@, start as int, i as nat) == Some(
                    (transactions_view(transactions@), at as int),
                ),
            decreases count - i,
        {
            match read_transaction(bytes, at) {
                Some((item, next)) => {
                    let ghost before = transactions_view(transactions@);
                    let ghost item_view = item@;
                    transactions.push(item);
                    assert(transactions_view(transactions@) =~= before.push(item_view));
                    at = next;
                },
                None => {
                    proof {
                        lemma_transactions_fail(bytes@, start as int, (i + 1) as nat, count as nat);
                    }
                    return None;
                },
            }
            i += 1;
        }
        let nonce = match read_i64(bytes, at) {
            Some(value) => value,
            None => { return None; },
        };
        if bytes.len() - at != 8 {
            return None;
        }
        Some(Block { timestamp, prev_block_hash, hash, transactions, nonce })
    }
}

/// `part` stands in `input` at position `at`.
pub open spec fn holds_at(input: Seq<u8>, at: int, part: Seq<u8>) -> bool {
    0 <= at && at + part.len() <= input.len() && input.subrange(at, at + part.len()) == part
}

/// `value` without its `width` lowest bytes.
pub open spec fn high_part(value: nat, width: nat) -> nat
    decreases width,
{
    if width == 0 {
        value
    } else {
        high_part(value / 256, (width - 1) as nat)
    }
}

/// The weight of the byte at position `width`.
pub open spec fn weight(width: nat) -> nat
    decreases width,
{
    if width == 0 {
        1
    } else {
        256 * weight((width - 1) as nat)
    }
}

/// Where two byte strings in a row stand at a position, the first stands
/// there and the second behind it.
pub proof fn lemma_holds_split(input: Seq<u8>, at: int, first: Seq<u8>, second: Seq<u8>)
    requires
        holds_at(input, at, first + second),
    ensures
        holds_at(input, at, first),
        holds_at(input, at + first.len(), second),
{
    let whole = input.subrange(at, at + first.len() + second.len());
    assert(whole == first + second);
    assert forall|i: int| 0 <= i < first.len() implies input.subrange(at, at + first.len())[i]
        == first[i] by {
        assert(whole[i] == (first + second)[i]);
    }
    assert(input.subrange(at, at + first.len()) =~= first);
    assert forall|i: int| 0 <= i < second.len() implies input.subrange(
        at + first.len(),
        at + first.len() + second.len(),
    )[i] == second[i] by {
        assert(whole[first.len() + i] == (first + second)[first.len() + i]);
    }
    assert(input.subrange(at + first.len(), at + first.len() + second.len()) =~= second);
}

/// The bytes of a number, read back, give its low part.
pub proof fn lemma_le_value_of_le_bytes(input: Seq<u8>, at: int, value: nat, width: nat)
    requires
        holds_at(input, at, le_bytes(value, width)),
    ensures
        value == le_value(input, at, width) + weight(width) * high_part(value, width),
    decreases width,
{
    if width > 0 {
        let head = seq![(value % 256) as u8];
        let rest = le_bytes(value / 256, (width - 1) as nat);
        lemma_holds_split(input, at, head, rest);
        assert(input.subrange(at, at + 1)[0] == head[0]);
        assert(input[at] as nat == value % 256);
        lemma_le_value_of_le_bytes(input, at + 1, value / 256, (width - 1) as nat);
        let low = le_value(input, at + 1, (width - 1) as nat);
        let w = weight((width - 1) as nat);
        let h = high_part(value / 256, (width - 1) as nat);
        assert(value / 256 == low + w * h);
        assert(le_value(input, at, width) == input[at] as nat + 256 * low);
        assert(weight(width) == 256 * w);
        assert(high_part(value, width) == h);
        assert(256 * (w * h) == (256 * w) * h) by (nonlinear_arith);
        assert(value == value % 256 + 256 * (value / 256));
        assert(256 * (low + w * h) == 256 * low + 256 * (w * h)) by (nonlinear_arith);
        assert(weight(width) * high_part(value, width) == (256 * w) * h);
    } else {
        assert(weight(width) * high_part(value, width) == 1 * value);
    }
}

/// Eight bytes of a number below two to the power of 64 give it back.
pub proof fn lemma_read_back_u64(input: Seq<u8>, at: int, value: nat)
    requires
        holds_at(input, at, le_bytes(value, 8)),
        value <= u64::MAX,
    ensures
        le_value(input, at, 8) == value,
        0 <= at,
        at + 8 <= input.len(),
{
    lemma_le_value_of_le_bytes(input, at, value, 8);
    lemma_le_bytes_len(value, 8);
    reveal_with_fuel(high_part, 9);
    assert(high_part(value, 8) == 0);
}

/// Four bytes of a number below two to the power of 32 give it back.
pub proof fn lemma_read_back_u32(input: Seq<u8>, at: int, value: nat)
    requires
        holds_at(input, at, le_bytes(value, 4)),
        value <= u32::MAX,
    ensures
        le_value(input, at, 4) == value,
        0 <= at,
        at + 4 <= input.len(),
{
    lemma_le_value_of_le_bytes(input, at, value, 4);
    lemma_le_bytes_len(value, 4);
    reveal_with_fuel(high_part, 5);
    assert(high_part(value, 4) == 0);
}

/// A framed byte string is read back.
pub proof fn lemma_read_back_framed(input: Seq<u8>, at: int, bytes: Seq<u8>)
    requires
        holds_at(input, at, framed(bytes)),
        bytes.len() <= u64::MAX,
    ensures
        parse_framed(input, at) == Some((bytes, at + 8 + bytes.len())),
        framed(bytes).len() == 8 + bytes.len(),
{
    lemma_le_bytes_len(bytes.len(), 8);
    lemma_holds_split(input, at, le_bytes(bytes.len(), 8), bytes);
    lemma_read_back_u64(input, at, bytes.len());
}

/// An input whose byte strings have lengths that fit in eight bytes.
pub open spec fn fits_input(input: TXInputView) -> bool {
    input.txid.len() <= u64::MAX && input.signature.len() <= u64::MAX && input.pub_key.len()
        <= u64::MAX
}

/// An output whose owner hash has a length that fits in eight bytes.
pub open spec fn fits_output(output: TXOutputView) -> bool {
    output.pub_key_hash.len() <= u64::MAX
}

/// A transaction in which every length fits in eight bytes.
pub open spec fn fits_transaction(tx: TransactionView) -> bool {
    &&& tx.id.len() <= u64::MAX
    &&& tx.vin.len() <= u64::MAX
    &&& tx.vout.len() <= u64::MAX
    &&& forall|i: int| 0 <= i < tx.vin.len() ==> fits_input(#[trigger] tx.vin[i])
    &&& forall|i: int| 0 <= i < tx.vout.len() ==> fits_output(#[trigger] tx.vout[i])
}

/// A block in which every length fits in eight bytes.
pub open spec fn fits_block(block: BlockView) -> bool {
    &&& block.prev_block_hash.len() <= u64::MAX
    &&& block.hash.len() <= u64::MAX
    &&& block.transactions.len() <= u64::MAX
    &&& forall|i: int|
        0 <= i < block.transactions.len() ==> fits_transaction(#[trigger] block.transactions[i])
}

/// The bytes of an input are read back.
pub proof fn lemma_read_back_input(input: Seq<u8>, at: int, item: TXInputView)
    requires
        holds_at(input, at, encode_input(item)),
        fits_input(item),
    ensures
        parse_input(input, at) == Some((item, at + encode_input(item).len())),
{
    let a = framed(item.txid);
    let b = le_bytes(item.vout as nat, 8);
    let c = framed(item.signature);
    let d = framed(item.pub_key);
    lemma_le_bytes_len(item.vout as nat, 8);
    lemma_le_bytes_len(item.txid.len(), 8);
    lemma_le_bytes_len(item.signature.len(), 8);
    lemma_le_bytes_len(item.pub_key.len(), 8);
    lemma_holds_split(input, at, a + b + c, d);
    lemma_holds_split(input, at, a + b, c);
    lemma_holds_split(input, at, a, b);
    lemma_read_back_framed(input, at, item.txid);
    lemma_read_back_u64(input, at + a.len(), item.vout as nat);
    lemma_read_back_framed(input, at + a.len() + 8, item.signature);
    lemma_read_back_framed(input, at + a.len() + 8 + c.len(), item.pub_key);
}

/// The bytes of an output are read back.
pub proof fn lemma_read_back_output(input: Seq<u8>, at: int, item: TXOutputView)
    requires
        holds_at(input, at, encode_output(item)),
        fits_output(item),
    ensures
        parse_output(input, at) == Some((item, at + encode_output(item).len())),
{
    let a = le_bytes(unsigned32(item.value), 4);
    lemma_le_bytes_len(unsigned32(item.value), 4);
    lemma_le_bytes_len(item.pub_key_hash.len(), 8);
    lemma_holds_split(input, at, a, framed(item.pub_key_hash));
    lemma_read_back_u32(input, at, unsigned32(item.value));
    lemma_read_back_framed(input, at + 4, item.pub_key_hash);
}

/// The bytes of a list of inputs are read back.
pub proof fn lemma_read_back_inputs(input: Seq<u8>, at: int, items: Seq<TXInputView>)
    requires
        holds_at(input, at, encode_inputs(items)),
        forall|i: int| 0 <= i < items.len() ==> fits_input(#[trigger] items[i]),
    ensures
        parse_inputs(input, at, items.len()) == Some((items, at + encode_inputs(items).len())),
    decreases items.len(),
{
    if items.len() > 0 {
        let front = items.drop_last();
        lemma_holds_split(input, at, encode_inputs(front), encode_input(items.last()));
        lemma_read_back_inputs(input, at, front);
        lemma_read_back_input(input, at + encode_inputs(front).len(), items.last());
        assert(front.push(items.last()) =~= items);
    }
}

/// The bytes of a list of outputs are read back.
pub proof fn lemma_read_back_outputs(input: Seq<u8>, at: int, items: Seq<TXOutputView>)
    requires
        holds_at(input, at, encode_outputs(items)),
        forall|i: int| 0 <= i < items.len() ==> fits_output(#[trigger] items[i]),
    ensures
        parse_outputs(input, at, items.len()) == Some((items, at + encode_outputs(items).len())),
    decreases items.len(),
{
    if items.len() > 0 {
        let front = items.drop_last();
        lemma_holds_split(input, at, encode_outputs(front), encode_output(items.last()));
        lemma_read_back_outputs(input, at, front);
        lemma_read_back_output(input, at + encode_outputs(front).len(), items.last());
        assert(front.push(items.last()) =~= items);
    }
}

/// The bytes of a transaction, wherever they stand, are read back.
pub proof fn lemma_read_back_transaction(input: Seq<u8>, at: int, tx: TransactionView)
    requires
        holds_at(input, at, encode_transaction(tx)),
        fits_transaction(tx),
    ensures
        parse_transaction_at(input, at) == Some((tx, at + encode_transaction(tx).len())),
{
    let a = framed(tx.id);
    let b = le_bytes(tx.vin.len(), 8);
    let c = encode_inputs(tx.vin);
    let d = le_bytes(tx.vout.len(), 8);
    let e = encode_outputs(tx.vout);
    lemma_le_bytes_len(tx.id.len(), 8);
    lemma_le_bytes_len(tx.vin.len(), 8);
    lemma_le_bytes_len(tx.vout.len(), 8);
    lemma_holds_split(input, at, a + b + c + d, e);
    lemma_holds_split(input, at, a + b + c, d);
    lemma_holds_split(input, at, a + b, c);
    lemma_holds_split(input, at, a, b);
    lemma_read_back_framed(input, at, tx.id);
    lemma_read_back_u64(input, at + a.len(), tx.vin.len());
    lemma_read_back_inputs(input, at + a.len() + 8, tx.vin);
    lemma_read_back_u64(input, at + a.len() + 8 + c.len(), tx.vout.len());
    lemma_read_back_outputs(input, at + a.len() + 8 + c.len() + 8, tx.vout);
}

/// Reading the bytes of a transaction gives the transaction back.
pub proof fn lemma_transaction_round_trip(tx: TransactionView)
    requires
        fits_transaction(tx),
    ensures
        parse_transaction(encode_transaction(tx)) == Some(tx),
{
    let bytes = encode_transaction(tx);
    assert(bytes.subrange(0, bytes.len() as int) =~= bytes);
    lemma_read_back_transaction(bytes, 0, tx);
}

/// The bytes of a list of transactions are read back.
pub proof fn lemma_read_back_transactions(input: Seq<u8>, at: int, items: Seq<TransactionView>)
    requires
        holds_at(input, at, encode_transactions(items)),
        forall|i: int| 0 <= i < items.len() ==> fits_transaction(#[trigger] items[i]),
    ensures
        parse_transactions(input, at, items.len()) == Some(
            (items, at + encode_transactions(items).len()),
        ),
    decreases items.len(),
{
    if items.len() > 0 {
        let front = items.drop_last();
        lemma_holds_split(input, at, encode_transactions(front), encode_transaction(items.last()));
        lemma_read_back_transactions(input, at, front);
        lemma_read_back_transaction(input, at + encode_transactions(front).len(), items.last());
        assert(front.push(items.last()) =~= items);
    }
}

/// Reading the bytes of a block gives the block back.
#[verifier::rlimit(60)]
pub proof fn lemma_block_round_trip(block: BlockView)
    requires
        fits_block(block),
    ensures
        parse_block(encode_block(block)) == Some(block),
{
    let bytes = encode_block(block);
    let a = le_bytes(unsigned64(block.timestamp), 8);
    let b = framed(block.prev_block_hash);
    let c = framed(block.hash);
    let d = le_bytes(block.transactions.len(), 8);
    let e = encode_transactions(block.transactions);
    let f = le_bytes(unsigned64(block.nonce), 8);
    assert(bytes.subrange(0, bytes.len() as int) =~= bytes);
    lemma_le_bytes_len(unsigned64(block.timestamp), 8);
    lemma_le_bytes_len(block.prev_block_hash.len(), 8);
    lemma_le_bytes_len(block.hash.len(), 8);
    lemma_le_bytes_len(block.transactions.len(), 8);
    lemma_le_bytes_len(unsigned64(block.nonce), 8);
    lemma_holds_split(bytes, 0, a + b + c + d + e, f);
    lemma_holds_split(bytes, 0, a + b + c + d, e);
    lemma_holds_split(bytes, 0, a + b + c, d);
    lemma_holds_split(bytes, 0, a + b, c);
    lemma_holds_split(bytes, 0, a, b);
    lemma_read_back_u64(bytes, 0, unsigned64(block.timestamp));
    lemma_read_back_framed(bytes, 8, block.prev_block_hash);
    lemma_read_back_framed(bytes, 8 + b.len() as int, block.hash);
    lemma_read_back_u64(bytes, 8 + b.len() as int + c.len(), block.transactions.len());
    lemma_read_back_transactions(bytes, 8 + b.len() as int + c.len() + 8, block.transactions);
    lemma_read_back_u64(bytes, 8 + b.len() as int + c.len() + 8 + e.len(), unsigned64(block.nonce));
}

/// Every transaction that a program holds has lengths that fit.
pub proof fn lemma_held_transaction_fits(tx: Transaction)
    ensures
        fits_transaction(tx@),
{
    assert(tx.id@.len() == tx.id.len());
    assert(tx.vin@.len() == tx.vin.len());
    assert(tx.vout@.len() == tx.vout.len());
    assert forall|i: int| 0 <= i < tx@.vin.len() implies fits_input(#[trigger] tx@.vin[i]) by {
        let item = tx.vin@[i];
        assert(item.txid@.len() == item.txid.len());
        assert(item.signature@.len() == item.signature.len());
        assert(item.pub_key@.len() == item.pub_key.len());
    }
    assert forall|i: int| 0 <= i < tx@.vout.len() implies fits_output(#[trigger] tx@.vout[i]) by {
        let item = tx.vout@[i];
        assert(item.pub_key_hash@.len() == item.pub_key_hash.len());
    }
}

/// Every block that a program holds has lengths that fit.
pub proof fn lemma_held_block_fits(block: Block)
    ensures
        fits_block(block@),
{
    assert(block.prev_block_hash@.len() == block.prev_block_hash.len());
    assert(block.hash@.len() == block.hash.len());
    assert(block.transactions@.len() == block.transactions.len());
    assert forall|i: int| 0 <= i < block@.transactions.len() implies fits_transaction(
        #[trigger] block@.transactions[i],
    ) by {
        lemma_held_transaction_fits(block.transactions@[i]);
    }
}

} // verus!
