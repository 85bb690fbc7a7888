//! Transactions, their inputs and outputs, and their byte layout.

use vstd::prelude::*;
use crate::block::{transactions_view, BlockView};
use crate::blockchain::{find_from, find_in_chain, Blockchain};
use crate::codec::{framed, le_bytes, put_framed, put_i32, put_u64, unsigned32};
use crate::primitives::{
    base58_decode, base58_payload, bytes_eq, copy_bytes, ecdsa_p256_sha256_sign_verify,
    ecdsa_p256_valid, random_uuid_bytes, sha256, sha256_digest,
};

verus! {

/// What a mined block pays to its miner.
pub const SUBSIDY: i32 = 10;

/// Number of checksum bytes at the end of a decoded address.
pub const ADDRESS_CHECK_SUM_LEN: usize = 4;

/// A reference to an output of an earlier transaction, with the proof of the
/// right to spend it.
#[derive(Clone, Debug, Default)]
pub struct TXInput {
    pub txid: Vec<u8>,
    pub vout: usize,
    pub signature: Vec<u8>,
    pub pub_key: Vec<u8>,
}

pub struct TXInputView {
    pub txid: Seq<u8>,
    pub vout: usize,
    pub signature: Seq<u8>,
    pub pub_key: Seq<u8>,
}

impl View for TXInput {
    type V = TXInputView;

    open spec fn view(&self) -> TXInputView {
        TXInputView {
            txid: self.txid@,
            vout: self.vout,
            signature: self.signature@,
            pub_key: self.pub_key@,
        }
    }
}

/// An amount locked to the hash of its owner's key.
#[derive(Clone, Debug)]
pub struct TXOutput {
    pub value: i32,
    pub pub_key_hash: Vec<u8>,
}

pub struct TXOutputView {
    pub value: i32,
    pub pub_key_hash: Seq<u8>,
}

impl View for TXOutput {
    type V = TXOutputView;

    open spec fn view(&self) -> TXOutputView {
        TXOutputView { value: self.value, pub_key_hash: self.pub_key_hash@ }
    }
}

#[derive(Clone, Debug)]
pub struct Transaction {
    pub id: Vec<u8>,
    pub vin: Vec<TXInput>,
    pub vout: Vec<TXOutput>,
}

pub struct TransactionView {
    pub id: Seq<u8>,
    pub vin: Seq<TXInputView>,
    pub vout: Seq<TXOutputView>,
}

impl View for Transaction {
    type V = TransactionView;

    open spec fn view(&self) -> TransactionView {
        TransactionView { id: self.id@, vin: inputs_view(self.vin@), vout: outputs_view(self.vout@) }
    }
}

pub open spec fn inputs_view(inputs: Seq<TXInput>) -> Seq<TXInputView> {
    inputs.map_values(|i: TXInput| i@)
}

pub open spec fn outputs_view(outputs: Seq<TXOutput>) -> Seq<TXOutputView> {
    outputs.map_values(|o: TXOutput| o@)
}

/// The bytes of an input: the spent transaction's id, the output's index, the
/// signature and the public key.
pub open spec fn encode_input(input: TXInputView) -> Seq<u8> {
    framed(input.txid) + le_bytes(input.vout as nat, 8) + framed(input.signature) + framed(
        input.pub_key,
    )
}

/// The bytes of an output: the amount and the owner's hash.
pub open spec fn encode_output(output: TXOutputView) -> Seq<u8> {
    le_bytes(unsigned32(output.value), 4) + framed(output.pub_key_hash)
}

pub open spec fn encode_inputs(inputs: Seq<TXInputView>) -> Seq<u8>
    decreases inputs.len(),
{
    if inputs.len() == 0 {
        Seq::empty()
    } else {
        encode_inputs(inputs.drop_last()) + encode_input(inputs.last())
    }
}

pub open spec fn encode_outputs(outputs: Seq<TXOutputView>) -> Seq<u8>
    decreases outputs.len(),
{
    if outputs.len() == 0 {
        Seq::empty()
    } else {
        encode_outputs(outputs.drop_last()) + encode_output(outputs.last())
    }
}

/// The bytes of a transaction: its id, then its inputs and its outputs, each
/// list behind the number of its items.
pub open spec fn encode_transaction(tx: TransactionView) -> Seq<u8> {
    framed(tx.id) + le_bytes(tx.vin.len(), 8) + encode_inputs(tx.vin) + le_bytes(tx.vout.len(), 8)
        + encode_outputs(tx.vout)
}

/// The identifier that a transaction's content gives it: the digest of its
/// bytes with the id left empty.
pub open spec fn transaction_digest(tx: TransactionView) -> Seq<u8> {
    sha256_digest(encode_transaction(TransactionView { id: Seq::empty(), vin: tx.vin, vout: tx.vout }))
}

/// An input without signature and key.
pub open spec fn trimmed_input(input: TXInputView) -> TXInputView {
    TXInputView { txid: input.txid, vout: input.vout, signature: Seq::empty(), pub_key: Seq::empty() }
}

/// A transaction whose inputs carry neither signature nor key.
pub open spec fn trimmed(tx: TransactionView) -> TransactionView {
    TransactionView {
        id: tx.id,
        vin: tx.vin.map_values(|i: TXInputView| trimmed_input(i)),
        vout: tx.vout,
    }
}

/// A transaction that creates money: one input, which names no key.
pub open spec fn coinbase(tx: TransactionView) -> bool {
    tx.vin.len() == 1 && tx.vin[0].pub_key.len() == 0
}

/// The owner's hash inside a decoded address: what lies between the version
/// byte and the checksum.
pub open spec fn address_hash(payload: Seq<u8>) -> Option<Seq<u8>> {
    if payload.len() > ADDRESS_CHECK_SUM_LEN {
        Some(payload.subrange(1, payload.len() - ADDRESS_CHECK_SUM_LEN))
    } else {
        None
    }
}

/// The coinbase transaction that pays the subsidy to an owner.
pub open spec fn coinbase_paying(signature: Seq<u8>, owner: Seq<u8>) -> TransactionView {
    let vin = seq![
        TXInputView { txid: Seq::empty(), vout: 0, signature: signature, pub_key: Seq::empty() },
    ];
    let vout = seq![TXOutputView { value: SUBSIDY, pub_key_hash: owner }];
    TransactionView {
        id: transaction_digest(TransactionView { id: Seq::empty(), vin: vin, vout: vout }),
        vin: vin,
        vout: vout,
    }
}

impl TXInput {
    /// An unsigned input that spends output `vout` of transaction `txid`.
    pub fn new(txid: &[u8], vout: usize) -> (input: TXInput)
        ensures
            input@ == (TXInputView {
                txid: txid@,
                vout: vout,
                signature: Seq::empty(),
                pub_key: Seq::empty(),
            }),
    {
        TXInput { txid: copy_bytes(txid), vout, signature: Vec::new(), pub_key: Vec::new() }
    }

    pub fn get_txid(&self) -> (txid: &[u8])
        ensures
            txid@ == self@.txid,
    {
        self.txid.as_slice()
    }

    pub fn get_vout(&self) -> (vout: usize)
        ensures
            vout == self@.vout,
    {
        self.vout
    }

    pub fn get_pub_key(&self) -> (pub_key: &[u8])
        ensures
            pub_key@ == self@.pub_key,
    {
        self.pub_key.as_slice()
    }

    pub fn get_signature(&self) -> (signature: &[u8])
        ensures
            signature@ == self@.signature,
    {
        self.signature.as_slice()
    }

    /// A copy with the same content.
    pub fn duplicate(&self) -> (copy: TXInput)
        ensures
            copy@ == self@,
    {
        TXInput {
            txid: copy_bytes(self.txid.as_slice()),
            vout: self.vout,
            signature: copy_bytes(self.signature.as_slice()),
            pub_key: copy_bytes(self.pub_key.as_slice()),
        }
    }

    /// Appends the input's bytes.
    pub fn write(&self, out: &mut Vec<u8>)
        ensures
            final(out)@ == old(out)@ + encode_input(self@),
    {
        let ghost start = out@;
        put_framed(out, self.txid.as_slice());
        put_u64(out, self.vout as u64);
        put_framed(out, self.signature.as_slice());
        put_framed(out, self.pub_key.as_slice());
        assert(out@ =~= start + encode_input(self@));
    }
}

impl TXOutput {
    /// An output of `value` for the owner of a Base58 address, or `None` where
    /// the text is no address: no Base58, or too short to hold a version byte
    /// and a checksum.
    pub fn new(value: i32, address: &str) -> (output: Option<TXOutput>)
        ensures
            match base58_payload(address@) {
                Some(payload) => output.is_some() == address_hash(payload).is_some()
                    && (output.is_some() ==> output.unwrap()@ == (TXOutputView {
                    value: value,
                    pub_key_hash: address_hash(payload).unwrap(),
                })),
                None => output.is_none(),
            },
    {
        match base58_decode(address) {
            Some(payload) => TXOutput::locked_to(value, payload.as_slice()),
            None => None,
        }
    }

    /// An output of `value` for the owner named in a decoded address.
    pub fn locked_to(value: i32, payload: &[u8]) -> (output: Option<TXOutput>)
        ensures
            output.is_some() == address_hash(payload@).is_some(),
            output.is_some() ==> output.unwrap()@ == (TXOutputView {
                value: value,
                pub_key_hash: address_hash(payload@).unwrap(),
            }),
    {
        let mut output = TXOutput { value, pub_key_hash: Vec::new() };
        if output.lock(payload) {
            Some(output)
        } else {
            None
        }
    }

    /// Locks the output to the owner named in a decoded address. Returns
    /// whether the payload held one; where not, the output is unchanged.
    pub fn lock(&mut self, payload: &[u8]) -> (locked: bool)
        ensures
            locked == address_hash(payload@).is_some(),
            final(self).value == old(self).value,
            locked ==> final(self).pub_key_hash@ == address_hash(payload@).unwrap(),
            !locked ==> *final(self) == *old(self),
    {
        if payload.len() <= ADDRESS_CHECK_SUM_LEN {
            return false;
        }
        let end: usize = payload.len() - ADDRESS_CHECK_SUM_LEN;
        let mut hash: Vec<u8> = Vec::new();
        let mut i: usize = 1;
        while i < end
            invariant
                1 <= i <= end,
                end == payload@.len() - ADDRESS_CHECK_SUM_LEN,
                hash@ == payload@.subrange(1, i as int),
            decreases end - i,
        {
            hash.push(payload[i]);
            assert(hash@ =~= payload@.subrange(1, i + 1));
            i += 1;
        }
        self.pub_key_hash = hash;
        true
    }

    pub fn get_value(&self) -> (value: i32)
        ensures
            value == self@.value,
    {
        self.value
    }

    pub fn get_pub_key_hash(&self) -> (hash: &[u8])
        ensures
            hash@ == self@.pub_key_hash,
    {
        self.pub_key_hash.as_slice()
    }

    /// Whether the output belongs to the owner with this hash.
    pub fn is_locked_with_key(&self, pub_key_hash: &[u8]) -> (locked: bool)
        ensures
            locked == (self@.pub_key_hash == pub_key_hash@),
    {
        bytes_eq(self.pub_key_hash.as_slice(), pub_key_hash)
    }

    /// A copy with the same content.
    pub fn duplicate(&self) -> (copy: TXOutput)
        ensures
            copy@ == self@,
    {
        TXOutput { value: self.value, pub_key_hash: copy_bytes(self.pub_key_hash.as_slice()) }
    }

    /// Appends the output's bytes.
    pub fn write(&self, out: &mut Vec<u8>)
        ensures
            final(out)@ == old(out)@ + encode_output(self@),
    {
        let ghost start = out@;
        put_i32(out, self.value);
        put_framed(out, self.pub_key_hash.as_slice());
        assert(out@ =~= start + encode_output(self@));
    }
}

/// Copies of a list of outputs.
pub fn duplicate_outputs(outputs: &[TXOutput]) -> (copy: Vec<TXOutput>)
    ensures
        outputs_view(copy@) == outputs_view(outputs@),
{
    let mut copy: Vec<TXOutput> = Vec::new();
    let mut i: usize = 0;
    while i < outputs.len()
        invariant
            i <= outputs@.len(),
            copy@.len() == i,
            forall|k: int| 0 <= k < i ==> copy@[k]@ == outputs@[k]@,
        decreases outputs@.len() - i,
    {
        copy.push(outputs[i].duplicate());
        i += 1;
    }
    assert(outputs_view(copy@) =~= outputs_view(outputs@));
    copy
}

/// Copies of a list of inputs.
pub fn duplicate_inputs(inputs: &[TXInput]) -> (copy: Vec<TXInput>)
    ensures
        inputs_view(copy@) == inputs_view(inputs@),
{
    let mut copy: Vec<TXInput> = Vec::new();
    let mut i: usize = 0;
    while i < inputs.len()
        invariant
            i <= inputs@.len(),
            copy@.len() == i,
            forall|k: int| 0 <= k < i ==> copy@[k]@ == inputs@[k]@,
        decreases inputs@.len() - i,
    {
        copy.push(inputs[i].duplicate());
        i += 1;
    }
    assert(inputs_view(copy@) =~= inputs_view(inputs@));
    copy
}

impl Transaction {
    pub fn get_id(&self) -> (id: &[u8])
        ensures
            id@ == self@.id,
    {
        self.id.as_slice()
    }

    pub fn get_vout(&self) -> (vout: &[TXOutput])
        ensures
            outputs_view(vout@) == self@.vout,
    {
        self.vout.as_slice()
    }

    pub fn get_vin(&self) -> (vin: &[TXInput])
        ensures
            inputs_view(vin@) == self@.vin,
    {
        self.vin.as_slice()
    }

    /// A copy with the same content.
    pub fn duplicate(&self) -> (copy: Transaction)
        ensures
            copy@ == self@,
    {
        Transaction {
            id: copy_bytes(self.id.as_slice()),
            vin: duplicate_inputs(self.vin.as_slice()),
            vout: duplicate_outputs(self.vout.as_slice()),
        }
    }

    /// Whether this is a coinbase transaction.
    pub fn is_coinbase(&self) -> (answer: bool)
        ensures
            answer == coinbase(self@),
    {
        self.vin.len() == 1 && self.vin[0].pub_key.len() == 0
    }

    /// The transaction's bytes.
    pub fn serialize(&self) -> (bytes: Vec<u8>)
        ensures
            bytes@ == encode_transaction(self@),
    {
        let mut out: Vec<u8> = Vec::new();
        put_framed(&mut out, self.id.as_slice());
        put_u64(&mut out, self.vin.len() as u64);
        let ghost head = out@;
        let mut i: usize = 0;
        assert(head + encode_inputs(self@.vin.take(0)) =~= head);
        while i < self.vin.len()
            invariant
                i <= self.vin@.len(),
                out@ == head + encode_inputs(self@.vin.take(i as int)),
            decreases self.vin@.len() - i,
        {
            self.vin[i].write(&mut out);
            proof {
                let next = self@.vin.take(i + 1);
                assert(next.drop_last() =~= self@.vin.take(i as int));
                assert(next.last() == self.vin@[i as int]@);
                assert(out@ =~= head + encode_inputs(next));
            }
            i += 1;
        }
        assert(self@.vin.take(self.vin@.len() as int) =~= self@.vin);
        put_u64(&mut out, self.vout.len() as u64);
        let ghost middle = out@;
        let mut j: usize = 0;
        assert(middle + encode_outputs(self@.vout.take(0)) =~= middle);
        while j < self.vout.len()
            invariant
                j <= self.vout@.len(),
                out@ == middle + encode_outputs(self@.vout.take(j as int)),
            decreases self.vout@.len() - j,
        {
            self.vout[j].write(&mut out);
            proof {
                let next = self@.vout.take(j + 1);
                assert(next.drop_last() =~= self@.vout.take(j as int));
                assert(next.last() == self.vout@[j as int]@);
                assert(out@ =~= middle + encode_outputs(next));
            }
            j += 1;
        }
        assert(self@.vout.take(self.vout@.len() as int) =~= self@.vout);
        assert(out@ =~= encode_transaction(self@));
        out
    }

    /// The identifier that the transaction's content gives it.
    pub fn hash(&self) -> (digest: Vec<u8>)
        ensures
            digest@ == transaction_digest(self@),
    {
        let bare = Transaction {
            id: Vec::new(),
            vin: duplicate_inputs(self.vin.as_slice()),
            vout: duplicate_outputs(self.vout.as_slice()),
        };
        assert(bare@.id =~= Seq::<u8>::empty());
        let bytes = bare.serialize();
        sha256(bytes.as_slice())
    }

    /// A copy whose inputs carry neither signature nor key.
    pub fn trimmed_copy(&self) -> (copy: Transaction)
        ensures
            copy@ == trimmed(self@),
    {
        let mut inputs: Vec<TXInput> = Vec::new();
        let mut i: usize = 0;
        while i < self.vin.len()
            invariant
                i <= self.vin@.len(),
                inputs@.len() == i,
                forall|k: int| 0 <= k < i ==> inputs@[k]@ == trimmed_input(self.vin@[k]@),
            decreases self.vin@.len() - i,
        {
            let input = &self.vin[i];
            inputs.push(TXInput::new(input.get_txid(), input.get_vout()));
            i += 1;
        }
        let copy = Transaction {
            id: copy_bytes(self.id.as_slice()),
            vin: inputs,
            vout: duplicate_outputs(self.vout.as_slice()),
        };
        assert(copy@.vin =~= trimmed(self@).vin);
        copy
    }

    /// The coinbase transaction that pays the subsidy to the owner of a Base58
    /// address, or `None` where the text is no address. Its one input carries
    /// sixteen fresh random bytes in place of a signature, so that no two
    /// coinbase transactions share an id.
    pub fn new_coinbase_tx(to: &str) -> (tx: Option<Transaction>)
        ensures
            match base58_payload(to@) {
                Some(payload) => tx.is_some() == address_hash(payload).is_some() && (tx.is_some()
                    ==> tx.unwrap()@.vin[0].signature.len() == 16 && tx.unwrap()@
                    == coinbase_paying(
                    tx.unwrap()@.vin[0].signature,
                    address_hash(payload).unwrap(),
                )),
                None => tx.is_none(),
            },
    {
        match base58_decode(to) {
            Some(payload) => {
                let signature = random_uuid_bytes();
                Transaction::coinbase_with(signature, payload.as_slice())
            },
            None => None,
        }
    }

    /// The coinbase transaction with the given bytes in place of a signature,
    /// paying the subsidy to the owner named in a decoded address.
    pub fn coinbase_with(signature: Vec<u8>, payload: &[u8]) -> (tx: Option<Transaction>)
        ensures
            tx.is_some() == address_hash(payload@).is_some(),
            tx.is_some() ==> tx.unwrap()@ == coinbase_paying(
                signature@,
                address_hash(payload@).unwrap(),
            ),
    {
        match TXOutput::locked_to(SUBSIDY, payload) {
            Some(txout) => {
                let tx_input = TXInput {
                    txid: Vec::new(),
                    vout: 0,
                    signature,
                    pub_key: Vec::new(),
                };
                let mut tx = Transaction { id: Vec::new(), vin: vec![tx_input], vout: vec![txout] };
                let id = tx.hash();
                proof {
                    let want = coinbase_paying(signature@, address_hash(payload@).unwrap());
                    assert(tx@.vin =~= want.vin);
                    assert(tx@.vout =~= want.vout);
                }
                tx.id = id;
                assert(tx@.vin =~= inputs_view(tx.vin@));
                Some(tx)
            },
            None => None,
        }
    }
}

/// A coinbase transaction has exactly one input, and that input names no key.
pub proof fn lemma_coinbase_shape(tx: TransactionView)
    requires
        coinbase(tx),
    ensures
        tx.vin.len() == 1,
        tx.vin[0].pub_key == Seq::<u8>::empty(),
{
    assert(tx.vin[0].pub_key =~= Seq::<u8>::empty());
}

/// Why a transaction cannot be verified.
#[derive(Clone, Copy, Debug, PartialEq, Eq, Structural)]
pub enum TxError {
    /// An input spends an output that the chain does not hold.
    UnresolvedInput,
}

/// What the check of one input says.
#[derive(Clone, Copy, Debug, PartialEq, Eq, Structural)]
pub enum InputCheck {
    Valid,
    Invalid,
    Unresolved,
}

/// The message that the signature of input `index` signs: the digest of the
/// trimmed transaction in which that input carries, in place of a key, the
/// hash that locks the output it spends.
pub open spec fn signed_message(tx: TransactionView, index: int, lock: Seq<u8>) -> Seq<u8> {
    transaction_digest(signing_form(tx, index, lock))
}

/// The trimmed transaction in which input `index` carries `lock` in place of
/// a key.
pub open spec fn signing_form(tx: TransactionView, index: int, lock: Seq<u8>) -> TransactionView {
    TransactionView {
        id: tx.id,
        vin: Seq::new(
            tx.vin.len(),
            |i: int|
                if i == index {
                    TXInputView {
                        txid: tx.vin[i].txid,
                        vout: tx.vin[i].vout,
                        signature: Seq::empty(),
                        pub_key: lock,
                    }
                } else {
                    trimmed_input(tx.vin[i])
                },
        ),
        vout: tx.vout,
    }
}

/// The transaction that an input spends from: the first with the id among
/// the transactions that stand before it in its own block, else the one that
/// the chain holds.
pub open spec fn resolve(chain: Seq<BlockView>, earlier: Seq<TransactionView>, txid: Seq<u8>) -> Option<
    TransactionView,
> {
    match find_from(earlier, txid, 0) {
        Some(tx) => Some(tx),
        None => find_in_chain(chain, txid),
    }
}

/// The check of input `index`: the output that it spends is looked up, and
/// the signature is held against the input's key and the message made with
/// that output's lock.
pub open spec fn check_input(
    tx: TransactionView,
    chain: Seq<BlockView>,
    earlier: Seq<TransactionView>,
    index: int,
) -> InputCheck {
    let input = tx.vin[index];
    match resolve(chain, earlier, input.txid) {
        None => InputCheck::Unresolved,
        Some(spent) => if input.vout >= spent.vout.len() {
            InputCheck::Unresolved
        } else if ecdsa_p256_valid(
            input.pub_key,
            input.signature,
            signed_message(tx, index, spent.vout[input.vout as int].pub_key_hash),
        ) {
            InputCheck::Valid
        } else {
            InputCheck::Invalid
        },
    }
}

/// The checks of the inputs from `from` on, in order: the first that is not
/// valid decides.
pub open spec fn check_inputs_from(
    tx: TransactionView,
    chain: Seq<BlockView>,
    earlier: Seq<TransactionView>,
    from: int,
) -> Result<bool, TxError>
    decreases tx.vin.len() - from,
{
    if from < 0 || from >= tx.vin.len() {
        Ok(true)
    } else {
        match check_input(tx, chain, earlier, from) {
            InputCheck::Unresolved => Err(TxError::UnresolvedInput),
            InputCheck::Invalid => Ok(false),
            InputCheck::Valid => check_inputs_from(tx, chain, earlier, from + 1),
        }
    }
}

/// What verifying a transaction of a block gives, against a chain and the
/// transactions that stand before it in the block: a coinbase transaction is
/// always valid, any other by its inputs.
pub open spec fn verify_within(
    tx: TransactionView,
    chain: Seq<BlockView>,
    earlier: Seq<TransactionView>,
) -> Result<bool, TxError> {
    if coinbase(tx) {
        Ok(true)
    } else {
        check_inputs_from(tx, chain, earlier, 0)
    }
}

/// What verifying a transaction against a chain gives.
pub open spec fn verify_outcome(tx: TransactionView, chain: Seq<BlockView>) -> Result<bool, TxError> {
    verify_within(tx, chain, Seq::empty())
}

/// The sum of the first `upto` amounts of a list of outputs.
pub open spec fn output_total(outputs: Seq<TXOutputView>, upto: int) -> int
    decreases upto,
{
    if upto <= 0 || upto > outputs.len() {
        0
    } else {
        output_total(outputs, upto - 1) + outputs[upto - 1].value
    }
}

/// The amount that input `index` brings in: that of the output it spends,
/// nothing where that output is not held.
pub open spec fn input_value(
    tx: TransactionView,
    chain: Seq<BlockView>,
    earlier: Seq<TransactionView>,
    index: int,
) -> int {
    match resolve(chain, earlier, tx.vin[index].txid) {
        Some(spent) => if tx.vin[index].vout < spent.vout.len() {
            spent.vout[tx.vin[index].vout as int].value as int
        } else {
            0
        },
        None => 0,
    }
}

/// The sum of what the first `upto` inputs bring in.
pub open spec fn input_total(
    tx: TransactionView,
    chain: Seq<BlockView>,
    earlier: Seq<TransactionView>,
    upto: int,
) -> int
    decreases upto,
{
    if upto <= 0 || upto > tx.vin.len() {
        0
    } else {
        input_total(tx, chain, earlier, upto - 1) + input_value(tx, chain, earlier, upto - 1)
    }
}

/// A transaction that creates no money: no output is negative, and the
/// outputs together are no more than what the inputs bring in. A coinbase
/// transaction is exempt.
pub open spec fn conserves(
    tx: TransactionView,
    chain: Seq<BlockView>,
    earlier: Seq<TransactionView>,
) -> bool {
    coinbase(tx) || ((forall|i: int| 0 <= i < tx.vout.len() ==> (#[trigger] tx.vout[i]).value >= 0)
        && output_total(tx.vout, tx.vout.len() as int) <= input_total(
        tx,
        chain,
        earlier,
        tx.vin.len() as int,
    ))
}

/// The first transaction with the given id among the first `upto` of a
/// list.
pub fn find_among(transactions: &[Transaction], upto: usize, txid: &[u8]) -> (found: Option<
    Transaction,
>)
    requires
        upto <= transactions@.len(),
    ensures
        found.is_some() == find_from(
            transactions_view(transactions@).take(upto as int),
            txid@,
            0,
        ).is_some(),
        found.is_some() ==> found.unwrap()@ == find_from(
            transactions_view(transactions@).take(upto as int),
            txid@,
            0,
        ).unwrap(),
{
    let ghost earlier = transactions_view(transactions@).take(upto as int);
    let mut i: usize = 0;
    while i < upto
        invariant
            i <= upto <= transactions@.len(),
            earlier == transactions_view(transactions@).take(upto as int),
            find_from(earlier, txid@, 0) == find_from(earlier, txid@, i as int),
        decreases upto - i,
    {
        assert(earlier[i as int] == transactions@[i as int]@);
        if bytes_eq(transactions[i].get_id(), txid) {
            return Some(transactions[i].duplicate());
        }
        i += 1;
    }
    None
}

impl Transaction {
    /// The trimmed copy in which input `index` carries `lock` in place of a
    /// key.
    pub fn signing_copy(&self, index: usize, lock: &[u8]) -> (copy: Transaction)
        ensures
            copy@ == signing_form(self@, index as int, lock@),
    {
        let mut inputs: Vec<TXInput> = Vec::new();
        let mut i: usize = 0;
        while i < self.vin.len()
            invariant
                i <= self.vin@.len(),
                inputs@.len() == i,
                forall|k: int| 0 <= k < i ==> inputs@[k]@ == signing_form(self@, index as int, lock@).vin[k],
            decreases self.vin@.len() - i,
        {
            let mut input = TXInput::new(self.vin[i].get_txid(), self.vin[i].get_vout());
            if i == index {
                input.pub_key = copy_bytes(lock);
            }
            inputs.push(input);
            i += 1;
        }
        let copy = Transaction {
            id: copy_bytes(self.id.as_slice()),
            vin: inputs,
            vout: duplicate_outputs(self.vout.as_slice()),
        };
        assert(copy@.vin =~= signing_form(self@, index as int, lock@).vin);
        copy
    }

    /// Checks the signature of one input against the transaction that it
    /// spends from.
    pub fn verify_input(&self, index: usize, spent: Option<Transaction>) -> (check: InputCheck)
        requires
            index < self@.vin.len(),
        ensures
            check == match spent {
                None => InputCheck::Unresolved,
                Some(prev) => if self@.vin[index as int].vout >= prev@.vout.len() {
                    InputCheck::Unresolved
                } else if ecdsa_p256_valid(
                    self@.vin[index as int].pub_key,
                    self@.vin[index as int].signature,
                    signed_message(
                        self@,
                        index as int,
                        prev@.vout[self@.vin[index as int].vout as int].pub_key_hash,
                    ),
                ) {
                    InputCheck::Valid
                } else {
                    InputCheck::Invalid
                },
            },
    {
        let input = &self.vin[index];
        match spent {
            None => InputCheck::Unresolved,
            Some(prev) => {
                if input.vout >= prev.vout.len() {
                    return InputCheck::Unresolved;
                }
                let copy = self.signing_copy(index, prev.vout[input.vout].get_pub_key_hash());
                let message = copy.hash();
                if ecdsa_p256_sha256_sign_verify(
                    input.get_pub_key(),
                    input.get_signature(),
                    message.as_slice(),
                ) {
                    InputCheck::Valid
                } else {
                    InputCheck::Invalid
                }
            },
        }
    }

    /// Verifies the transaction as one of a block, against a chain and the
    /// first `upto` transactions of the block. A coinbase transaction is
    /// valid. Any other is valid where every input spends an output of one
    /// of those transactions or of the chain and carries a signature, by the
    /// input's key, of the message made for it; an output that neither holds
    /// is an error.
    pub fn verify_within(&self, blockchain: &Blockchain, block: &[Transaction], upto: usize) -> (outcome:
        Result<bool, TxError>)
        requires
            upto <= block@.len(),
        ensures
            outcome == verify_within(
                self@,
                blockchain@,
                transactions_view(block@).take(upto as int),
            ),
    {
        if self.is_coinbase() {
            return Ok(true);
        }
        let ghost earlier = transactions_view(block@).take(upto as int);
        let mut i: usize = 0;
        while i < self.vin.len()
            invariant
                i <= self.vin@.len(),
                upto <= block@.len(),
                earlier == transactions_view(block@).take(upto as int),
                !coinbase(self@),
                verify_within(self@, blockchain@, earlier) == check_inputs_from(
                    self@,
                    blockchain@,
                    earlier,
                    i as int,
                ),
            decreases self.vin@.len() - i,
        {
            let spent = match find_among(block, upto, self.vin[i].get_txid()) {
                Some(tx) => Some(tx),
                None => blockchain.find_transaction(self.vin[i].get_txid()),
            };
            match self.verify_input(i, spent) {
                InputCheck::Unresolved => {
                    return Err(TxError::UnresolvedInput);
                },
                InputCheck::Invalid => {
                    return Ok(false);
                },
                InputCheck::Valid => {},
            }
            i += 1;
        }
        Ok(true)
    }

    /// Whether the transaction, as one of a block, creates no money: the
    /// outputs that its inputs spend are looked up among the first `upto`
    /// transactions of the block and in the chain.
    pub fn conserves_value(&self, blockchain: &Blockchain, block: &[Transaction], upto: usize) -> (answer:
        bool)
        requires
            upto <= block@.len(),
        ensures
            answer == conserves(self@, blockchain@, transactions_view(block@).take(upto as int)),
    {
        if self.is_coinbase() {
            return true;
        }
        let ghost earlier = transactions_view(block@).take(upto as int);
        let mut paid: i128 = 0;
        let mut j: usize = 0;
        while j < self.vout.len()
            invariant
                j <= self.vout@.len(),
                !coinbase(self@),
                paid == output_total(self@.vout, j as int),
                0 <= paid <= j * 0x8000_0000,
                forall|k: int| 0 <= k < j ==> (#[trigger] self@.vout[k]).value >= 0,
            decreases self.vout@.len() - j,
        {
            assert(self@.vout[j as int] == self.vout@[j as int]@);
            if self.vout[j].value < 0 {
                return false;
            }
            paid = paid + self.vout[j].value as i128;
            j += 1;
        }
        let mut brought: i128 = 0;
        let mut i: usize = 0;
        while i < self.vin.len()
            invariant
                i <= self.vin@.len(),
                upto <= block@.len(),
                earlier == transactions_view(block@).take(upto as int),
                brought == input_total(self@, blockchain@, earlier, i as int),
                -(i * 0x8000_0000) <= brought <= i * 0x8000_0000,
                !coinbase(self@),
                paid == output_total(self@.vout, self@.vout.len() as int),
                forall|k: int| 0 <= k < self@.vout.len() ==> (#[trigger] self@.vout[k]).value >= 0,
            decreases self.vin@.len() - i,
        {
            let input = &self.vin[i];
            assert(self@.vin[i as int] == input@);
            let spent = match find_among(block, upto, input.get_txid()) {
                Some(tx) => Some(tx),
                None => blockchain.find_transaction(input.get_txid()),
            };
            let value: i32 = match spent {
                Some(prev) => {
                    if input.vout < prev.vout.len() {
                        assert(prev@.vout[input.vout as int] == prev.vout@[input.vout as int]@);
                        prev.vout[input.vout].value
                    } else {
                        0
                    }
                },
                None => 0,
            };
            assert(value == input_value(self@, blockchain@, earlier, i as int));
            brought = brought + value as i128;
            i += 1;
        }
        paid <= brought
    }

    /// Verifies the transaction against a chain. A coinbase transaction is
    /// valid. Any other is valid where every input spends an output that the
    /// chain holds and carries a signature, by the input's key, of the
    /// message made for it; an output that the chain does not hold is an
    /// error.
    pub fn verify(&self, blockchain: &Blockchain) -> (outcome: Result<bool, TxError>)
        ensures
            outcome == verify_outcome(self@, blockchain@),
    {
        let none: Vec<Transaction> = Vec::new();
        assert(transactions_view(none@).take(0) =~= Seq::<TransactionView>::empty());
        self.verify_within(blockchain, none.as_slice(), 0)
    }
}

/// Where the inputs of a transaction pass their checks, every one of them
/// spends an output that is held and is signed for it.
pub proof fn lemma_verified_inputs(
    tx: TransactionView,
    chain: Seq<BlockView>,
    earlier: Seq<TransactionView>,
    from: int,
    index: int,
)
    requires
        check_inputs_from(tx, chain, earlier, from) == Ok::<bool, TxError>(true),
        0 <= from <= index < tx.vin.len(),
    ensures
        check_input(tx, chain, earlier, index) == InputCheck::Valid,
    decreases tx.vin.len() - from,
{
    if from < index {
        lemma_verified_inputs(tx, chain, earlier, from + 1, index);
    }
}

/// A coinbase transaction verifies against every chain, and has exactly one
/// input, which names no key.
pub proof fn lemma_coinbase_verifies(tx: TransactionView, chain: Seq<BlockView>)
    requires
        coinbase(tx),
    ensures
        verify_outcome(tx, chain) == Ok::<bool, TxError>(true),
        tx.vin.len() == 1,
        tx.vin[0].pub_key == Seq::<u8>::empty(),
{
    lemma_coinbase_shape(tx);
}

} // verus!
