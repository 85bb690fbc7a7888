use ledger_node::block::{hash_meets_target, Block, TARGET_BITS};
use ledger_node::blockchain::{AddOutcome, Blockchain};
use ledger_node::primitives::{base58_decode, bytes_eq, ecdsa_p256_sha256_sign_verify};
use ledger_node::proof_of_work::ProofOfWork;
use ledger_node::server::{Package, Server};
use ledger_node::transaction::{TXInput, TXOutput, Transaction, TxError, SUBSIDY};
use ledger_node::utxo_set::{saturating_sum, UTXOSet};
use ring::rand::SystemRandom;
use ring::signature::{EcdsaKeyPair, KeyPair, ECDSA_P256_SHA256_FIXED_SIGNING};

fn owner(tag: u8) -> Vec<u8> {
    (0..20u8).map(|i| i.wrapping_mul(7).wrapping_add(tag)).collect()
}

fn address(tag: u8) -> String {
    let mut payload = vec![0u8];
    payload.extend(owner(tag));
    payload.extend([9u8, 9, 9, 9]);
    bs58::encode(payload).into_string()
}

fn genesis_chain(tag: u8) -> (Blockchain, Transaction) {
    let coinbase = Transaction::new_coinbase_tx(&address(tag)).unwrap();
    let genesis = Block::new_genesis_block(coinbase.clone(), 100).unwrap();
    (Blockchain::create(genesis).unwrap(), coinbase)
}

fn new_key() -> (EcdsaKeyPair, SystemRandom) {
    let rng = SystemRandom::new();
    let pkcs8 = EcdsaKeyPair::generate_pkcs8(&ECDSA_P256_SHA256_FIXED_SIGNING, &rng).unwrap();
    let key =
        EcdsaKeyPair::from_pkcs8(&ECDSA_P256_SHA256_FIXED_SIGNING, pkcs8.as_ref(), &rng).unwrap();
    (key, rng)
}

/// A transfer of `amount` out of output 0 of `source`, signed by a fresh key.
fn signed_transfer(source: &Transaction, from: u8, to: u8, amount: i32) -> Transaction {
    let (key, rng) = new_key();
    let mut input = TXInput::new(source.get_id(), 0);
    input.pub_key = key.public_key().as_ref().to_vec();
    let mut tx = Transaction {
        id: Vec::new(),
        vin: vec![input],
        vout: vec![
            TXOutput::new(amount, &address(to)).unwrap(),
            TXOutput::new(source.get_vout()[0].get_value() - amount, &address(from)).unwrap(),
        ],
    };
    tx.id = tx.hash();
    let message = tx.signing_copy(0, source.get_vout()[0].get_pub_key_hash()).hash();
    tx.vin[0].signature = key.sign(&rng, &message).unwrap().as_ref().to_vec();
    tx
}

#[test]
fn sha256_of_nothing_is_the_known_digest() {
    let block = Block {
        timestamp: 0,
        prev_block_hash: Vec::new(),
        hash: Vec::new(),
        transactions: Vec::new(),
        nonce: 0,
    };
    let expected: Vec<u8> = vec![
        0xe3, 0xb0, 0xc4, 0x42, 0x98, 0xfc, 0x1c, 0x14, 0x9a, 0xfb, 0xf4, 0xc8, 0x99, 0x6f, 0xb9,
        0x24, 0x27, 0xae, 0x41, 0xe4, 0x64, 0x9b, 0x93, 0x4c, 0xa4, 0x95, 0x99, 0x1b, 0x78, 0x52,
        0xb8, 0x55,
    ];
    assert_eq!(block.hash_transactions(), expected);
}

#[test]
fn base58_decode_gives_the_payload() {
    assert_eq!(
        base58_decode("he11owor1d"),
        Some(vec![0x04, 0x30, 0x5e, 0x2b, 0x24, 0x73, 0xf0, 0x58])
    );
    assert_eq!(base58_decode("0OIl"), None);
}

#[test]
fn output_is_locked_to_the_hash_inside_the_address() {
    let output = TXOutput::new(7, &address(3)).unwrap();
    assert_eq!(output.get_value(), 7);
    assert_eq!(output.get_pub_key_hash(), owner(3).as_slice());
    assert!(output.is_locked_with_key(&owner(3)));
    assert!(!output.is_locked_with_key(&owner(4)));
}

#[test]
fn output_refuses_what_is_no_address() {
    assert!(TXOutput::new(7, "0OIl").is_none());
    let short = bs58::encode(vec![1u8, 2, 3, 4]).into_string();
    assert!(TXOutput::new(7, &short).is_none());
    let shortest = bs58::encode(vec![1u8, 2, 3, 4, 5]).into_string();
    assert_eq!(TXOutput::new(7, &shortest).unwrap().get_pub_key_hash(), &[] as &[u8]);
}

#[test]
fn lock_keeps_the_output_where_the_payload_is_short() {
    let mut output = TXOutput { value: 3, pub_key_hash: vec![1, 2] };
    assert!(!output.lock(&[1, 2, 3, 4]));
    assert_eq!(output.pub_key_hash, vec![1, 2]);
    assert!(output.lock(&[0, 5, 6, 1, 2, 3, 4]));
    assert_eq!(output.pub_key_hash, vec![5, 6]);
}

#[test]
fn coinbase_has_one_keyless_input_and_verifies() {
    let (chain, coinbase) = genesis_chain(1);
    assert!(coinbase.is_coinbase());
    assert_eq!(coinbase.get_vin().len(), 1);
    assert!(coinbase.get_vin()[0].get_pub_key().is_empty());
    assert!(coinbase.get_vin()[0].get_txid().is_empty());
    assert_eq!(coinbase.get_vin()[0].get_vout(), 0);
    assert_eq!(coinbase.get_vin()[0].get_signature().len(), 16);
    assert_eq!(coinbase.get_vout().len(), 1);
    assert_eq!(coinbase.get_vout()[0].get_value(), SUBSIDY);
    assert_eq!(coinbase.get_id().len(), 32);
    assert_eq!(coinbase.get_id(), coinbase.hash().as_slice());
    assert_eq!(coinbase.verify(&chain), Ok(true));
}

#[test]
fn coinbase_transactions_differ() {
    let a = Transaction::new_coinbase_tx(&address(1)).unwrap();
    let b = Transaction::new_coinbase_tx(&address(1)).unwrap();
    assert_ne!(a.get_id(), b.get_id());
    assert!(Transaction::new_coinbase_tx("0OIl").is_none());
}

#[test]
fn coinbase_with_given_bytes_is_determined() {
    let mut payload = vec![0u8];
    payload.extend(owner(2));
    payload.extend([0u8; 4]);
    let a = Transaction::coinbase_with(vec![1, 2, 3], &payload).unwrap();
    let b = Transaction::coinbase_with(vec![1, 2, 3], &payload).unwrap();
    assert_eq!(a.get_id(), b.get_id());
    assert_eq!(a.get_vin()[0].get_signature(), &[1u8, 2, 3]);
    assert_eq!(a.get_vout()[0].get_pub_key_hash(), owner(2).as_slice());
    assert!(Transaction::coinbase_with(vec![1], &[1, 2, 3]).is_none());
}

#[test]
fn trimmed_copy_drops_signatures_and_keys() {
    let tx = Transaction {
        id: vec![1, 2],
        vin: vec![TXInput { txid: vec![7], vout: 3, signature: vec![4, 4], pub_key: vec![5] }],
        vout: vec![TXOutput { value: 9, pub_key_hash: vec![6] }],
    };
    let copy = tx.trimmed_copy();
    assert_eq!(copy.get_id(), &[1u8, 2]);
    assert_eq!(copy.get_vin()[0].get_txid(), &[7u8]);
    assert_eq!(copy.get_vin()[0].get_vout(), 3);
    assert!(copy.get_vin()[0].get_signature().is_empty());
    assert!(copy.get_vin()[0].get_pub_key().is_empty());
    assert_eq!(copy.get_vout()[0].get_value(), 9);
    assert_eq!(copy.get_vout()[0].get_pub_key_hash(), &[6u8]);
}

#[test]
fn transaction_bytes_are_laid_out_field_by_field() {
    let tx = Transaction {
        id: vec![0xaa],
        vin: vec![TXInput { txid: vec![1], vout: 258, signature: vec![], pub_key: vec![2, 3] }],
        vout: vec![TXOutput { value: -2, pub_key_hash: vec![4] }],
    };
    let expected: Vec<u8> = vec![
        1, 0, 0, 0, 0, 0, 0, 0, 0xaa, // id
        1, 0, 0, 0, 0, 0, 0, 0, // one input
        1, 0, 0, 0, 0, 0, 0, 0, 1, // txid
        2, 1, 0, 0, 0, 0, 0, 0, // vout 258
        0, 0, 0, 0, 0, 0, 0, 0, // signature
        2, 0, 0, 0, 0, 0, 0, 0, 2, 3, // key
        1, 0, 0, 0, 0, 0, 0, 0, // one output
        0xfe, 0xff, 0xff, 0xff, // -2
        1, 0, 0, 0, 0, 0, 0, 0, 4, // owner
    ];
    assert_eq!(tx.serialize(), expected);
}

#[test]
fn transaction_bytes_are_those_of_bincode() {
    let (_, coinbase) = genesis_chain(1);
    let tx = signed_transfer(&coinbase, 1, 2, 4);
    let vin: Vec<(Vec<u8>, u64, Vec<u8>, Vec<u8>)> = tx
        .vin
        .iter()
        .map(|i| (i.txid.clone(), i.vout as u64, i.signature.clone(), i.pub_key.clone()))
        .collect();
    let vout: Vec<(i32, Vec<u8>)> =
        tx.vout.iter().map(|o| (o.value, o.pub_key_hash.clone())).collect();
    let expected = bincode::serialize(&(tx.id.clone(), vin, vout)).unwrap();
    assert_eq!(tx.serialize(), expected);
}

#[test]
fn transaction_round_trip() {
    let (_, coinbase) = genesis_chain(1);
    let tx = signed_transfer(&coinbase, 1, 2, 4);
    let back = Transaction::deserialize(&tx.serialize()).unwrap();
    assert_eq!(back.id, tx.id);
    assert_eq!(back.serialize(), tx.serialize());
    assert_eq!(back.vin[0].pub_key, tx.vin[0].pub_key);
    assert_eq!(back.vin[0].signature, tx.vin[0].signature);
    assert_eq!(back.vout[1].value, 6);
    let negative = Transaction {
        id: vec![],
        vin: vec![],
        vout: vec![TXOutput { value: i32::MIN, pub_key_hash: vec![] }],
    };
    let back = Transaction::deserialize(&negative.serialize()).unwrap();
    assert_eq!(back.vout[0].value, i32::MIN);
}

#[test]
fn transaction_bytes_cut_short_or_extended_are_refused() {
    let (_, coinbase) = genesis_chain(1);
    let bytes = coinbase.serialize();
    assert!(Transaction::deserialize(&bytes[..bytes.len() - 1]).is_none());
    let mut longer = bytes.clone();
    longer.push(0);
    assert!(Transaction::deserialize(&longer).is_none());
    assert!(Transaction::deserialize(&[]).is_none());
    assert!(Transaction::deserialize(&[255; 8]).is_none());
}

#[test]
fn block_round_trip() {
    let (chain, _) = genesis_chain(1);
    let genesis = chain.block_at(0).duplicate();
    let bytes = genesis.serialize();
    let back = Block::deserialize(&bytes).unwrap();
    assert_eq!(back.get_hash(), genesis.get_hash());
    assert_eq!(back.get_prev_block_hash(), genesis.get_prev_block_hash());
    assert_eq!(back.get_timestamp(), 100);
    assert_eq!(back.get_nonce(), genesis.get_nonce());
    assert_eq!(back.get_transactions().len(), 1);
    assert_eq!(back.serialize(), bytes);
    assert!(back.has_valid_proof());
    assert!(Block::deserialize(&bytes[1..]).is_none());
    let negative = Block {
        timestamp: -5,
        prev_block_hash: vec![1],
        hash: vec![2, 3],
        transactions: vec![],
        nonce: -1,
    };
    let expected: Vec<u8> = vec![
        0xfb, 0xff, 0xff, 0xff, 0xff, 0xff, 0xff, 0xff, // timestamp
        1, 0, 0, 0, 0, 0, 0, 0, 1, // previous hash
        2, 0, 0, 0, 0, 0, 0, 0, 2, 3, // hash
        0, 0, 0, 0, 0, 0, 0, 0, // no transactions
        0xff, 0xff, 0xff, 0xff, 0xff, 0xff, 0xff, 0xff, // nonce
    ];
    assert_eq!(negative.serialize(), expected);
    let back = Block::deserialize(&negative.serialize()).unwrap();
    assert_eq!(back.get_timestamp(), -5);
    assert_eq!(back.get_nonce(), -1);
}

#[test]
fn target_is_two_to_the_power_of_256_minus_the_bits() {
    let mut hash = vec![0u8; 32];
    hash[1] = 0xff;
    assert!(hash_meets_target(&hash, 8));
    assert!(!hash_meets_target(&hash, 9));
    hash[0] = 1;
    assert!(!hash_meets_target(&hash, 8));
    assert!(hash_meets_target(&hash, 7));
    assert!(hash_meets_target(&[0xff; 32], 0));
    assert!(!hash_meets_target(&[0u8; 32], 257));
    assert!(hash_meets_target(&[0u8; 32], 256));
    let mut one = vec![0u8; 32];
    one[31] = 1;
    assert!(!hash_meets_target(&one, 256));
    assert!(hash_meets_target(&one, 255));
}

#[test]
fn mining_finds_the_lowest_nonce() {
    let (chain, _) = genesis_chain(1);
    let genesis = chain.block_at(0).duplicate();
    assert!(genesis.has_valid_proof());
    assert_eq!(genesis.get_hash().len(), 32);
    assert_eq!(genesis.get_hash()[0], 0);
    assert_eq!(genesis.get_prev_block_hash(), &[0u8; 32]);
    let pow = ProofOfWork::new_proof_of_work(genesis.duplicate());
    assert_eq!(pow.target_bits, TARGET_BITS);
    let (nonce, hash) = pow.run().unwrap();
    assert_eq!(nonce, genesis.get_nonce());
    assert_eq!(hash.as_slice(), genesis.get_hash());
    for lower in 0..nonce {
        assert!(!sha256::digest(pow.prepare_data(lower).as_slice()).starts_with("00"));
    }
    let text: String = hash.iter().map(|b| format!("{:02x}", b)).collect();
    assert_eq!(sha256::digest(pow.prepare_data(nonce).as_slice()), text);
    let data = pow.prepare_data(nonce);
    assert_eq!(&data[..32], &[0u8; 32]);
    assert_eq!(&data[32..64], genesis.hash_transactions().as_slice());
    assert_eq!(&data[64..72], &100i64.to_le_bytes());
    assert_eq!(&data[72..76], &TARGET_BITS.to_le_bytes());
    assert_eq!(&data[76..], &nonce.to_le_bytes());
}

#[test]
fn a_block_with_another_nonce_or_hash_has_no_valid_proof() {
    let (chain, _) = genesis_chain(1);
    let mut block = chain.block_at(0).duplicate();
    block.nonce += 1;
    assert!(!block.has_valid_proof());
    block.nonce -= 1;
    assert!(block.has_valid_proof());
    block.hash[31] ^= 1;
    assert!(!block.has_valid_proof());
    block.hash[31] ^= 1;
    block.timestamp += 1;
    assert!(!block.has_valid_proof());
}

#[test]
fn create_refuses_what_is_no_genesis_block() {
    let coinbase = Transaction::new_coinbase_tx(&address(1)).unwrap();
    let on_top = Block::new_block(vec![1; 32], vec![coinbase.clone()], 5).unwrap();
    assert!(Blockchain::create(on_top).is_none());
    let mut tampered = Block::new_genesis_block(coinbase.clone(), 5).unwrap();
    tampered.nonce += 1;
    assert!(Blockchain::create(tampered).is_none());
    let two = Block::new_block(vec![0; 32], vec![coinbase.clone(), coinbase], 5).unwrap();
    assert!(Blockchain::create(two).is_none());
    assert!(Blockchain::is_genesis_parent(&[0; 32]));
    assert!(!Blockchain::is_genesis_parent(&[0; 31]));
}

#[test]
fn add_block_says_why_a_block_is_refused() {
    let (mut chain, coinbase) = genesis_chain(1);
    let genesis = chain.block_at(0).duplicate();
    assert_eq!(chain.add_block(&genesis), AddOutcome::Duplicate);

    let reward = Transaction::new_coinbase_tx(&address(3)).unwrap();
    let mut bad = Block::new_block(chain.get_tip_hash().to_vec(), vec![reward.clone()], 7).unwrap();
    bad.nonce += 1;
    assert_eq!(chain.add_block(&bad), AddOutcome::InvalidProof);

    let orphan = Block::new_block(vec![5; 32], vec![reward.clone()], 7).unwrap();
    assert_eq!(chain.add_block(&orphan), AddOutcome::UnknownParent);

    let unknown = Transaction {
        id: vec![1],
        vin: vec![TXInput { txid: vec![9, 9], vout: 0, signature: vec![1], pub_key: vec![2] }],
        vout: vec![],
    };
    let unresolved =
        Block::new_block(chain.get_tip_hash().to_vec(), vec![unknown.clone()], 7).unwrap();
    assert_eq!(chain.add_block(&unresolved), AddOutcome::UnresolvedInput);
    assert_eq!(unknown.verify(&chain), Err(TxError::UnresolvedInput));

    let mut forged = signed_transfer(&coinbase, 1, 2, 4);
    forged.vin[0].signature[5] ^= 1;
    assert_eq!(forged.verify(&chain), Ok(false));
    let invalid = Block::new_block(chain.get_tip_hash().to_vec(), vec![forged], 7).unwrap();
    assert_eq!(chain.add_block(&invalid), AddOutcome::InvalidSignature);

    let beyond = Transaction {
        id: vec![1],
        vin: vec![TXInput {
            txid: coinbase.get_id().to_vec(),
            vout: 1,
            signature: vec![1],
            pub_key: vec![2],
        }],
        vout: vec![],
    };
    assert_eq!(beyond.verify(&chain), Err(TxError::UnresolvedInput));
    assert_eq!(chain.len(), 1);

    let first = Block::new_block(chain.get_tip_hash().to_vec(), vec![reward.clone()], 7).unwrap();
    assert_eq!(chain.add_block(&first), AddOutcome::Appended);
    assert_eq!(chain.get_best_height(), 1);
    assert_eq!(chain.get_tip_hash(), first.get_hash());

    let side = Block::new_block(genesis.get_hash().to_vec(), vec![reward], 8).unwrap();
    assert_eq!(chain.add_block(&side), AddOutcome::SideBranch);
    assert_eq!(chain.len(), 2);
}

#[test]
fn chain_answers_lookups_from_the_tip() {
    let (mut chain, coinbase) = genesis_chain(1);
    let genesis_hash = chain.get_tip_hash().to_vec();
    let reward = Transaction::new_coinbase_tx(&address(3)).unwrap();
    let block = chain.mine_block(vec![reward.clone()], 9).unwrap();
    assert_eq!(
        chain.get_block_hashes(),
        vec![block.get_hash().to_vec(), genesis_hash.clone()]
    );
    assert_eq!(chain.find_position(&genesis_hash), Some(0));
    assert_eq!(chain.find_position(block.get_hash()), Some(1));
    assert_eq!(chain.find_position(&[1, 2, 3]), None);
    assert_eq!(chain.get_block(&genesis_hash).unwrap().get_timestamp(), 100);
    assert!(chain.get_block(&[1, 2, 3]).is_none());
    assert_eq!(chain.find_transaction(reward.get_id()).unwrap().get_id(), reward.get_id());
    assert_eq!(chain.find_transaction(coinbase.get_id()).unwrap().get_id(), coinbase.get_id());
    assert!(chain.find_transaction(&[0; 32]).is_none());
    let copy = chain.duplicate();
    assert_eq!(copy.get_block_hashes(), chain.get_block_hashes());
}

#[test]
fn a_signed_transfer_verifies_and_a_wrong_key_does_not() {
    let (chain, coinbase) = genesis_chain(1);
    let tx = signed_transfer(&coinbase, 1, 2, 4);
    assert!(!tx.is_coinbase());
    assert_eq!(tx.verify(&chain), Ok(true));
    let message = tx.signing_copy(0, coinbase.get_vout()[0].get_pub_key_hash()).hash();
    assert!(ecdsa_p256_sha256_sign_verify(
        tx.vin[0].get_pub_key(),
        tx.vin[0].get_signature(),
        &message
    ));
    assert!(!ecdsa_p256_sha256_sign_verify(
        tx.vin[0].get_pub_key(),
        tx.vin[0].get_signature(),
        &[1, 2, 3]
    ));
    let mut other = tx.duplicate();
    let (key, _) = new_key();
    other.vin[0].pub_key = key.public_key().as_ref().to_vec();
    assert_eq!(other.verify(&chain), Ok(false));
}

#[test]
fn genesis_output_is_the_owners_only_unspent_output() {
    let (chain, coinbase) = genesis_chain(1);
    let mut set = UTXOSet::new(chain);
    assert_eq!(set.count_transactions(), 0);
    set.reindex();
    assert_eq!(set.count_transactions(), 1);
    let found = set.find_utxo(&owner(1));
    assert_eq!(found.len(), 1);
    assert_eq!(found[0].get_value(), SUBSIDY);
    assert_eq!(found[0].get_pub_key_hash(), owner(1).as_slice());
    assert!(set.find_utxo(&owner(2)).is_empty());
    assert_eq!(set.get_blockchain().len(), 1);
    assert_eq!(set.get_blockchain().find_transaction(coinbase.get_id()).unwrap().id, coinbase.id);
}

#[test]
fn spending_leaves_the_change_and_the_payment() {
    let (chain, coinbase) = genesis_chain(1);
    let mut set = UTXOSet::new(chain);
    set.reindex();
    let tx = signed_transfer(&coinbase, 1, 2, 4);
    let reward = Transaction::new_coinbase_tx(&address(3)).unwrap();
    let block = set.mine_block(vec![tx.clone(), reward], 200).unwrap();
    assert!(block.has_valid_proof());
    assert_eq!(set.get_blockchain().get_best_height(), 1);

    let of_a = set.find_utxo(&owner(1));
    assert_eq!(of_a.len(), 1);
    assert_eq!(of_a[0].get_value(), SUBSIDY - 4);
    let of_b = set.find_utxo(&owner(2));
    assert_eq!(of_b.len(), 1);
    assert_eq!(of_b[0].get_value(), 4);
    assert_eq!(set.find_utxo(&owner(3)).len(), 1);
    assert_eq!(set.count_transactions(), 2);

    let (gathered, picked) = set.find_spendable_outputs(&owner(1), 5);
    assert_eq!(gathered, 6);
    assert_eq!(picked.len(), 1);
    assert_eq!(picked[0].outputs, vec![1]);
    let hex: String = tx.get_id().iter().map(|b| format!("{:02x}", b)).collect();
    assert_eq!(picked[0].txid_hex, hex);
    let (gathered, picked) = set.find_spendable_outputs(&owner(1), 0);
    assert_eq!(gathered, 0);
    assert!(picked.is_empty());
    let (gathered, picked) = set.find_spendable_outputs(&owner(2), 100);
    assert_eq!(gathered, 4);
    assert_eq!(picked[0].outputs, vec![0]);
}

#[test]
fn rebuilding_the_index_gives_what_updating_gave() {
    let (chain, coinbase) = genesis_chain(1);
    let mut updated = UTXOSet::new(chain);
    updated.reindex();
    let tx = signed_transfer(&coinbase, 1, 2, 4);
    let reward = Transaction::new_coinbase_tx(&address(3)).unwrap();
    let block = updated.mine_block(vec![tx, reward], 200).unwrap();
    let reward = Transaction::new_coinbase_tx(&address(1)).unwrap();
    updated.mine_block(vec![reward], 300).unwrap();

    let mut rebuilt = UTXOSet::new(updated.get_blockchain().duplicate());
    rebuilt.reindex();
    assert_eq!(rebuilt.count_transactions(), updated.count_transactions());
    for tag in 1..4u8 {
        let a: Vec<(i32, Vec<u8>)> =
            updated.find_utxo(&owner(tag)).iter().map(|o| (o.value, o.pub_key_hash.clone())).collect();
        let b: Vec<(i32, Vec<u8>)> =
            rebuilt.find_utxo(&owner(tag)).iter().map(|o| (o.value, o.pub_key_hash.clone())).collect();
        assert_eq!(a, b);
    }
    assert_eq!(updated.find_utxo(&owner(1)).len(), 2);

    let mut stepwise = UTXOSet::new(updated.get_blockchain().duplicate());
    for position in 0..3 {
        let block = updated.get_blockchain().block_at(position).duplicate();
        stepwise.update(&block);
    }
    assert_eq!(stepwise.count_transactions(), rebuilt.count_transactions());
    assert_eq!(stepwise.find_utxo(&owner(2)).len(), 1);
    assert_eq!(updated.accept_block(&block), AddOutcome::Duplicate);
}

#[test]
fn spending_the_last_output_removes_the_entry() {
    let (chain, coinbase) = genesis_chain(1);
    let mut set = UTXOSet::new(chain);
    set.reindex();
    set.spend_output(coinbase.get_id(), 1);
    assert_eq!(set.count_transactions(), 1);
    set.spend_output(&[1, 2, 3], 0);
    assert_eq!(set.count_transactions(), 1);
    set.spend_output(coinbase.get_id(), 0);
    assert_eq!(set.count_transactions(), 0);
    set.record_outputs(&[1], &[
        TXOutput { value: 1, pub_key_hash: vec![7] },
        TXOutput { value: 2, pub_key_hash: vec![8] },
        TXOutput { value: 3, pub_key_hash: vec![7] },
    ]);
    set.spend_output(&[1], 0);
    let (gathered, picked) = set.find_spendable_outputs(&[7], 10);
    assert_eq!(gathered, 3);
    assert_eq!(picked[0].outputs, vec![2]);
    assert_eq!(picked[0].txid_hex, "01");
    set.record_outputs(&[1], &[TXOutput { value: 5, pub_key_hash: vec![7] }]);
    assert_eq!(set.count_transactions(), 1);
    assert_eq!(set.find_utxo(&[7])[0].get_value(), 5);
}

#[test]
fn sums_of_amounts_stay_within_bounds() {
    assert_eq!(saturating_sum(3, 4), 7);
    assert_eq!(saturating_sum(i32::MAX, 1), i32::MAX);
    assert_eq!(saturating_sum(i32::MIN, -1), i32::MIN);
    assert_eq!(saturating_sum(-3, 1), -2);
    assert!(bytes_eq(&[1, 2], &[1, 2]));
    assert!(!bytes_eq(&[1, 2], &[1, 3]));
    assert!(!bytes_eq(&[1, 2], &[1]));
}

#[test]
fn only_transfers_that_verify_enter_the_pool() {
    let (chain, coinbase) = genesis_chain(1);
    assert!(chain.validate());
    let mut server = Server::new(chain);
    assert!(server.validate());
    let tx = signed_transfer(&coinbase, 1, 2, 4);
    let mut forged = tx.duplicate();
    forged.vin[0].signature[0] ^= 1;
    let mut unresolved = tx.duplicate();
    unresolved.vin[0].txid = vec![1, 2, 3];
    assert!(!server.admit_transaction(forged));
    assert!(!server.admit_transaction(unresolved));
    assert_eq!(server.memory_pool.len(), 0);
    assert!(server.admit_transaction(tx.duplicate()));
    assert!(!server.admit_transaction(tx.duplicate()));
    assert_eq!(server.memory_pool.len(), 1);
    let held = &server.memory_pool.get_all()[0];
    assert_eq!(held.verify(server.utxo_set.get_blockchain()), Ok(true));
    assert!(server.validate());
}

#[test]
fn mining_with_a_given_reward_is_determined() {
    let (chain, coinbase) = genesis_chain(1);
    let tx = signed_transfer(&coinbase, 1, 2, 4);
    let other = Transaction::new_coinbase_tx(&address(5)).unwrap();
    let reward = Transaction::new_coinbase_tx(&address(9)).unwrap();
    let mut tips = Vec::new();
    for _ in 0..2 {
        let mut server = Server::with_config(chain.duplicate(), "n:2".to_string(), None);
        let out = server.handle_tx_with("p:1", &tx.serialize(), 900, Some(reward.duplicate()));
        assert!(out.is_empty());
        assert_eq!(server.best_height(), 0);
        let out = server.handle_tx_with("p:1", &other.serialize(), 901, Some(reward.duplicate()));
        assert_eq!(server.best_height(), 1);
        assert_eq!(server.memory_pool.len(), 0);
        assert_eq!(out.len(), 1);
        assert_eq!(out[0].to, "127.0.0.1:2001");
        let tip = server.utxo_set.get_blockchain().get_tip_hash().to_vec();
        assert!(matches!(&out[0].package, Package::Inv { items, .. } if *items == vec![tip.clone()]));
        assert_eq!(server.utxo_set.find_utxo(&owner(1)).len(), 1);
        assert_eq!(server.utxo_set.find_utxo(&owner(1))[0].get_value(), 6);
        assert_eq!(server.utxo_set.find_utxo(&owner(2))[0].get_value(), 4);
        assert_eq!(server.utxo_set.find_utxo(&owner(9)).len(), 1);
        assert!(server.validate());
        tips.push(tip);
    }
    assert_eq!(tips[0], tips[1]);
    let mut idle = Server::with_config(chain.duplicate(), "n:2".to_string(), None);
    assert!(idle.handle_tx_with("p:1", &tx.serialize(), 900, None).is_empty());
    assert!(idle.handle_tx_with("p:1", &other.serialize(), 900, None).is_empty());
    assert_eq!(idle.memory_pool.len(), 2);
    assert_eq!(idle.best_height(), 0);
}

#[test]
fn a_transaction_may_spend_from_an_earlier_one_of_its_block() {
    let (chain, coinbase) = genesis_chain(1);
    let first = signed_transfer(&coinbase, 1, 2, 4);
    let second = signed_transfer(&first, 2, 3, 3);
    let reward = Transaction::new_coinbase_tx(&address(9)).unwrap();
    assert_eq!(second.verify(&chain), Err(TxError::UnresolvedInput));
    let block = [first.duplicate(), second.duplicate(), reward.duplicate()];
    assert_eq!(second.verify_within(&chain, &block, 1), Ok(true));
    assert_eq!(second.verify_within(&chain, &block, 0), Err(TxError::UnresolvedInput));

    let tip = chain.get_tip_hash().to_vec();
    let swapped =
        Block::new_block(tip.clone(), vec![second.duplicate(), first.duplicate()], 5).unwrap();
    let mut set = UTXOSet::new(chain);
    set.reindex();
    assert_eq!(set.accept_block(&swapped), AddOutcome::UnresolvedInput);
    assert_eq!(set.count_transactions(), 1);
    let good = Block::new_block(tip, vec![first, second, reward], 5).unwrap();
    assert_eq!(set.accept_block(&good), AddOutcome::Appended);
    assert_eq!(set.find_utxo(&owner(1))[0].get_value(), 6);
    assert_eq!(set.find_utxo(&owner(2)).len(), 1);
    assert_eq!(set.find_utxo(&owner(2))[0].get_value(), 1);
    assert_eq!(set.find_utxo(&owner(3))[0].get_value(), 3);
    assert_eq!(set.count_transactions(), 3);
}

#[test]
fn a_spent_output_cannot_be_spent_again_through_the_pool() {
    let (chain, coinbase) = genesis_chain(1);
    let mut server = Server::new(chain);
    let first = signed_transfer(&coinbase, 1, 2, 4);
    let again = signed_transfer(&coinbase, 1, 3, 5);
    assert!(server.utxo_set.is_unspent(coinbase.get_id(), 0));
    assert!(!server.utxo_set.is_unspent(coinbase.get_id(), 1));
    assert!(!server.utxo_set.is_unspent(&[1, 2], 0));
    assert!(server.utxo_set.spends_unspent(&again));
    let reward = Transaction::new_coinbase_tx(&address(9)).unwrap();
    assert!(server.admit_transaction(first));
    server.mine_pending(reward, 50).unwrap();
    assert!(!server.utxo_set.is_unspent(coinbase.get_id(), 0));
    assert!(!server.utxo_set.spends_unspent(&again));
    assert_eq!(again.verify(server.utxo_set.get_blockchain()), Ok(true));
    assert!(!server.admit_transaction(again));
    assert_eq!(server.memory_pool.len(), 0);
}

#[test]
fn a_transaction_that_creates_money_is_refused() {
    let (chain, coinbase) = genesis_chain(1);
    let fair = signed_transfer(&coinbase, 1, 2, 4);
    assert!(fair.conserves_value(&chain, &[], 0));
    assert!(coinbase.conserves_value(&chain, &[], 0));

    let (key, rng) = new_key();
    let mut input = TXInput::new(coinbase.get_id(), 0);
    input.pub_key = key.public_key().as_ref().to_vec();
    let mut greedy = Transaction {
        id: Vec::new(),
        vin: vec![input],
        vout: vec![TXOutput::new(SUBSIDY + 1, &address(2)).unwrap()],
    };
    greedy.id = greedy.hash();
    let message = greedy.signing_copy(0, coinbase.get_vout()[0].get_pub_key_hash()).hash();
    greedy.vin[0].signature = key.sign(&rng, &message).unwrap().as_ref().to_vec();
    assert_eq!(greedy.verify(&chain), Ok(true));
    assert!(!greedy.conserves_value(&chain, &[], 0));

    let mut negative = fair.duplicate();
    negative.vout[0].value = -1;
    negative.vout[1].value = 11;
    assert!(!negative.conserves_value(&chain, &[], 0));
    let mut exact = fair.duplicate();
    exact.vout[0].value = 0;
    exact.vout[1].value = SUBSIDY;
    assert!(exact.conserves_value(&chain, &[], 0));

    let mut server = Server::new(chain.duplicate());
    assert!(!server.admit_transaction(greedy.duplicate()));
    let mut chain = chain;
    let block = Block::new_block(chain.get_tip_hash().to_vec(), vec![greedy], 9).unwrap();
    assert_eq!(chain.add_block(&block), AddOutcome::Overspent);
    assert_eq!(chain.len(), 1);
}
