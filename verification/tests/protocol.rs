use ledger_node::block::Block;
use ledger_node::blockchain::Blockchain;
use ledger_node::memory_pool::{BlockInTransit, MemoryPool};
use ledger_node::node::{Nodes, CENTRAL_NODE};
use ledger_node::server::{
    send_block, send_get_blocks, send_get_data, send_inv, send_tx, send_version, OpType, Package,
    Server, NODE_VERSION, TRANSACTION_THRESHOLD,
};
use ledger_node::transaction::Transaction;

fn address(tag: u8) -> String {
    let mut payload = vec![0u8];
    payload.extend((0..20u8).map(|i| i.wrapping_add(tag)));
    payload.extend([9u8, 9, 9, 9]);
    bs58::encode(payload).into_string()
}

fn chain_of(blocks: usize) -> Blockchain {
    let coinbase = Transaction::new_coinbase_tx(&address(1)).unwrap();
    let genesis = Block::new_genesis_block(coinbase, 100).unwrap();
    let mut chain = Blockchain::create(genesis).unwrap();
    for i in 1..blocks {
        let reward = Transaction::new_coinbase_tx(&address(1)).unwrap();
        chain.mine_block(vec![reward], 100 + i as i64).unwrap();
    }
    chain
}

fn hex(bytes: &[u8]) -> String {
    bytes.iter().map(|b| format!("{:02x}", b)).collect()
}

#[test]
fn pool_is_keyed_by_the_id_in_hexadecimal() {
    let mut pool = MemoryPool::new();
    assert_eq!(pool.len(), 0);
    let mut tx = Transaction::new_coinbase_tx(&address(1)).unwrap();
    tx.id = vec![0x00, 0x1f, 0xa0, 0xff];
    pool.add(tx.clone());
    assert!(pool.contains("001fa0ff"));
    assert!(!pool.contains("001FA0FF"));
    assert!(!pool.contains("00"));
    assert_eq!(pool.get("001fa0ff").unwrap().get_id(), tx.get_id());
    assert!(pool.get("ff").is_none());
    assert_eq!(pool.len(), 1);
    let mut again = Transaction::new_coinbase_tx(&address(2)).unwrap();
    again.id = tx.id.clone();
    pool.add(again.clone());
    assert_eq!(pool.len(), 1);
    assert_eq!(pool.get("001fa0ff").unwrap().serialize(), again.serialize());
    let other = Transaction::new_coinbase_tx(&address(3)).unwrap();
    pool.add(other.clone());
    assert_eq!(pool.len(), 2);
    let all = pool.get_all();
    assert_eq!(all.len(), 2);
    assert_eq!(all[0].get_id(), again.get_id());
    assert_eq!(all[1].get_id(), other.get_id());
    pool.remove("ff");
    assert_eq!(pool.len(), 2);
    pool.remove("001fa0ff");
    assert_eq!(pool.len(), 1);
    assert!(!pool.contains("001fa0ff"));
    assert!(pool.contains(&hex(other.get_id())));
    pool.clear();
    assert_eq!(pool.len(), 0);
}

#[test]
fn blocks_in_transit_is_a_queue() {
    let mut queue = BlockInTransit::new();
    assert_eq!(queue.len(), 0);
    assert_eq!(queue.first(), None);
    queue.add_blocks(vec![vec![1], vec![2], vec![1]]);
    queue.add_blocks(vec![vec![3]]);
    assert_eq!(queue.len(), 4);
    assert_eq!(queue.first(), Some(vec![1]));
    assert!(queue.contains(&[3]));
    assert!(!queue.contains(&[4]));
    queue.remove(&[1]);
    assert_eq!(queue.first(), Some(vec![2]));
    assert_eq!(queue.len(), 3);
    queue.remove(&[9]);
    assert_eq!(queue.len(), 3);
    queue.remove(&[2]);
    assert_eq!(queue.first(), Some(vec![1]));
    queue.clear();
    assert_eq!(queue.len(), 0);
}

#[test]
fn registry_keeps_the_central_node() {
    let mut nodes = Nodes::new();
    assert_eq!(nodes.get_nodes(), vec![CENTRAL_NODE.to_string()]);
    assert!(nodes.node_is_known(CENTRAL_NODE));
    nodes.add_node("127.0.0.1:2002".to_string());
    nodes.add_node("127.0.0.1:2002".to_string());
    nodes.add_node("127.0.0.1:2003".to_string());
    assert_eq!(nodes.len(), 3);
    assert!(nodes.node_is_known("127.0.0.1:2002"));
    nodes.evict_node("127.0.0.1:2002");
    assert!(!nodes.node_is_known("127.0.0.1:2002"));
    nodes.evict_node("127.0.0.1:2009");
    nodes.evict_node(CENTRAL_NODE);
    assert_eq!(
        nodes.get_nodes(),
        vec![CENTRAL_NODE.to_string(), "127.0.0.1:2003".to_string()]
    );
}

#[test]
fn packages_carry_the_senders_address() {
    let out = send_version("a:1", "b:2", 7);
    assert_eq!(out.to, "a:1");
    assert!(matches!(
        &out.package,
        Package::Version { addr_from, version, best_height }
            if addr_from == "b:2" && *version == NODE_VERSION && *best_height == 7
    ));
    let out = send_get_blocks("a:1", "b:2");
    assert!(matches!(&out.package, Package::GetBlocks { addr_from } if addr_from == "b:2"));
    let out = send_get_data("a:1", "b:2", OpType::Tx, &[1, 2]);
    assert!(matches!(
        &out.package,
        Package::GetData { addr_from, op_type: OpType::Tx, id } if addr_from == "b:2" && id == &[1u8, 2]
    ));
    let out = send_inv("a:1", "b:2", OpType::Block, &[vec![1], vec![2, 3]]);
    assert!(matches!(
        &out.package,
        Package::Inv { addr_from, op_type: OpType::Block, items }
            if addr_from == "b:2" && items == &vec![vec![1u8], vec![2, 3]]
    ));
    let tx = Transaction::new_coinbase_tx(&address(1)).unwrap();
    let out = send_tx("a:1", "b:2", &tx);
    assert!(matches!(
        &out.package,
        Package::Tx { addr_from, transaction } if addr_from == "b:2" && *transaction == tx.serialize()
    ));
    let chain = chain_of(1);
    let block = chain.block_at(0);
    let out = send_block("a:1", "b:2", block);
    assert_eq!(out.to, "a:1");
    assert!(matches!(
        &out.package,
        Package::Block { addr_from, block: bytes } if addr_from == "b:2" && *bytes == block.serialize()
    ));
}

#[test]
fn a_peer_that_is_ahead_is_asked_for_its_blocks() {
    let mut server = Server::new(chain_of(3));
    assert_eq!(server.best_height(), 2);
    let pkg = Package::Version { addr_from: "10.0.0.1:9".to_string(), version: 1, best_height: 5 };
    let out = server.serve(&pkg, 0);
    assert_eq!(out.len(), 1);
    assert_eq!(out[0].to, "10.0.0.1:9");
    assert!(matches!(&out[0].package, Package::GetBlocks { addr_from } if addr_from == CENTRAL_NODE));
    assert!(server.nodes.node_is_known("10.0.0.1:9"));
}

#[test]
fn a_peer_that_is_behind_is_told_the_height() {
    let mut server = Server::new(chain_of(3));
    let out = server.handle_version("10.0.0.1:9", 1);
    assert_eq!(out.len(), 1);
    assert!(matches!(
        &out[0].package,
        Package::Version { best_height, version, .. } if *best_height == 2 && *version == 1
    ));
    assert!(server.handle_version("10.0.0.1:9", 2).is_empty());
}

#[test]
fn inventory_lists_the_hashes_from_the_tip() {
    let chain = chain_of(2);
    let hashes = chain.get_block_hashes();
    let mut server = Server::new(chain);
    let out = server.serve(&Package::GetBlocks { addr_from: "p:1".to_string() }, 0);
    assert_eq!(out.len(), 1);
    assert_eq!(out[0].to, "p:1");
    assert!(matches!(
        &out[0].package,
        Package::Inv { op_type: OpType::Block, items, .. } if *items == hashes
    ));
}

#[test]
fn a_request_for_an_unknown_item_gets_no_answer() {
    let chain = chain_of(1);
    let genesis = chain.block_at(0).duplicate();
    let mut server = Server::new(chain);
    let pkg = Package::GetData {
        addr_from: "p:1".to_string(),
        op_type: OpType::Block,
        id: vec![7; 32],
    };
    assert!(server.serve(&pkg, 0).is_empty());
    assert!(server.handle_get_data("p:1", OpType::Tx, &[7; 32]).is_empty());
    let out = server.handle_get_data("p:1", OpType::Block, genesis.get_hash());
    assert_eq!(out.len(), 1);
    assert!(matches!(
        &out[0].package,
        Package::Block { block, .. } if *block == genesis.serialize()
    ));
    let tx = Transaction::new_coinbase_tx(&address(4)).unwrap();
    assert!(server.admit_transaction(tx.clone()));
    assert!(!server.admit_transaction(tx.clone()));
    let out = server.handle_get_data("p:1", OpType::Tx, tx.get_id());
    assert!(matches!(
        &out[0].package,
        Package::Tx { transaction, .. } if *transaction == tx.serialize()
    ));
}

#[test]
fn advertised_blocks_are_fetched_one_at_a_time() {
    let ahead = chain_of(3);
    let chain = Blockchain::create(ahead.block_at(0).duplicate()).unwrap();
    let mut server = Server::with_config(chain, "n:2".to_string(), None);
    let first = ahead.block_at(1).duplicate();
    let second = ahead.block_at(2).duplicate();
    let items = vec![
        first.get_hash().to_vec(),
        ahead.block_at(0).get_hash().to_vec(),
        second.get_hash().to_vec(),
        first.get_hash().to_vec(),
    ];
    let pkg = Package::Inv { addr_from: "p:1".to_string(), op_type: OpType::Block, items };
    let out = server.serve(&pkg, 0);
    assert_eq!(out.len(), 1);
    assert!(matches!(
        &out[0].package,
        Package::GetData { addr_from, op_type: OpType::Block, id }
            if addr_from == "n:2" && id.as_slice() == first.get_hash()
    ));
    assert_eq!(server.blocks_in_transit.len(), 1);
    assert_eq!(server.blocks_in_transit.first(), Some(second.get_hash().to_vec()));

    let pkg = Package::Block { addr_from: "p:1".to_string(), block: first.serialize() };
    let out = server.serve(&pkg, 0);
    assert_eq!(out.len(), 1);
    assert!(matches!(
        &out[0].package,
        Package::GetData { id, .. } if id.as_slice() == second.get_hash()
    ));
    assert_eq!(server.blocks_in_transit.len(), 0);
    assert_eq!(server.best_height(), 1);

    let out = server.handle_block("p:1", &second.serialize());
    assert!(out.is_empty());
    assert_eq!(server.best_height(), 2);
    assert_eq!(server.utxo_set.count_transactions(), 3);

    assert!(server.handle_block("p:1", &[1, 2, 3]).is_empty());
    assert_eq!(server.best_height(), 2);
    assert!(server.handle_inv_blocks("p:1", &[first.get_hash().to_vec()]).is_empty());
}

#[test]
fn advertised_transactions_are_requested_unless_held() {
    let mut server = Server::new(chain_of(1));
    let held = Transaction::new_coinbase_tx(&address(4)).unwrap();
    assert!(server.admit_transaction(held.clone()));
    let items = vec![vec![1u8, 2], held.get_id().to_vec(), vec![3u8]];
    let pkg = Package::Inv { addr_from: "p:1".to_string(), op_type: OpType::Tx, items };
    let out = server.serve(&pkg, 0);
    assert_eq!(out.len(), 2);
    assert!(matches!(&out[0].package, Package::GetData { op_type: OpType::Tx, id, .. } if id == &[1u8, 2]));
    assert!(matches!(&out[1].package, Package::GetData { op_type: OpType::Tx, id, .. } if id == &[3u8]));
}

#[test]
fn a_full_pool_is_mined_into_one_block() {
    let mut server =
        Server::with_config(chain_of(1), CENTRAL_NODE.to_string(), Some(address(9)));
    server.nodes.add_node("p:1".to_string());
    server.nodes.add_node("p:2".to_string());
    let first = Transaction::new_coinbase_tx(&address(4)).unwrap();
    let second = Transaction::new_coinbase_tx(&address(5)).unwrap();

    let pkg = Package::Tx { addr_from: "p:1".to_string(), transaction: first.serialize() };
    let out = server.serve(&pkg, 500);
    assert_eq!(out.len(), 1);
    assert_eq!(out[0].to, "p:2");
    assert!(matches!(
        &out[0].package,
        Package::Inv { op_type: OpType::Tx, items, .. } if *items == vec![first.get_id().to_vec()]
    ));
    assert_eq!(server.memory_pool.len(), 1);
    assert_eq!(server.best_height(), 0);
    assert!(server.handle_tx("p:1", &first.serialize(), 500).is_empty());
    assert!(server.handle_tx("p:1", &[1, 2, 3], 500).is_empty());

    assert_eq!(TRANSACTION_THRESHOLD, 2);
    let out = server.handle_tx("p:1", &second.serialize(), 600);
    assert_eq!(server.memory_pool.len(), 0);
    assert_eq!(server.best_height(), 1);
    let tip = server.utxo_set.get_blockchain().block_at(1).duplicate();
    assert_eq!(tip.get_timestamp(), 600);
    assert_eq!(tip.get_transactions().len(), 3);
    assert_eq!(tip.get_transactions()[0].get_id(), first.get_id());
    assert_eq!(tip.get_transactions()[1].get_id(), second.get_id());
    assert!(tip.get_transactions()[2].is_coinbase());
    assert_eq!(out.len(), 3);
    assert_eq!(out[0].to, "p:2");
    assert_eq!(out[1].to, "p:1");
    assert_eq!(out[2].to, "p:2");
    assert!(matches!(
        &out[2].package,
        Package::Inv { op_type: OpType::Block, items, .. } if *items == vec![tip.get_hash().to_vec()]
    ));
    assert_eq!(server.utxo_set.count_transactions(), 4);
}

#[test]
fn a_node_that_does_not_mine_keeps_the_pool() {
    let mut server = Server::with_config(chain_of(1), "n:2".to_string(), None);
    for tag in 1..4u8 {
        let tx = Transaction::new_coinbase_tx(&address(tag)).unwrap();
        assert!(server.handle_tx("p:1", &tx.serialize(), 5).is_empty());
    }
    assert_eq!(server.memory_pool.len(), 3);
    assert_eq!(server.best_height(), 0);
    let reward = Transaction::new_coinbase_tx(&address(9)).unwrap();
    let block = server.mine_pending(reward, 77).unwrap();
    assert_eq!(block.get_transactions().len(), 4);
    assert_eq!(server.memory_pool.len(), 0);
    let out = server.announce("p:1", OpType::Block, &[block.get_hash().to_vec()]);
    assert_eq!(out.len(), 1);
    assert_eq!(out[0].to, CENTRAL_NODE);
}

#[test]
fn a_delivered_block_takes_its_transactions_out_of_the_pool() {
    let mut miner = Server::with_config(chain_of(1), "n:2".to_string(), None);
    let chain = miner.utxo_set.get_blockchain().duplicate();
    let mut server = Server::with_config(chain, "n:3".to_string(), None);
    let tx = Transaction::new_coinbase_tx(&address(4)).unwrap();
    let other = Transaction::new_coinbase_tx(&address(5)).unwrap();
    assert!(miner.admit_transaction(tx.clone()));
    assert!(server.admit_transaction(tx.clone()));
    assert!(server.admit_transaction(other.clone()));
    let reward = Transaction::new_coinbase_tx(&address(9)).unwrap();
    let block = miner.mine_pending(reward, 77).unwrap();
    assert!(server.handle_block("n:2", &block.serialize()).is_empty());
    assert_eq!(server.best_height(), 1);
    assert_eq!(server.memory_pool.len(), 1);
    assert_eq!(server.memory_pool.get_all()[0].get_id(), other.get_id());
    server.forget_confirmed(&block);
    assert_eq!(server.memory_pool.len(), 1);
}

#[test]
fn a_node_in_good_state_serves_what_arrives() {
    let chain = chain_of(2);
    let hashes = chain.get_block_hashes();
    let mut server = Server::new(chain);
    assert!(server.validate());
    let out = server
        .serve_checked(&Package::GetBlocks { addr_from: "p:1".to_string() }, 0)
        .unwrap();
    assert_eq!(out.len(), 1);
    assert!(matches!(&out[0].package, Package::Inv { items, .. } if *items == hashes));
    let pkg = Package::Version { addr_from: "p:1".to_string(), version: 1, best_height: 1 };
    assert!(server.serve_checked(&pkg, 0).unwrap().is_empty());
    assert!(server.nodes.node_is_known("p:1"));
}
