//! A minimal ledger node: transactions, blocks secured by proof of work, the
//! index of unspent outputs, the pool of pending transactions and the rules of
//! the peer protocol.

pub mod primitives;
pub mod codec;
pub mod transaction;
pub mod block;
pub mod proof_of_work;
pub mod blockchain;
pub mod utxo_set;
pub mod memory_pool;
pub mod decode;
pub mod node;
pub mod server;
pub mod utxo_laws;
