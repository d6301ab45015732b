use vstd::prelude::*;

pub mod block;
pub mod blockchain;
pub mod codec;
pub mod crypto;
pub mod errors;
pub mod kv;
pub mod node;
pub mod transaction;
pub mod utils;
pub mod utxoset;
pub mod wallet;

pub use block::Block;
pub use blockchain::Blockchain;
pub use errors::Error;
pub use node::{Config, InvKind, Mempool, Message, NodeState};
pub use transaction::{TXInput, TXOutput, TXOutputs, Transaction};
pub use utils::{get_pub_key_hash, hash_pub_key};
pub use utxoset::UTXOSet;
pub use wallet::{Wallet, Wallets};

verus! {

} // verus!
