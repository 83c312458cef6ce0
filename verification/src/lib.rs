use vstd::prelude::*;

pub mod accept;
pub mod block_laws;
pub mod bytes;
pub mod chain_laws;
pub mod checkpoint;
pub mod codec;
pub mod commit;
pub mod crypto;
pub mod duty_laws;
pub mod engine;
pub mod epoch;
pub mod epoch_laws;
pub mod finality;
pub mod fork_choice;
pub mod format_laws;
pub mod header_laws;
pub mod intents;
pub mod journal;
pub mod laws;
pub mod ledger;
pub mod lists;
pub mod memory_store;
pub mod produce;
pub mod proposer;
pub mod recovery;
pub mod reward_laws;
pub mod rewards;
pub mod slashing;
pub mod store;
pub mod sync;
pub mod table;
pub mod types;
pub mod validator;
pub mod vote_laws;

verus! {
} // verus!
