//! A validator ("authority") of a Byzantine-fault-tolerant object ledger.
//!
//! The crate holds the authority's state machine: transaction intake and
//! object locking, certificate confirmation with an atomic commit, the
//! sequencing of shared objects from the consensus output, and the notifier
//! and batch log that publish executed transactions in a gap-free order.
//! Every function is verified against a contract over mathematical models of
//! the stored tables.

pub mod authority;
pub mod authority_active;
pub mod authority_batch;
pub mod authority_notifier;
pub mod authority_server;
pub mod authority_store;
pub mod base_types;
pub mod batch;
pub mod committee;
pub mod consensus_adapter;
pub mod error;
pub mod messages;
pub mod object;
pub mod rpc_gateway;
pub mod sui_commands;
pub mod table;
pub mod test_utils;
pub mod transaction_input_checker;
pub mod wallet_commands;
