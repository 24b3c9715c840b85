//! The exchange of updates among authorities.

pub mod configurable_batch_action_client;
