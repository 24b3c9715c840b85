//! What the gateway answers to its clients.

pub mod responses;
