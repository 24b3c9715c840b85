//! What an authority does on its own account, next to answering requests.

pub mod gossip;
