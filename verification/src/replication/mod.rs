pub mod connector;
pub mod protocol;
pub mod replicator;
