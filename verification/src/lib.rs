//! Change-data-capture building blocks for MySQL replication: binlog event
//! parsing, the replication handshake and login protocol, and event sinks.
pub mod binlog;
pub mod downstream;
pub mod replication;

pub use binlog::events::BinlogEvent;
pub use binlog::parser::{BinlogParser, MockBinlogParser};
pub use downstream::sink::{EventSink, SinkResult};
pub use replication::replicator::Replicator;
