# cdc_rs

Building blocks for change data capture from MySQL binlogs, verified with Verus.

- `src/binlog/`: binlog events, the mock line parser and its text handling
  (UTF-8 decoding, Unicode whitespace trimming).
- `src/replication/protocol.rs`: `mysql_native_password` scrambling and the
  Handshake Response 41 login packet.
- `src/replication/connector.rs`: replication settings, the server handshake
  parser, the login reply check and packet header decoding.
- `src/replication/replicator.rs`: replay of the simulated binlog stream into a sink.
- `src/downstream/sink.rs`: the event sink trait.
- `app/`: the TCP connector and the asynchronous entry point, built on the library.
