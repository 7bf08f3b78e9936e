use cdc_rs::{BinlogEvent, EventSink, Replicator, SinkResult};

struct TestSink {
    pub events: Vec<BinlogEvent>,
}

impl TestSink {
    fn new() -> Self {
        Self { events: Vec::new() }
    }
}

impl EventSink for TestSink {
    fn handle_event(&mut self, event: BinlogEvent) -> SinkResult {
        self.events.push(event);
        Ok(())
    }
}

/// A sink that accepts a fixed number of events and then fails.
struct FailingSink {
    accept: usize,
    seen: Vec<BinlogEvent>,
}

impl EventSink for FailingSink {
    fn handle_event(&mut self, event: BinlogEvent) -> SinkResult {
        self.seen.push(event);
        if self.seen.len() > self.accept {
            Err(anyhow::Error::msg("sink is full"))
        } else {
            Ok(())
        }
    }
}

#[test]
fn test_replicator_run_with_test_sink() {
    let mut sink = TestSink::new();
    let result = Replicator::run(&mut sink);

    assert!(result.is_ok());
    assert_eq!(sink.events.len(), 4);
    assert!(matches!(sink.events[0], BinlogEvent::Insert { .. }));
    assert!(matches!(sink.events[1], BinlogEvent::Update { .. }));
    assert!(matches!(sink.events[2], BinlogEvent::Delete { .. }));
    assert!(matches!(sink.events[3], BinlogEvent::Other(_)));
}

#[test]
fn run_delivers_exactly_the_replayed_events() {
    let mut sink = TestSink::new();
    Replicator::run(&mut sink).unwrap();
    assert_eq!(sink.events, Replicator::replay_events());
    assert_eq!(sink.events[3], BinlogEvent::Other("ping".into()));
}

#[test]
fn run_stops_at_the_first_sink_error() {
    let mut sink = FailingSink { accept: 1, seen: Vec::new() };
    let result = Replicator::run(&mut sink);
    let err = result.unwrap_err();
    assert_eq!(err.to_string(), "sink is full");
    assert_eq!(sink.seen.len(), 2);
    assert!(matches!(sink.seen[1], BinlogEvent::Update { .. }));
}

#[test]
fn replay_events_are_insert_update_delete_ping() {
    let events = Replicator::replay_events();
    let row = |v: &str| vec![("id".to_string(), v.to_string())];
    assert_eq!(
        events,
        vec![
            BinlogEvent::Insert { table: "mock_table".into(), row: row("1") },
            BinlogEvent::Update { table: "mock_table".into(), old_row: row("1"), new_row: row("2") },
            BinlogEvent::Delete { table: "mock_table".into(), row: row("1") },
            BinlogEvent::Other("ping".into()),
        ]
    );
}

#[test]
fn mock_binlog_lines() {
    let lines = Replicator::mock_binlog();
    assert_eq!(
        lines,
        vec![
            &b"insert into mock_table"[..],
            &b"update mock_table set id = 2"[..],
            &b"delete from mock_table"[..],
            &b"ping"[..],
        ]
    );
}
