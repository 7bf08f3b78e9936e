use cdc_rs::binlog::events::BinlogEvent;
use cdc_rs::binlog::parser::{BinlogParser, MockBinlogParser};

#[test]
fn test_insert_event() {
    let mut parser = MockBinlogParser;
    let input = b"insert into table";
    let event = parser.parse(input).unwrap();

    match event {
        BinlogEvent::Insert { table, row } => {
            assert_eq!(table, "mock_table");
            assert_eq!(row[0], ("id".into(), "1".into()));
        }
        _ => panic!("Expected Insert"),
    }
}

#[test]
fn test_unknown_event() {
    let mut parser = MockBinlogParser;
    let input = b"ping";
    let event = parser.parse(input).unwrap();

    match event {
        BinlogEvent::Other(ref kind) => assert_eq!(kind, "ping"),
        _ => panic!("Expected Other event"),
    }
}

#[test]
fn update_line_gives_update_event() {
    let mut parser = MockBinlogParser;
    let event = parser.parse(b"update mock_table set id = 2").unwrap();
    assert_eq!(
        event,
        BinlogEvent::Update {
            table: "mock_table".into(),
            old_row: vec![("id".into(), "1".into())],
            new_row: vec![("id".into(), "2".into())],
        }
    );
}

#[test]
fn delete_line_gives_delete_event() {
    let mut parser = MockBinlogParser;
    let event = parser.parse(b"delete from t").unwrap();
    assert_eq!(
        event,
        BinlogEvent::Delete { table: "mock_table".into(), row: vec![("id".into(), "1".into())] }
    );
}

#[test]
fn insert_row_is_exactly_one_column() {
    let mut parser = MockBinlogParser;
    let event = parser.parse(b"insert").unwrap();
    assert_eq!(
        event,
        BinlogEvent::Insert { table: "mock_table".into(), row: vec![("id".into(), "1".into())] }
    );
}

#[test]
fn surrounding_whitespace_is_trimmed() {
    let mut parser = MockBinlogParser;
    let event = parser.parse(b" \t insert into x\r\n").unwrap();
    assert!(matches!(event, BinlogEvent::Insert { .. }));
    let event = parser.parse(b"\n  ping pong \t").unwrap();
    assert_eq!(event, BinlogEvent::Other("ping pong".into()));
    // U+3000 IDEOGRAPHIC SPACE and U+00A0 NO-BREAK SPACE are whitespace too.
    let event = parser.parse("\u{3000}\u{a0}delete\u{a0}".as_bytes()).unwrap();
    assert!(matches!(event, BinlogEvent::Delete { .. }));
}

#[test]
fn keyword_must_be_a_prefix_and_lower_case() {
    let mut parser = MockBinlogParser;
    assert_eq!(parser.parse(b"INSERT x").unwrap(), BinlogEvent::Other("INSERT x".into()));
    assert_eq!(parser.parse(b"x insert").unwrap(), BinlogEvent::Other("x insert".into()));
    assert_eq!(parser.parse(b"inser").unwrap(), BinlogEvent::Other("inser".into()));
}

#[test]
fn empty_and_blank_lines_are_other() {
    let mut parser = MockBinlogParser;
    assert_eq!(parser.parse(b"").unwrap(), BinlogEvent::Other(String::new()));
    assert_eq!(parser.parse(b"  \t\n").unwrap(), BinlogEvent::Other(String::new()));
}

#[test]
fn non_ascii_text_is_kept() {
    let mut parser = MockBinlogParser;
    let event = parser.parse(" héllo wörld ".as_bytes()).unwrap();
    assert_eq!(event, BinlogEvent::Other("héllo wörld".into()));
}

#[test]
fn invalid_utf8_gives_no_event() {
    let mut parser = MockBinlogParser;
    assert_eq!(parser.parse(&[0xff, 0xfe, b'i']), None);
    assert_eq!(parser.parse(b"insert \xc3"), None);
    // an overlong encoding of '/' is not UTF-8
    assert_eq!(parser.parse(&[0xc0, 0xaf]), None);
}
