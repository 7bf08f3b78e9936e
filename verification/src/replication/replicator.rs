use crate::binlog::events::{BinlogEvent, EventView};
use crate::binlog::parser::{BinlogParser, MockBinlogParser, mock_parse, mock_row, mock_table};
use crate::downstream::sink::{EventSink, SinkResult, deliver, handed};
use vstd::prelude::*;
use vstd::utf8::*;

verus! {

broadcast use vstd::utf8::encode_utf8_valid_utf8, vstd::utf8::encode_utf8_decode_utf8;

/// Top-level interface to run replication from MySQL binlogs.
pub struct Replicator;

/// The simulated binlog stream that the replicator replays, line by line.
pub open spec fn mock_binlog_lines() -> Seq<Seq<char>> {
    seq![
        "insert into mock_table"@,
        "update mock_table set id = 2"@,
        "delete from mock_table"@,
        "ping"@,
    ]
}

/// The events that replaying the simulated stream yields, in order.
pub open spec fn replayed_events() -> Seq<EventView> {
    seq![
        EventView::Insert { table: mock_table(), row: mock_row("1"@) },
        EventView::Update { table: mock_table(), old_row: mock_row("1"@), new_row: mock_row("2"@) },
        EventView::Delete { table: mock_table(), row: mock_row("1"@) },
        EventView::Other("ping"@),
    ]
}

impl Replicator {
    /// The simulated binlog byte stream, one entry per line.
    pub fn mock_binlog() -> (lines: Vec<&'static [u8]>)
        ensures
            lines@.len() == mock_binlog_lines().len(),
            forall|i: int|
                0 <= i < lines@.len() ==> #[trigger] lines@[i]@ == encode_utf8(
                    mock_binlog_lines()[i],
                ),
    {
        let lines: Vec<&'static [u8]> = vec![
            "insert into mock_table".as_bytes(),
            "update mock_table set id = 2".as_bytes(),
            "delete from mock_table".as_bytes(),
            "ping".as_bytes(),
        ];
        lines
    }

    /// Parses the simulated stream with the mock parser, keeping every line
    /// that gives an event.
    pub fn replay_events() -> (events: Vec<BinlogEvent>)
        ensures
            events@.len() == replayed_events().len(),
            forall|i: int| 0 <= i < events@.len() ==> #[trigger] events@[i]@ == replayed_events()[i],
    {
        let lines = Self::mock_binlog();
        let mut parser = MockBinlogParser;
        let mut events: Vec<BinlogEvent> = Vec::new();
        let mut i: usize = 0;
        while i < lines.len()
            invariant
                i <= lines@.len(),
                lines@.len() == 4,
                forall|j: int|
                    0 <= j < lines@.len() ==> #[trigger] lines@[j]@ == encode_utf8(
                        mock_binlog_lines()[j],
                    ),
                events@.len() == i,
                forall|j: int| 0 <= j < i ==> #[trigger] events@[j]@ == replayed_events()[j],
            decreases lines@.len() - i,
        {
            let parsed = parser.parse(lines[i]);
            proof {
                lemma_mock_line_parses(i as int);
            }
            match parsed {
                Some(event) => {
                    events.push(event);
                },
                None => {},
            }
            i = i + 1;
        }
        events
    }

    /// Synchronous replication runner: hands the events of
    /// [`Replicator::replay_events`] to `sink` in order, and stops with the
    /// first error the sink reports.
    ///
    /// `calls` are the borrows of `sink` that the successive calls of
    /// `handle_event` received: the first starts from the sink as it was
    /// handed in, each call leaves the sink as the next one finds it, and the
    /// last leaves it as it is returned.
    pub fn run<S: EventSink>(sink: &mut S) -> (r: Result<(), anyhow::Error>)
        ensures
            exists|calls: Seq<&mut S>, results: Seq<SinkResult>|
                #![trigger replay_trace(calls, results, r)]
                {
                    &&& replay_trace(calls, results, r)
                    &&& *calls[0] == *old(sink)
                    &&& forall|i: int|
                        0 <= i < calls.len() - 1 ==> *final(#[trigger] calls[i]) == *calls[i + 1]
                    &&& *final(calls[calls.len() - 1]) == *final(sink)
                },
    {
        let mut events = Self::replay_events();
        let ghost mut results: Seq<SinkResult> = Seq::empty();
        while events.len() > 0
            invariant
                events@.len() + results.len() == replayed_events().len(),
                forall|j: int|
                    0 <= j < events@.len() ==> #[trigger] events@[j]@ == replayed_events()[results.len()
                        + j],
                forall|i: int| 0 <= i < results.len() ==> #[trigger] results[i] is Ok,
                results.len() == 0 ==> *sink == *old(sink),
                results.len() > 0 ==> exists|calls: Seq<&mut S>|
                    #![trigger handed_in_order(calls, results)]
                    {
                        &&& handed_in_order(calls, results)
                        &&& *calls[0] == *old(sink)
                        &&& forall|i: int|
                            0 <= i < calls.len() - 1 ==> *final(#[trigger] calls[i])
                                == *calls[i + 1]
                        &&& *final(calls[calls.len() - 1]) == *sink
                    },
            decreases events@.len(),
        {
            let event = events.remove(0);
            let ghost handed_event = event@;
            let ghost before = *sink;
            let ghost old_results = results;
            let res = deliver(sink, event);
            proof {
                let m = choose|m: &mut S|
                    handed(m, handed_event, res) && *m == before && *final(m) == *sink;
                assert(handed_event == replayed_events()[results.len() as int]);
                results = results.push(res);
                if old_results.len() == 0 {
                    let calls = seq![m];
                    assert(handed_in_order(calls, results));
                } else {
                    let calls0 = choose|calls: Seq<&mut S>|
                        {
                            &&& handed_in_order(calls, old_results)
                            &&& *calls[0] == *old(sink)
                            &&& forall|i: int|
                                0 <= i < calls.len() - 1 ==> *final(#[trigger] calls[i])
                                    == *calls[i + 1]
                            &&& *final(calls[calls.len() - 1]) == before
                        };
                    let calls = calls0.push(m);
                    assert(handed_in_order(calls, results)) by {
                        assert forall|i: int| 0 <= i < calls.len() implies #[trigger] handed(
                            calls[i],
                            replayed_events()[i],
                            results[i],
                        ) by {
                            if i < calls0.len() {
                                assert(calls[i] == calls0[i]);
                                assert(results[i] == old_results[i]);
                            }
                        }
                    }
                    assert(forall|i: int|
                        0 <= i < calls.len() - 1 ==> *final(#[trigger] calls[i]) == *calls[i + 1])
                        by {
                        assert forall|i: int|
                            0 <= i < calls.len() - 1 implies *final(#[trigger] calls[i])
                                == *calls[i + 1] by {
                            if i < calls0.len() - 1 {
                                assert(calls[i] == calls0[i]);
                                assert(calls[i + 1] == calls0[i + 1]);
                            } else {
                                assert(calls[i] == calls0[calls0.len() - 1]);
                            }
                        }
                    }
                }
            }
            if res.is_err() {
                proof {
                    let calls = choose|calls: Seq<&mut S>|
                        {
                            &&& handed_in_order(calls, results)
                            &&& *calls[0] == *old(sink)
                            &&& forall|i: int|
                                0 <= i < calls.len() - 1 ==> *final(#[trigger] calls[i])
                                    == *calls[i + 1]
                            &&& *final(calls[calls.len() - 1]) == *sink
                        };
                    assert(replay_trace(calls, results, res));
                }
                return res;
            }
        }
        proof {
            let calls = choose|calls: Seq<&mut S>|
                {
                    &&& handed_in_order(calls, results)
                    &&& *calls[0] == *old(sink)
                    &&& forall|i: int|
                        0 <= i < calls.len() - 1 ==> *final(#[trigger] calls[i]) == *calls[i + 1]
                    &&& *final(calls[calls.len() - 1]) == *sink
                };
            let last = results[results.len() - 1];
            assert(last is Ok);
            let unit: () = last->Ok_0;
            assert(unit == ());
            assert(last == Ok::<(), anyhow::Error>(unit));
            assert(replay_trace(calls, results, Ok(())));
        }
        Ok(())
    }
}

/// The calls `calls` were handed the replayed events in order, one each, and
/// answered `results`.
pub open spec fn handed_in_order<S: EventSink>(
    calls: Seq<&mut S>,
    results: Seq<SinkResult>,
) -> bool {
    &&& calls.len() == results.len()
    &&& results.len() <= replayed_events().len()
    &&& forall|i: int|
        0 <= i < results.len() ==> #[trigger] handed(calls[i], replayed_events()[i], results[i])
}

/// The calls `calls` were handed the replayed events in order and answered
/// `results`: every answer but the last was `Ok`, delivery went on to the last
/// event unless the last answer was an error, and `r` is the last answer.
pub open spec fn replay_trace<S: EventSink>(
    calls: Seq<&mut S>,
    results: Seq<SinkResult>,
    r: SinkResult,
) -> bool {
    let k = results.len() as int;
    &&& 1 <= k
    &&& handed_in_order(calls, results)
    &&& forall|i: int| 0 <= i < k - 1 ==> #[trigger] results[i] is Ok
    &&& (k < replayed_events().len() ==> results[k - 1] is Err)
    &&& r == results[k - 1]
}

/// Each line of the simulated stream parses to the matching replayed event.
proof fn lemma_mock_line_parses(i: int)
    requires
        0 <= i < 4,
    ensures
        mock_parse(encode_utf8(mock_binlog_lines()[i])) == Some(replayed_events()[i]),
{
    reveal_strlit("insert into mock_table");
    reveal_strlit("update mock_table set id = 2");
    reveal_strlit("delete from mock_table");
    reveal_strlit("ping");
    reveal_strlit("insert");
    reveal_strlit("update");
    reveal_strlit("delete");
    let line = mock_binlog_lines()[i];
    assert(crate::binlog::text::trim(line) == line) by {
        reveal_with_fuel(crate::binlog::text::trim_start, 2);
        reveal_with_fuel(crate::binlog::text::trim_end, 2);
    }
    if i == 0 {
        assert(line.subrange(0, 6) =~= "insert"@);
    } else if i == 1 {
        assert(line.subrange(0, 6) =~= "update"@);
        assert(line.subrange(0, 6) != "insert"@) by {
            assert(line.subrange(0, 6)[0] != "insert"@[0]);
        }
    } else if i == 2 {
        assert(line.subrange(0, 6) =~= "delete"@);
        assert(line.subrange(0, 6)[0] != "insert"@[0]);
        assert(line.subrange(0, 6)[0] != "update"@[0]);
    } else {
        assert(line.len() < 6);
    }
}

} // verus!
