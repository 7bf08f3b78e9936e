use crate::binlog::events::{BinlogEvent, EventView, RowView, opt_event_view};
use crate::binlog::text::{
    all_whitespace, chars_start_with, lemma_trim_idempotent, lemma_trim_surrounding_whitespace,
    starts_with, string_from_chars, trim, trim_chars, utf8_chars, is_unicode_whitespace, trim_start,
    trim_end, lemma_trim_keeps_prefix,
};
use vstd::prelude::*;
use vstd::utf8::*;

verus! {

/// Trait for parsing raw binlog bytes into structured events.
pub trait BinlogParser {
    /// Attempts to parse a binlog event from the given byte slice.
    fn parse(&mut self, input: &[u8]) -> Option<BinlogEvent>;
}

/// A simple stub parser that interprets lines of text as mock events.
/// Used for early testing and development.
pub struct MockBinlogParser;

/// The table that every mock event names.
pub open spec fn mock_table() -> Seq<char> {
    "mock_table"@
}

/// The one-column row `id = value` of the mock events.
pub open spec fn mock_row(value: Seq<char>) -> RowView {
    seq![("id"@, value)]
}

/// What the mock parser makes of one line of input.
///
/// Bytes that are not UTF-8 give no event. Otherwise the text is trimmed of
/// surrounding whitespace; a line starting with `insert`, `update` or
/// `delete` gives the fixed mock event of that kind on `mock_table`, and any
/// other line is reported as `Other` with the trimmed text.
pub open spec fn mock_parse(input: Seq<u8>) -> Option<EventView> {
    if !valid_utf8(input) {
        None
    } else {
        let line = trim(decode_utf8(input));
        if starts_with(line, "insert"@) {
            Some(EventView::Insert { table: mock_table(), row: mock_row("1"@) })
        } else if starts_with(line, "update"@) {
            Some(
                EventView::Update {
                    table: mock_table(),
                    old_row: mock_row("1"@),
                    new_row: mock_row("2"@),
                },
            )
        } else if starts_with(line, "delete"@) {
            Some(EventView::Delete { table: mock_table(), row: mock_row("1"@) })
        } else {
            Some(EventView::Other(line))
        }
    }
}

fn mock_row_exec(value: &str) -> (row: Vec<(String, String)>)
    ensures
        crate::binlog::events::row_view(row@) == mock_row(value@),
{
    let row = vec![("id".to_owned(), value.to_owned())];
    assert(crate::binlog::events::row_view(row@) =~= mock_row(value@));
    row
}

impl BinlogParser for MockBinlogParser {
    fn parse(&mut self, input: &[u8]) -> (r: Option<BinlogEvent>)
        ensures
            opt_event_view(r) == mock_parse(input@),
            r is Some <==> valid_utf8(input@),
    {
        let decoded = match utf8_chars(input) {
            Some(cs) => cs,
            None => {
                return None;
            },
        };
        let line = trim_chars(decoded.as_slice());
        let insert_kw: [char; 6] = ['i', 'n', 's', 'e', 'r', 't'];
        let update_kw: [char; 6] = ['u', 'p', 'd', 'a', 't', 'e'];
        let delete_kw: [char; 6] = ['d', 'e', 'l', 'e', 't', 'e'];
        proof {
            reveal_strlit("insert");
            reveal_strlit("update");
            reveal_strlit("delete");
            assert(insert_kw@ =~= "insert"@);
            assert(update_kw@ =~= "update"@);
            assert(delete_kw@ =~= "delete"@);
        }
        if chars_start_with(line.as_slice(), &insert_kw) {
            Some(BinlogEvent::Insert { table: "mock_table".to_owned(), row: mock_row_exec("1") })
        } else if chars_start_with(line.as_slice(), &update_kw) {
            Some(
                BinlogEvent::Update {
                    table: "mock_table".to_owned(),
                    old_row: mock_row_exec("1"),
                    new_row: mock_row_exec("2"),
                },
            )
        } else if chars_start_with(line.as_slice(), &delete_kw) {
            Some(BinlogEvent::Delete { table: "mock_table".to_owned(), row: mock_row_exec("1") })
        } else {
            Some(BinlogEvent::Other(string_from_chars(line.as_slice())))
        }
    }
}

/// The text of an `Other` event has no whitespace left at either end.
pub proof fn lemma_other_text_is_trimmed(input: Seq<u8>)
    ensures
        mock_parse(input) matches Some(EventView::Other(text)) ==> trim(text) == text,
{
    if valid_utf8(input) {
        lemma_trim_idempotent(decode_utf8(input));
    }
}

/// Whitespace around a line of text does not change the event it gives.
pub proof fn lemma_parse_ignores_surrounding_whitespace(
    before: Seq<char>,
    line: Seq<char>,
    after: Seq<char>,
)
    requires
        all_whitespace(before),
        all_whitespace(after),
    ensures
        mock_parse(encode_utf8(before + line + after)) == mock_parse(encode_utf8(line)),
{
    encode_utf8_valid_utf8(before + line + after);
    encode_utf8_valid_utf8(line);
    encode_utf8_decode_utf8(before + line + after);
    encode_utf8_decode_utf8(line);
    lemma_trim_surrounding_whitespace(before, line, after);
}

/// A line that has no whitespace at either end and starts with none of the
/// keywords `insert`, `update`, `delete` is reported whole, character for
/// character, as an `Other` event, however long it is.
pub proof fn lemma_other_keeps_whole_line(line: Seq<char>)
    requires
        line.len() == 0 || (!is_unicode_whitespace(line[0]) && !is_unicode_whitespace(
            line.last(),
        )),
        !(line.len() >= 6 && line.subrange(0, 6) == "insert"@),
        !(line.len() >= 6 && line.subrange(0, 6) == "update"@),
        !(line.len() >= 6 && line.subrange(0, 6) == "delete"@),
    ensures
        mock_parse(encode_utf8(line)) == Some(EventView::Other(line)),
        mock_parse(encode_utf8(line)) matches Some(EventView::Other(text)) ==> text.len()
            == line.len(),
{
    reveal_strlit("insert");
    reveal_strlit("update");
    reveal_strlit("delete");
    encode_utf8_valid_utf8(line);
    encode_utf8_decode_utf8(line);
    assert(trim_start(line) == line);
    assert(trim_end(line) == line);
}

/// The keyword a line starts with decides its event, whatever follows it: a
/// line starting with `insert`, `update` or `delete` gives the fixed mock event
/// of that kind on `mock_table`, with row `id = 1` (and `id = 2` after an
/// update).
pub proof fn lemma_keyword_decides(rest: Seq<char>)
    ensures
        mock_parse(encode_utf8("insert"@ + rest)) == Some(
            EventView::Insert { table: "mock_table"@, row: seq![("id"@, "1"@)] },
        ),
        mock_parse(encode_utf8("update"@ + rest)) == Some(
            EventView::Update {
                table: "mock_table"@,
                old_row: seq![("id"@, "1"@)],
                new_row: seq![("id"@, "2"@)],
            },
        ),
        mock_parse(encode_utf8("delete"@ + rest)) == Some(
            EventView::Delete { table: "mock_table"@, row: seq![("id"@, "1"@)] },
        ),
{
    reveal_strlit("insert");
    reveal_strlit("update");
    reveal_strlit("delete");
    lemma_keyword_line("insert"@, rest);
    lemma_keyword_line("update"@, rest);
    lemma_keyword_line("delete"@, rest);
    let i = "insert"@ + rest;
    let u = "update"@ + rest;
    let d = "delete"@ + rest;
    assert(trim(u).subrange(0, 6) != "insert"@) by {
        assert(trim(u).subrange(0, 6)[0] != "insert"@[0]);
    }
    assert(trim(d).subrange(0, 6) != "insert"@) by {
        assert(trim(d).subrange(0, 6)[0] != "insert"@[0]);
    }
    assert(trim(d).subrange(0, 6) != "update"@) by {
        assert(trim(d).subrange(0, 6)[0] != "update"@[0]);
    }
}

/// A line made of a six-letter keyword and anything after it is valid UTF-8
/// whose trimmed text starts with the keyword.
proof fn lemma_keyword_line(keyword: Seq<char>, rest: Seq<char>)
    requires
        keyword.len() == 6,
        forall|i: int| 0 <= i < 6 ==> !#[trigger] is_unicode_whitespace(keyword[i]),
    ensures
        valid_utf8(encode_utf8(keyword + rest)),
        decode_utf8(encode_utf8(keyword + rest)) == keyword + rest,
        starts_with(trim(keyword + rest), keyword),
{
    let s = keyword + rest;
    encode_utf8_valid_utf8(s);
    encode_utf8_decode_utf8(s);
    assert forall|i: int| 0 <= i < 6 implies !#[trigger] is_unicode_whitespace(s[i]) by {
        assert(s[i] == keyword[i]);
    }
    lemma_trim_keeps_prefix(s, 6);
    assert(s.subrange(0, 6) =~= keyword);
}

} // verus!
