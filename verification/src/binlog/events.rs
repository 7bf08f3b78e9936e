use vstd::prelude::*;

verus! {

/// A row as a list of `(column, value)` pairs.
pub type Row = Vec<(String, String)>;

/// The abstract value of a row: each column name and value as characters.
pub type RowView = Seq<(Seq<char>, Seq<char>)>;

/// Enum representing a high-level binlog event.
#[derive(Debug, Clone, PartialEq, Eq)]
pub enum BinlogEvent {
    Insert { table: String, row: Vec<(String, String)> },
    Update { table: String, old_row: Vec<(String, String)>, new_row: Vec<(String, String)> },
    Delete { table: String, row: Vec<(String, String)> },
    Other(String),
}

/// The mathematical model of a [`BinlogEvent`]: every string as its characters.
pub enum EventView {
    Insert { table: Seq<char>, row: RowView },
    Update { table: Seq<char>, old_row: RowView, new_row: RowView },
    Delete { table: Seq<char>, row: RowView },
    Other(Seq<char>),
}

pub open spec fn row_view(row: Seq<(String, String)>) -> RowView {
    row.map_values(|p: (String, String)| (p.0@, p.1@))
}

impl View for BinlogEvent {
    type V = EventView;

    open spec fn view(&self) -> EventView {
        match self {
            BinlogEvent::Insert { table, row } => EventView::Insert {
                table: table@,
                row: row_view(row@),
            },
            BinlogEvent::Update { table, old_row, new_row } => EventView::Update {
                table: table@,
                old_row: row_view(old_row@),
                new_row: row_view(new_row@),
            },
            BinlogEvent::Delete { table, row } => EventView::Delete {
                table: table@,
                row: row_view(row@),
            },
            BinlogEvent::Other(kind) => EventView::Other(kind@),
        }
    }
}

/// The model of an optional event.
pub open spec fn opt_event_view(e: Option<BinlogEvent>) -> Option<EventView> {
    match e {
        Some(ev) => Some(ev@),
        None => None,
    }
}

} // verus!
