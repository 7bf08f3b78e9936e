use crate::binlog::events::{BinlogEvent, EventView};
use vstd::prelude::*;

verus! {

/// Declares `anyhow::Error` to Verus so that sink results can carry it; its
/// contents stay opaque to proofs.
#[verifier::external_type_specification]
#[verifier::external_body]
pub struct ExAnyhowError(anyhow::Error);

/// Result type for sinks.
pub type SinkResult = Result<(), anyhow::Error>;

/// Trait representing a consumer of CDC events.
pub trait EventSink {
    /// Handle a single binlog event.
    fn handle_event(&mut self, event: BinlogEvent) -> SinkResult;
}

/// A call of `handle_event` through the borrow `m` was handed an event whose
/// model is `event` and returned `r`.
///
/// The trait states nothing of `handle_event`, so this holds only of calls
/// that were made: it records what a sink was handed and what it answered.
pub open spec fn handed<S: EventSink>(m: &mut S, event: EventView, r: SinkResult) -> bool {
    exists|e: BinlogEvent|
        #![trigger call_ensures(S::handle_event, (m, e), r)]
        e@ == event && call_ensures(S::handle_event, (m, e), r)
}

/// Hands `event` to `sink` and returns the sink's answer.
pub fn deliver<S: EventSink>(sink: &mut S, event: BinlogEvent) -> (r: SinkResult)
    ensures
        exists|m: &mut S|
            #![trigger handed(m, event@, r)]
            handed(m, event@, r) && *m == *old(sink) && *final(m) == *final(sink),
{
    // Called through the method's value, so that the call's outcome is
    // recorded by `call_ensures`.
    let handle = S::handle_event;
    let ghost e = event;
    let r = handle(sink, event);
    proof {
        let m = choose|m: &mut S|
            call_ensures(S::handle_event, (m, e), r) && *m == *old(sink) && *final(m)
                == *final(sink);
        assert(handed(m, event@, r));
    }
    r
}

} // verus!
