use vstd::prelude::*;

verus! {

/// How many journal lines the dashboard keeps.
pub const LOG_CAPACITY: usize = 200;

/// A line of the node's journal: its category (SYSTEM, NETWORK, ROUTING,
/// PROXY, DTN, ...) and its text.
#[derive(Debug, Clone)]
pub struct LogEvent {
    pub level: String,
    pub message: String,
}

/// The tabs of the dashboard.
#[derive(Debug, Clone, Copy, PartialEq, Eq, Structural)]
pub enum Tab {
    Dashboard,
    Logs,
    Settings,
}

/// The journal after `event` is appended: the oldest line goes once more
/// than `LOG_CAPACITY` lines are kept.
pub open spec fn spec_push_log(logs: Seq<LogEvent>, event: LogEvent) -> Seq<LogEvent> {
    if logs.len() + 1 > LOG_CAPACITY {
        logs.push(event).drop_first()
    } else {
        logs.push(event)
    }
}

/// Appends a line to the journal, dropping the oldest one beyond
/// `LOG_CAPACITY` lines.
pub fn push_log(logs: &mut Vec<LogEvent>, event: LogEvent)
    ensures
        final(logs)@ == spec_push_log(old(logs)@, event),
{
    logs.push(event);
    if logs.len() > LOG_CAPACITY {
        logs.remove(0);
        assert(logs@ =~= old(logs)@.push(event).drop_first());
    }
}

} // verus!
