use vstd::prelude::*;

use crate::event::{Event, InternalEvent};

verus! {

/// How long a cursor-position query waits for the reply, in milliseconds.
pub const QUERY_TIMEOUT_MS: u64 = 2000;

/// An operating-system error, by its code.
#[derive(Clone, Copy, Debug, PartialEq, Eq, Structural)]
pub struct IoError {
    pub code: i32,
}

/// Why a cursor-position query failed.
#[derive(Clone, Copy, Debug, PartialEq, Eq, Structural)]
pub enum QueryError {
    /// No reply came within the time allowed.
    Timeout,
    /// Setting the mode, writing or reading failed.
    Io(IoError),
}

/// Where a query stands.
#[derive(Clone, Copy, Debug, PartialEq, Eq, Structural)]
pub enum Phase {
    Enabling,
    Writing,
    Polling,
    Restoring,
    Done,
}

/// What the caller is to do next for the query.
#[derive(Clone, Copy, Debug)]
pub enum QueryAction {
    /// Switch raw mode on, and report with `on_raw_mode_enabled`.
    EnableRawMode,
    /// Write `ESC [ 6 n` to the terminal, and report with `on_query_written`.
    WriteQuery,
    /// Read cursor-position replies for at most so many milliseconds, and
    /// report with `on_polled`; other events stay with the event source.
    Poll(u64),
    /// Switch raw mode off again, and report with `on_raw_mode_disabled`.
    DisableRawMode,
    /// The query is over, with this result: (column, row), zero-based.
    Finish(Result<(u16, u16), QueryError>),
}

/// The state of a query.
#[derive(Clone, Copy, Debug)]
pub struct QueryState {
    pub phase: Phase,
    /// Whether this query switched raw mode on, and so must switch it off.
    pub enabled_here: bool,
    /// When the wait for the reply ends, in milliseconds of a monotonic clock.
    pub deadline_ms: u64,
    /// The last read error seen while waiting.
    pub last_error: Option<IoError>,
    /// The result, once known.
    pub outcome: Result<(u16, u16), QueryError>,
}

/// The bytes of the query `ESC [ 6 n`.
pub open spec fn query_sequence() -> Seq<u8> {
    seq![0x1b, 0x5b, 0x36, 0x6e]
}

/// The deadline for a query written at `now`.
pub open spec fn deadline_after(now: u64) -> u64 {
    if now <= u64::MAX - QUERY_TIMEOUT_MS {
        (now + QUERY_TIMEOUT_MS) as u64
    } else {
        u64::MAX
    }
}

/// The state a query starts in: with raw mode to enable, or already on.
pub open spec fn start_model(raw_mode_enabled: bool) -> (QueryState, QueryAction) {
    let s = QueryState {
        phase: if raw_mode_enabled {
            Phase::Writing
        } else {
            Phase::Enabling
        },
        enabled_here: !raw_mode_enabled,
        deadline_ms: 0,
        last_error: None,
        outcome: Err(QueryError::Timeout),
    };
    (s, if raw_mode_enabled {
        QueryAction::WriteQuery
    } else {
        QueryAction::EnableRawMode
    })
}

/// Ending with `outcome`: through restoring raw mode where this query
/// enabled it.
pub open spec fn finish_model(s: QueryState, outcome: Result<(u16, u16), QueryError>) -> (
    QueryState,
    QueryAction,
) {
    if s.enabled_here {
        (QueryState { phase: Phase::Restoring, outcome, ..s }, QueryAction::DisableRawMode)
    } else {
        (QueryState { phase: Phase::Done, outcome, ..s }, QueryAction::Finish(outcome))
    }
}

/// Raw mode was switched on, or failed to be: a failure ends the query
/// before anything is written, with nothing to restore.
pub open spec fn enabled_model(s: QueryState, r: Result<(), IoError>) -> (QueryState, QueryAction) {
    match r {
        Ok(()) => (QueryState { phase: Phase::Writing, ..s }, QueryAction::WriteQuery),
        Err(e) => (
            QueryState { phase: Phase::Done, enabled_here: false, outcome: Err(QueryError::Io(e)), ..s },
            QueryAction::Finish(Err(QueryError::Io(e))),
        ),
    }
}

/// The query was written at `now`, or failed to be.
pub open spec fn written_model(s: QueryState, now: u64, r: Result<(), IoError>) -> (
    QueryState,
    QueryAction,
) {
    match r {
        Ok(()) => (
            QueryState { phase: Phase::Polling, deadline_ms: deadline_after(now), ..s },
            QueryAction::Poll((deadline_after(now) - now) as u64),
        ),
        Err(e) => finish_model(s, Err(QueryError::Io(e))),
    }
}

/// A read for the reply returned `r` at `now`.
pub open spec fn polled_model(
    s: QueryState,
    now: u64,
    r: Result<Option<InternalEvent>, IoError>,
) -> (QueryState, QueryAction) {
    match r {
        Ok(Some(InternalEvent::CursorPosition(x, y))) => finish_model(s, Ok((x, y))),
        _ => {
            let last = match r {
                Err(e) => Some(e),
                _ => s.last_error,
            };
            let s1 = QueryState { last_error: last, ..s };
            if now >= s.deadline_ms {
                finish_model(
                    s1,
                    match last {
                        Some(e) => Err(QueryError::Io(e)),
                        None => Err(QueryError::Timeout),
                    },
                )
            } else {
                (s1, QueryAction::Poll((s.deadline_ms - now) as u64))
            }
        },
    }
}

/// Raw mode was switched off again, or failed to be: that failure is the
/// result only where the query itself succeeded.
pub open spec fn disabled_model(s: QueryState, r: Result<(), IoError>) -> (QueryState, QueryAction) {
    let outcome = match (s.outcome, r) {
        (Ok(_), Err(e)) => Err(QueryError::Io(e)),
        _ => s.outcome,
    };
    (QueryState { phase: Phase::Done, outcome, ..s }, QueryAction::Finish(outcome))
}

/// A cursor-position query: `ESC [ 6 n` goes out, and the reply
/// `ESC [ row ; col R` is awaited for two seconds, with raw mode on for the
/// while. The caller performs each action and reports back what happened.
pub struct CursorQuery {
    state: QueryState,
}

impl View for CursorQuery {
    type V = QueryState;

    closed spec fn view(&self) -> QueryState {
        self.state
    }
}

/// The query bytes `ESC [ 6 n`.
pub fn query_bytes() -> (r: Vec<u8>)
    ensures
        r@ == query_sequence(),
{
    let r = vec![0x1b, 0x5b, 0x36, 0x6e];
    assert(r@ =~= query_sequence());
    r
}

/// Starts a query that first switches raw mode on.
pub fn read_position() -> (r: (CursorQuery, QueryAction))
    ensures
        (r.0@, r.1) == start_model(false),
{
    let s = QueryState {
        phase: Phase::Enabling,
        enabled_here: true,
        deadline_ms: 0,
        last_error: None,
        outcome: Err(QueryError::Timeout),
    };
    (CursorQuery { state: s }, QueryAction::EnableRawMode)
}

/// Starts a query with raw mode already on.
pub fn read_position_raw() -> (r: (CursorQuery, QueryAction))
    ensures
        (r.0@, r.1) == start_model(true),
{
    let s = QueryState {
        phase: Phase::Writing,
        enabled_here: false,
        deadline_ms: 0,
        last_error: None,
        outcome: Err(QueryError::Timeout),
    };
    (CursorQuery { state: s }, QueryAction::WriteQuery)
}

/// Starts a query for the cursor position, (column, row) from (0, 0) at
/// the top left; raw mode is switched on for the query where it is off.
pub fn position(raw_mode_enabled: bool) -> (r: (CursorQuery, QueryAction))
    ensures
        (r.0@, r.1) == start_model(raw_mode_enabled),
{
    if raw_mode_enabled {
        read_position_raw()
    } else {
        read_position()
    }
}

impl CursorQuery {
    pub fn phase(&self) -> (r: Phase)
        ensures
            r == self@.phase,
    {
        self.state.phase
    }

    fn finish(&mut self, outcome: Result<(u16, u16), QueryError>) -> (a: QueryAction)
        ensures
            (final(self)@, a) == finish_model(old(self)@, outcome),
    {
        self.state.outcome = outcome;
        if self.state.enabled_here {
            self.state.phase = Phase::Restoring;
            QueryAction::DisableRawMode
        } else {
            self.state.phase = Phase::Done;
            QueryAction::Finish(outcome)
        }
    }

    pub fn on_raw_mode_enabled(&mut self, r: Result<(), IoError>) -> (a: QueryAction)
        requires
            old(self)@.phase == Phase::Enabling,
        ensures
            (final(self)@, a) == enabled_model(old(self)@, r),
    {
        match r {
            Ok(()) => {
                self.state.phase = Phase::Writing;
                QueryAction::WriteQuery
            },
            Err(e) => {
                self.state.phase = Phase::Done;
                self.state.enabled_here = false;
                self.state.outcome = Err(QueryError::Io(e));
                QueryAction::Finish(Err(QueryError::Io(e)))
            },
        }
    }

    pub fn on_query_written(&mut self, now_ms: u64, r: Result<(), IoError>) -> (a: QueryAction)
        requires
            old(self)@.phase == Phase::Writing,
        ensures
            (final(self)@, a) == written_model(old(self)@, now_ms, r),
    {
        match r {
            Ok(()) => {
                let deadline = if now_ms <= u64::MAX - QUERY_TIMEOUT_MS {
                    now_ms + QUERY_TIMEOUT_MS
                } else {
                    u64::MAX
                };
                self.state.phase = Phase::Polling;
                self.state.deadline_ms = deadline;
                QueryAction::Poll(deadline - now_ms)
            },
            Err(e) => self.finish(Err(QueryError::Io(e))),
        }
    }

    pub fn on_polled(&mut self, now_ms: u64, r: Result<Option<InternalEvent>, IoError>) -> (a:
        QueryAction)
        requires
            old(self)@.phase == Phase::Polling,
        ensures
            (final(self)@, a) == polled_model(old(self)@, now_ms, r),
    {
        if let Ok(Some(InternalEvent::CursorPosition(x, y))) = r {
            return self.finish(Ok((x, y)));
        }
        if let Err(e) = r {
            self.state.last_error = Some(e);
        }
        if now_ms >= self.state.deadline_ms {
            let outcome = match self.state.last_error {
                Some(e) => Err(QueryError::Io(e)),
                None => Err(QueryError::Timeout),
            };
            self.finish(outcome)
        } else {
            QueryAction::Poll(self.state.deadline_ms - now_ms)
        }
    }

    pub fn on_raw_mode_disabled(&mut self, r: Result<(), IoError>) -> (a: QueryAction)
        requires
            old(self)@.phase == Phase::Restoring,
        ensures
            (final(self)@, a) == disabled_model(old(self)@, r),
    {
        let outcome = match (self.state.outcome, r) {
            (Ok(_), Err(e)) => Err(QueryError::Io(e)),
            _ => self.state.outcome,
        };
        self.state.phase = Phase::Done;
        self.state.outcome = outcome;
        QueryAction::Finish(outcome)
    }
}

/// The read result of a poll that brought no reply: nothing, or another event.
pub open spec fn no_reply(other: Option<Event>) -> Result<Option<InternalEvent>, IoError> {
    match other {
        Some(e) => Ok(Some(InternalEvent::Event(e))),
        None => Ok(None),
    }
}

/// Where no reply comes, the wait ends two seconds after the query was
/// written, and not before: a poll before the deadline leads to another
/// poll whose budget reaches the deadline exactly, and the first poll at
/// or after it fails the query with a timeout.
pub proof fn lemma_silent_query_times_out(
    s: QueryState,
    t0: u64,
    p: QueryState,
    t: u64,
    other: Option<Event>,
)
    requires
        s.phase == Phase::Writing,
        t0 <= u64::MAX - QUERY_TIMEOUT_MS,
        p.phase == Phase::Polling,
        p.last_error is None,
    ensures
        ({
            let (s1, a) = written_model(s, t0, Ok(()));
            s1.phase == Phase::Polling && s1.deadline_ms == t0 + QUERY_TIMEOUT_MS && a
                == QueryAction::Poll(QUERY_TIMEOUT_MS) && s1.last_error == s.last_error
        }),
        ({
            let (p1, a) = polled_model(p, t, no_reply(other));
            &&& t < p.deadline_ms ==> p1.phase == Phase::Polling && p1.deadline_ms
                == p.deadline_ms && p1.last_error is None && a == QueryAction::Poll(
                (p.deadline_ms - t) as u64,
            )
            &&& t >= p.deadline_ms ==> p1.outcome == Err::<(u16, u16), QueryError>(
                QueryError::Timeout,
            ) && (if p.enabled_here {
                a == QueryAction::DisableRawMode
            } else {
                a == QueryAction::Finish(Err(QueryError::Timeout))
            })
        }),
{
}

} // verus!
