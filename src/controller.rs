//! The pagination state machine: what to do next after each event.

use vstd::prelude::*;

verus! {

/// Where the scrape stands.
#[derive(Clone, Copy, Debug, PartialEq, Eq, Structural)]
pub enum ScrapeState {
    /// Fetching a page, after this many failed attempts at it.
    Fetching { page: u64, failures: u64 },
    Parsing { page: u64 },
    Waiting { page: u64 },
    Done,
    /// A page failed more often than the retry policy allows; what was
    /// gathered is incomplete.
    GaveUp { page: u64 },
}

/// What happened since the last step.
#[derive(Clone, Copy, Debug, PartialEq, Eq, Structural)]
pub enum ScrapeEvent {
    /// The fetch failed or answered with a non-success status.
    FetchFailed,
    /// The page arrived.
    Fetched,
    /// The page was processed; whether any entry was in the target year.
    Parsed { found: bool },
    /// The delay between pages has passed.
    Slept,
}

/// What the driver is to do next.
#[derive(Clone, Copy, Debug, PartialEq, Eq, Structural)]
pub enum ScrapeAction {
    Fetch { page: u64 },
    Parse { page: u64 },
    Sleep,
    Finish,
    /// Stop without a complete result.
    Abandon { page: u64 },
}

/// How often one page may fail before the scrape gives up; `None` retries
/// without end.
#[derive(Clone, Copy, Debug, PartialEq, Eq, Structural)]
pub struct RetryPolicy {
    pub max_failures: Option<u64>,
}

/// The first state and action of a scrape.
pub open spec fn start_spec() -> (ScrapeState, ScrapeAction) {
    (ScrapeState::Fetching { page: 1, failures: 0 }, ScrapeAction::Fetch { page: 1 })
}

/// The transition relation; `None` for an event that cannot come in that
/// state.
pub open spec fn next_spec(s: ScrapeState, e: ScrapeEvent, p: RetryPolicy) -> Option<
    (ScrapeState, ScrapeAction),
> {
    match (s, e) {
        (ScrapeState::Fetching { page, failures }, ScrapeEvent::FetchFailed) => {
            let gave_up = match p.max_failures {
                Some(m) => failures >= m,
                None => false,
            };
            if gave_up || failures == u64::MAX {
                Some((ScrapeState::GaveUp { page }, ScrapeAction::Abandon { page }))
            } else {
                Some(
                    (
                        ScrapeState::Fetching { page, failures: (failures + 1) as u64 },
                        ScrapeAction::Fetch { page },
                    ),
                )
            }
        },
        (ScrapeState::Fetching { page, failures }, ScrapeEvent::Fetched) => Some(
            (ScrapeState::Parsing { page }, ScrapeAction::Parse { page }),
        ),
        (ScrapeState::Parsing { page }, ScrapeEvent::Parsed { found }) => if found {
            Some((ScrapeState::Waiting { page }, ScrapeAction::Sleep))
        } else {
            Some((ScrapeState::Done, ScrapeAction::Finish))
        },
        (ScrapeState::Waiting { page }, ScrapeEvent::Slept) => if page < u64::MAX {
            Some(
                (
                    ScrapeState::Fetching { page: (page + 1) as u64, failures: 0 },
                    ScrapeAction::Fetch { page: (page + 1) as u64 },
                ),
            )
        } else {
            Some((ScrapeState::Done, ScrapeAction::Finish))
        },
        _ => None,
    }
}

/// The first state and action: fetch page 1.
pub fn start() -> (r: (ScrapeState, ScrapeAction))
    ensures
        r == start_spec(),
{
    (ScrapeState::Fetching { page: 1, failures: 0 }, ScrapeAction::Fetch { page: 1 })
}

/// The next state and action after an event.
pub fn step(s: ScrapeState, e: ScrapeEvent, p: RetryPolicy) -> (r: Option<
    (ScrapeState, ScrapeAction),
>)
    ensures
        r == next_spec(s, e, p),
{
    match (s, e) {
        (ScrapeState::Fetching { page, failures }, ScrapeEvent::FetchFailed) => {
            let gave_up = match p.max_failures {
                Some(m) => failures >= m,
                None => false,
            };
            if gave_up || failures == u64::MAX {
                Some((ScrapeState::GaveUp { page }, ScrapeAction::Abandon { page }))
            } else {
                Some(
                    (
                        ScrapeState::Fetching { page, failures: failures + 1 },
                        ScrapeAction::Fetch { page },
                    ),
                )
            }
        },
        (ScrapeState::Fetching { page, failures: _ }, ScrapeEvent::Fetched) => Some(
            (ScrapeState::Parsing { page }, ScrapeAction::Parse { page }),
        ),
        (ScrapeState::Parsing { page }, ScrapeEvent::Parsed { found }) => if found {
            Some((ScrapeState::Waiting { page }, ScrapeAction::Sleep))
        } else {
            Some((ScrapeState::Done, ScrapeAction::Finish))
        },
        (ScrapeState::Waiting { page }, ScrapeEvent::Slept) => if page < u64::MAX {
            Some(
                (
                    ScrapeState::Fetching { page: page + 1, failures: 0 },
                    ScrapeAction::Fetch { page: page + 1 },
                ),
            )
        } else {
            Some((ScrapeState::Done, ScrapeAction::Finish))
        },
        _ => None,
    }
}

/// A failed fetch is retried on the same page while the policy allows;
/// without a limit it is always retried.
pub proof fn lemma_failed_fetch_retried(page: u64, failures: u64)
    requires
        failures < u64::MAX,
    ensures
        next_spec(
            ScrapeState::Fetching { page, failures },
            ScrapeEvent::FetchFailed,
            RetryPolicy { max_failures: None },
        ) == Some(
            (
                ScrapeState::Fetching { page, failures: (failures + 1) as u64 },
                ScrapeAction::Fetch { page },
            ),
        ),
{
}

/// A parsed page with no entry in the target year ends the scrape; one
/// with such an entry leads, after the delay, to the next page.
pub proof fn lemma_pages_in_order(page: u64)
    requires
        page < u64::MAX,
    ensures
        next_spec(
            ScrapeState::Parsing { page },
            ScrapeEvent::Parsed { found: false },
            RetryPolicy { max_failures: None },
        ) == Some((ScrapeState::Done, ScrapeAction::Finish)),
        next_spec(
            ScrapeState::Parsing { page },
            ScrapeEvent::Parsed { found: true },
            RetryPolicy { max_failures: None },
        ) == Some((ScrapeState::Waiting { page }, ScrapeAction::Sleep)),
        next_spec(
            ScrapeState::Waiting { page },
            ScrapeEvent::Slept,
            RetryPolicy { max_failures: None },
        ) == Some(
            (
                ScrapeState::Fetching { page: (page + 1) as u64, failures: 0 },
                ScrapeAction::Fetch { page: (page + 1) as u64 },
            ),
        ),
{
}

} // verus!
