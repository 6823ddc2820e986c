//! The refresh run as a state machine: which window to fetch, whether the
//! fetch was complete, and when the single-flight guard is held and released.
//!
//! The machine decides; its caller reads the clock, the store and the scoring
//! service, and hands every answer back as an event.

use vstd::prelude::*;
use crate::date::Date;
use crate::date::Timestamp;
use crate::error::Error;
use crate::record::Record;
use crate::user;

verus! {

/// Days that a full window covers, its last day included.
pub const DAYS_COUNT: i64 = 28;

/// Shortest time between a stored batch and the next refresh, in
/// milliseconds: 30 minutes.
pub const MIN_INTERVAL_MILLIS: i64 = 1_800_000;

/// Where a refresh stands.
#[derive(Debug, Clone, PartialEq, Eq)]
pub enum Phase {
    /// No refresh is running.
    Idle,
    /// Waiting for the clock and the time of the latest batch.
    ReadingLastBatch,
    /// Waiting for the members of the latest batch.
    ReadingMembers { now: Timestamp, last: Timestamp },
    /// Waiting for the records of the first fetch. `pre` holds the members of
    /// the latest batch, if there is one.
    Fetching { now: Timestamp, pre: Option<Vec<user::Model>> },
    /// Waiting for the records of the full window, fetched because the first
    /// fetch did not hold exactly the members of the latest batch.
    Refetching { now: Timestamp },
    /// Waiting for the store to commit the batch.
    Storing,
}

/// What the caller hands to the machine.
#[derive(Debug, PartialEq, Eq)]
pub enum Event {
    /// Somebody asks for a refresh.
    Trigger,
    /// The clock, and the time of the latest batch if any was stored.
    LastBatch { now: Timestamp, last: Option<Timestamp> },
    /// The members of the latest batch.
    Members(Option<Vec<user::Model>>),
    /// The store could not be read.
    ReadFailed(Error),
    /// The answer of the scoring service.
    Fetched(Result<Vec<Record>, Error>),
    /// The answer of the store to the batch.
    Stored(Result<(), Error>),
}

/// How a refresh ended.
#[derive(Debug, Clone, PartialEq, Eq)]
pub enum Outcome {
    /// The latest batch is younger than 30 minutes; nothing was done.
    TooSoon,
    /// A new batch was stored.
    Completed,
    /// The scoring service failed; nothing was stored.
    FetchFailed(Error),
    /// The store failed; nothing was stored.
    StoreFailed(Error),
}

/// What the machine asks of the caller.
#[derive(Debug, Clone, PartialEq, Eq)]
pub enum Action {
    /// A refresh is running already; nothing is to be done.
    Busy,
    /// A refresh has started: read the clock and the time of the latest
    /// batch.
    ReadLastBatch,
    /// Read the members of the latest batch.
    ReadMembers,
    /// Fetch the records of the window from `start` to `end`.
    Fetch { start: Date, end: Date },
    /// Store the records as one batch, in one transaction.
    Store { records: Vec<Record>, observed_at: Timestamp },
    /// The refresh is over and the guard is released.
    Finish(Outcome),
    /// The event answers nothing that the machine asked; nothing changes.
    Ignore,
}

/// The answer to somebody who asks for a refresh.
#[derive(Debug, Clone, Copy, PartialEq, Eq, Structural)]
pub enum Disposition {
    /// A refresh is running already; this request starts none.
    Busy,
    /// A refresh has started and goes on by itself.
    Started,
}

/// The first day of the full window that ends on `today`.
pub open spec fn full_start(today: int) -> int {
    today - (DAYS_COUNT - 1)
}

/// The first day of the window that follows a batch taken on `last_day`: the
/// day after the batch, but no later than yesterday, so that the window
/// covers at least one day before `today`.
pub open spec fn incremental_start(last_day: int, today: int) -> int {
    if last_day + 1 <= today - 1 {
        last_day + 1
    } else {
        today - 1
    }
}

/// Whether a refresh at `now` comes too early after a batch taken at `last`.
pub open spec fn is_too_soon(now: int, last: int) -> bool {
    now - last < MIN_INTERVAL_MILLIS
}

/// The wallet addresses of a list of members, as a set.
pub open spec fn member_ids(members: Seq<user::Model>) -> Set<Seq<char>> {
    Set::new(|id: Seq<char>| exists|i: int| 0 <= i < members.len() && #[trigger] members[i].id@ == id)
}

/// The wallet addresses that a list of records speaks of, as a set.
pub open spec fn record_ids(records: Seq<Record>) -> Set<Seq<char>> {
    Set::new(
        |id: Seq<char>|
            exists|i: int| 0 <= i < records.len() && #[trigger] records[i].wallet_address@ == id,
    )
}

/// Whether fetched records are complete with respect to the latest batch:
/// they speak of exactly its members. With no latest batch, any records are.
pub open spec fn is_complete(pre: Option<Vec<user::Model>>, records: Seq<Record>) -> bool {
    match pre {
        None => true,
        Some(members) => member_ids(members@) == record_ids(records),
    }
}

/// The state after an event, and what the caller is asked to do next.
pub open spec fn transition(phase: Phase, event: Event) -> (Phase, Action) {
    match (phase, event) {
        (Phase::Idle, Event::Trigger) => (Phase::ReadingLastBatch, Action::ReadLastBatch),
        (_, Event::Trigger) => (phase, Action::Busy),
        (Phase::ReadingLastBatch, Event::LastBatch { now, last: None }) => {
            let today = Timestamp::day_of(now.millis as int);
            (
                Phase::Fetching { now, pre: None },
                Action::Fetch {
                    start: Date { days: full_start(today) as i64 },
                    end: Date { days: today as i64 },
                },
            )
        },
        (Phase::ReadingLastBatch, Event::LastBatch { now, last: Some(last) }) => {
            if is_too_soon(now.millis as int, last.millis as int) {
                (Phase::Idle, Action::Finish(Outcome::TooSoon))
            } else {
                (Phase::ReadingMembers { now, last }, Action::ReadMembers)
            }
        },
        (Phase::ReadingMembers { now, last }, Event::Members(pre)) => {
            let today = Timestamp::day_of(now.millis as int);
            let last_day = Timestamp::day_of(last.millis as int);
            (
                Phase::Fetching { now, pre },
                Action::Fetch {
                    start: Date { days: incremental_start(last_day, today) as i64 },
                    end: Date { days: today as i64 },
                },
            )
        },
        (Phase::ReadingLastBatch, Event::ReadFailed(e)) => (
            Phase::Idle,
            Action::Finish(Outcome::StoreFailed(e)),
        ),
        (Phase::ReadingMembers { .. }, Event::ReadFailed(e)) => (
            Phase::Idle,
            Action::Finish(Outcome::StoreFailed(e)),
        ),
        (Phase::Fetching { now, pre }, Event::Fetched(Ok(records))) => {
            if is_complete(pre, records@) {
                (Phase::Storing, Action::Store { records, observed_at: now })
            } else {
                let today = Timestamp::day_of(now.millis as int);
                (
                    Phase::Refetching { now },
                    Action::Fetch {
                        start: Date { days: full_start(today) as i64 },
                        end: Date { days: today as i64 },
                    },
                )
            }
        },
        (Phase::Refetching { now }, Event::Fetched(Ok(records))) => (
            Phase::Storing,
            Action::Store { records, observed_at: now },
        ),
        (Phase::Fetching { .. }, Event::Fetched(Err(e))) => (
            Phase::Idle,
            Action::Finish(Outcome::FetchFailed(e)),
        ),
        (Phase::Refetching { .. }, Event::Fetched(Err(e))) => (
            Phase::Idle,
            Action::Finish(Outcome::FetchFailed(e)),
        ),
        (Phase::Storing, Event::Stored(Ok(_))) => (Phase::Idle, Action::Finish(Outcome::Completed)),
        (Phase::Storing, Event::Stored(Err(e))) => (
            Phase::Idle,
            Action::Finish(Outcome::StoreFailed(e)),
        ),
        _ => (phase, Action::Ignore),
    }
}

/// The full window that ends on `today`: 28 days, `today` included.
pub fn full_window(today: Date) -> (r: (Date, Date))
    requires
        today.days >= i64::MIN + (DAYS_COUNT - 1),
    ensures
        r.0.days == full_start(today.days as int),
        r.1 == today,
{
    (today.minus_days(DAYS_COUNT - 1), today)
}

/// The window that follows a batch taken at `last`: from the day after the
/// batch, or from yesterday if that is earlier, to `today`.
pub fn incremental_window(last: Timestamp, today: Date) -> (r: (Date, Date))
    requires
        today.days > i64::MIN,
    ensures
        r.0.days == incremental_start(Timestamp::day_of(last.millis as int), today.days as int),
        r.1 == today,
{
    let next = last.date().succ();
    let yesterday = today.minus_days(1);
    (next.min(yesterday), today)
}

/// Whether a refresh at `now` comes less than 30 minutes after `last`.
pub fn too_soon(now: Timestamp, last: Timestamp) -> (r: bool)
    ensures
        r == is_too_soon(now.millis as int, last.millis as int),
{
    now.millis_since(last) < MIN_INTERVAL_MILLIS as i128
}

fn holds_member(members: &Vec<user::Model>, id: &String) -> (r: bool)
    ensures
        r == member_ids(members@).contains(id@),
{
    let mut i: usize = 0;
    while i < members.len()
        invariant
            i <= members@.len(),
            forall|k: int| 0 <= k < i ==> members@[k].id@ != id@,
        decreases members@.len() - i,
    {
        if members[i].id == *id {
            return true;
        }
        i += 1;
    }
    false
}

fn holds_record(records: &Vec<Record>, id: &String) -> (r: bool)
    ensures
        r == record_ids(records@).contains(id@),
{
    let mut i: usize = 0;
    while i < records.len()
        invariant
            i <= records@.len(),
            forall|k: int| 0 <= k < i ==> records@[k].wallet_address@ != id@,
        decreases records@.len() - i,
    {
        if records[i].wallet_address == *id {
            return true;
        }
        i += 1;
    }
    false
}

/// Whether fetched records speak of exactly the given members.
pub fn same_members(members: &Vec<user::Model>, records: &Vec<Record>) -> (r: bool)
    ensures
        r == (member_ids(members@) == record_ids(records@)),
{
    let mut i: usize = 0;
    while i < members.len()
        invariant
            i <= members@.len(),
            forall|k: int| 0 <= k < i ==> record_ids(records@).contains(#[trigger] members@[k].id@),
        decreases members@.len() - i,
    {
        if !holds_record(records, &members[i].id) {
            proof {
                assert(member_ids(members@).contains(members@[i as int].id@));
            }
            return false;
        }
        i += 1;
    }
    let mut j: usize = 0;
    while j < records.len()
        invariant
            j <= records@.len(),
            forall|k: int|
                0 <= k < j ==> member_ids(members@).contains(#[trigger] records@[k].wallet_address@),
        decreases records@.len() - j,
    {
        if !holds_member(members, &records[j].wallet_address) {
            proof {
                assert(record_ids(records@).contains(records@[j as int].wallet_address@));
            }
            return false;
        }
        j += 1;
    }
    assert(member_ids(members@) =~= record_ids(records@));
    true
}

/// The refresh machine. A refresh is in flight from the trigger that starts
/// it until the machine says that it is finished.
#[derive(Debug, Clone, PartialEq, Eq)]
pub struct Refresher {
    pub phase: Phase,
}

impl Refresher {
    /// Whether a refresh is running: the single-flight guard.
    pub open spec fn in_flight(self) -> bool {
        !(self.phase is Idle)
    }

    /// A machine with no refresh running.
    pub fn new() -> (r: Refresher)
        ensures
            r.phase is Idle,
    {
        Refresher { phase: Phase::Idle }
    }

    /// Whether a refresh is running.
    pub fn refresh_in_flight(&self) -> (r: bool)
        ensures
            r == self.in_flight(),
    {
        match &self.phase {
            Phase::Idle => false,
            _ => true,
        }
    }

    /// Asks for a refresh: takes the guard if it is free. Where it is held,
    /// nothing changes.
    pub fn trigger_refresh(&mut self) -> (r: Disposition)
        ensures
            old(self).in_flight() ==> r == Disposition::Busy && *final(self) == *old(self),
            !old(self).in_flight() ==> r == Disposition::Started && final(self).phase
                == Phase::ReadingLastBatch,
            final(self).in_flight(),
    {
        match self.step(Event::Trigger) {
            Action::ReadLastBatch => Disposition::Started,
            _ => Disposition::Busy,
        }
    }

    /// Takes an event and says what to do next.
    pub fn step(&mut self, event: Event) -> (action: Action)
        ensures
            (final(self).phase, action) == transition(old(self).phase, event),
    {
        let mut phase = Phase::Idle;
        core::mem::swap(&mut self.phase, &mut phase);
        let (next, action) = match (phase, event) {
            (Phase::Idle, Event::Trigger) => (Phase::ReadingLastBatch, Action::ReadLastBatch),
            (phase, Event::Trigger) => (phase, Action::Busy),
            (Phase::ReadingLastBatch, Event::LastBatch { now, last: None }) => {
                let (start, end) = full_window(now.date());
                (Phase::Fetching { now, pre: None }, Action::Fetch { start, end })
            },
            (Phase::ReadingLastBatch, Event::LastBatch { now, last: Some(last) }) => {
                if too_soon(now, last) {
                    (Phase::Idle, Action::Finish(Outcome::TooSoon))
                } else {
                    (Phase::ReadingMembers { now, last }, Action::ReadMembers)
                }
            },
            (Phase::ReadingMembers { now, last }, Event::Members(pre)) => {
                let (start, end) = incremental_window(last, now.date());
                (Phase::Fetching { now, pre }, Action::Fetch { start, end })
            },
            (Phase::ReadingLastBatch, Event::ReadFailed(e)) => (
                Phase::Idle,
                Action::Finish(Outcome::StoreFailed(e)),
            ),
            (Phase::ReadingMembers { now, last }, Event::ReadFailed(e)) => (
                Phase::Idle,
                Action::Finish(Outcome::StoreFailed(e)),
            ),
            (Phase::Fetching { now, pre }, Event::Fetched(Ok(records))) => {
                let complete = match &pre {
                    None => true,
                    Some(members) => same_members(members, &records),
                };
                if complete {
                    (Phase::Storing, Action::Store { records, observed_at: now })
                } else {
                    let (start, end) = full_window(now.date());
                    (Phase::Refetching { now }, Action::Fetch { start, end })
                }
            },
            (Phase::Refetching { now }, Event::Fetched(Ok(records))) => (
                Phase::Storing,
                Action::Store { records, observed_at: now },
            ),
            (Phase::Fetching { now, pre }, Event::Fetched(Err(e))) => (
                Phase::Idle,
                Action::Finish(Outcome::FetchFailed(e)),
            ),
            (Phase::Refetching { now }, Event::Fetched(Err(e))) => (
                Phase::Idle,
                Action::Finish(Outcome::FetchFailed(e)),
            ),
            (Phase::Storing, Event::Stored(Ok(_))) => (
                Phase::Idle,
                Action::Finish(Outcome::Completed),
            ),
            (Phase::Storing, Event::Stored(Err(e))) => (
                Phase::Idle,
                Action::Finish(Outcome::StoreFailed(e)),
            ),
            (phase, _) => (phase, Action::Ignore),
        };
        self.phase = next;
        action
    }
}

impl Phase {
    /// How far into a refresh a phase is; a refresh only moves forward.
    pub open spec fn rank(self) -> int {
        match self {
            Phase::Idle => 0,
            Phase::ReadingLastBatch => 1,
            Phase::ReadingMembers { .. } => 2,
            Phase::Fetching { .. } => 3,
            Phase::Refetching { .. } => 4,
            Phase::Storing => 5,
        }
    }
}

/// Single flight: a trigger starts a refresh only where none is running.
/// While one is running, a trigger is answered `Busy`, changes nothing and
/// asks for nothing; so of two triggers in a row, exactly the first starts
/// the work.
pub proof fn lemma_single_flight(phase: Phase)
    ensures
        transition(Phase::Idle, Event::Trigger) == (Phase::ReadingLastBatch, Action::ReadLastBatch),
        !(phase is Idle) ==> transition(phase, Event::Trigger) == (phase, Action::Busy),
        transition(transition(Phase::Idle, Event::Trigger).0, Event::Trigger) == (
            Phase::ReadingLastBatch,
            Action::Busy,
        ),
{
}

/// A refresh that finds the latest batch younger than 30 minutes ends as
/// `TooSoon`, releases the guard and asks for nothing else; with a batch of
/// 30 minutes or more it goes on to read the members.
pub proof fn lemma_minimum_interval(now: Timestamp, last: Timestamp)
    ensures
        now.millis - last.millis < MIN_INTERVAL_MILLIS ==> transition(
            Phase::ReadingLastBatch,
            Event::LastBatch { now, last: Some(last) },
        ) == (Phase::Idle, Action::Finish(Outcome::TooSoon)),
        now.millis - last.millis >= MIN_INTERVAL_MILLIS ==> transition(
            Phase::ReadingLastBatch,
            Event::LastBatch { now, last: Some(last) },
        ) == (Phase::ReadingMembers { now, last }, Action::ReadMembers),
{
}

/// The store is written only with records that a fetch has just brought: no
/// trigger, no refusal and no failure leads to a write.
pub proof fn lemma_store_follows_fetch(phase: Phase, event: Event)
    requires
        transition(phase, event).1 is Store,
    ensures
        phase is Fetching || phase is Refetching,
        event matches Event::Fetched(Ok(records)) && transition(phase, event).1->Store_records
            == records,
        phase matches Phase::Fetching { pre, .. } ==> is_complete(
            pre,
            transition(phase, event).1->Store_records@,
        ),
        transition(phase, event).0 is Storing,
{
}

/// The guard is released exactly when the machine says that the refresh is
/// finished, whichever way it ended; until then it stays held.
pub proof fn lemma_guard_released_on_finish(phase: Phase, event: Event)
    requires
        !(phase is Idle),
    ensures
        transition(phase, event).1 is Finish <==> transition(phase, event).0 is Idle,
        (event is ReadFailed && (phase is ReadingLastBatch || phase is ReadingMembers))
            ==> transition(phase, event).0 is Idle,
        (event matches Event::Fetched(Err(_)) && (phase is Fetching || phase is Refetching))
            ==> transition(phase, event).0 is Idle,
        (event is Stored && phase is Storing) ==> transition(phase, event).0 is Idle,
{
}

/// A running refresh only moves forward: an event either changes nothing
/// (`Busy`, `Ignore`), ends the refresh, or leads to a later phase. So a
/// refresh fetches at most twice and stores at most once.
pub proof fn lemma_refresh_advances(phase: Phase, event: Event)
    requires
        !(phase is Idle),
    ensures
        ({
            let (next, action) = transition(phase, event);
            ||| ((action is Busy || action is Ignore) && next == phase)
            ||| (action is Finish && next is Idle)
            ||| (!(action is Busy) && !(action is Ignore) && !(action is Finish) && next.rank()
                > phase.rank())
        }),
{
}

/// An idle machine answers only a trigger.
pub proof fn lemma_idle_ignores(event: Event)
    requires
        !(event is Trigger),
    ensures
        transition(Phase::Idle, event) == (Phase::Idle, Action::Ignore),
{
}

/// With no batch stored yet, a refresh fetches the full window: the 28 days
/// that end today.
pub proof fn lemma_first_refresh_fetches_full_window(now: Timestamp)
    ensures
        ({
            let today = Timestamp::day_of(now.millis as int);
            transition(Phase::ReadingLastBatch, Event::LastBatch { now, last: None }) == (
                Phase::Fetching { now, pre: None },
                Action::Fetch {
                    start: Date { days: (today - 27) as i64 },
                    end: Date { days: today as i64 },
                },
            )
        }),
        i64::MIN <= Timestamp::day_of(now.millis as int) - 27,
{
}

/// A first fetch that does not bring exactly the members of the latest batch
/// is dropped, and the full window is fetched in its place; what that second
/// fetch brings is stored as it is.
pub proof fn lemma_incomplete_fetch_refetches(
    now: Timestamp,
    members: Vec<user::Model>,
    records: Vec<Record>,
    again: Vec<Record>,
)
    requires
        member_ids(members@) != record_ids(records@),
    ensures
        ({
            let today = Timestamp::day_of(now.millis as int);
            transition(
                Phase::Fetching { now, pre: Some(members) },
                Event::Fetched(Ok(records)),
            ) == (
                Phase::Refetching { now },
                Action::Fetch {
                    start: Date { days: (today - 27) as i64 },
                    end: Date { days: today as i64 },
                },
            )
        }),
        transition(Phase::Refetching { now }, Event::Fetched(Ok(again))) == (
            Phase::Storing,
            Action::Store { records: again, observed_at: now },
        ),
{
}

/// Every window that the machine asks for starts before it ends, so that the
/// scoring service is never asked for an empty or inverted range.
pub proof fn lemma_windows_start_before_end(now: Timestamp, last: Timestamp)
    ensures
        ({
            let today = Timestamp::day_of(now.millis as int);
            let last_day = Timestamp::day_of(last.millis as int);
            &&& full_start(today) < today
            &&& incremental_start(last_day, today) < today
            &&& i64::MIN <= full_start(today)
            &&& i64::MIN <= incremental_start(last_day, today)
        }),
{
}

} // verus!
