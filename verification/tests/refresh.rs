use pgnpg::date::{Date, Timestamp};
use pgnpg::error::Error;
use pgnpg::record::Record;
use pgnpg::refresh::{
    full_window, incremental_window, same_members, too_soon, Action, Disposition, Event, Outcome,
    Phase, Refresher, DAYS_COUNT, MIN_INTERVAL_MILLIS,
};
use pgnpg::store::Store;
use pgnpg::usecase::{active_users, fetch_url, get_last_updated_at, insert};
use pgnpg::user;

fn record(wallet: &str, id: &str, days: Vec<(i64, u32)>) -> Record {
    Record {
        id: id.to_string(),
        wallet_address: wallet.to_string(),
        grade: None,
        course: None,
        level: None,
        sex: None,
        join_date: None,
        join_month: None,
        office: None,
        email: None,
        email_of_4nonome: None,
        university: None,
        major: None,
        leave_date: None,
        active: None,
        slack_id: None,
        discord_id: None,
        total: 0,
        total_pgrit: 0,
        total_dawn: 0,
        total_other: 0,
        daily_totals: days.into_iter().map(|(d, a)| (Date { days: d }, a)).collect(),
    }
}

fn member(wallet: &str, id: &str) -> user::Model {
    user::Model { id: wallet.to_string(), pgrit_id: id.to_string() }
}

fn ids(users: &[user::Model]) -> Vec<String> {
    let mut v: Vec<String> = users.iter().map(|u| u.id.clone()).collect();
    v.sort();
    v
}

/// Runs one refresh against a store, answering every fetch from `answers`
/// in turn, and gives back the windows asked for and the way it ended.
fn run(
    machine: &mut Refresher,
    db: &mut Store,
    now: Timestamp,
    mut answers: Vec<Result<Vec<Record>, Error>>,
) -> (Vec<(Date, Date)>, Option<Outcome>) {
    let mut windows = Vec::new();
    let mut action = machine.step(Event::Trigger);
    loop {
        let event = match action {
            Action::Busy | Action::Ignore => return (windows, None),
            Action::Finish(outcome) => return (windows, Some(outcome)),
            Action::ReadLastBatch => match get_last_updated_at(db) {
                Ok(last) => Event::LastBatch { now, last },
                Err(e) => Event::ReadFailed(e),
            },
            Action::ReadMembers => match active_users(db) {
                Ok(members) => Event::Members(members),
                Err(e) => Event::ReadFailed(e),
            },
            Action::Fetch { start, end } => {
                windows.push((start, end));
                match fetch_url("https://example.net/pix", start, end) {
                    Ok(_) => Event::Fetched(answers.remove(0)),
                    Err(e) => Event::Fetched(Err(e)),
                }
            }
            Action::Store { records, observed_at } => {
                Event::Stored(db.apply(&insert(observed_at, &records)))
            }
        };
        assert!(machine.refresh_in_flight());
        action = machine.step(event);
    }
}

const T0: i64 = 1_712_750_000_000;
const TODAY: i64 = 19_823;

#[test]
fn constants_of_the_refresh() {
    assert_eq!(DAYS_COUNT, 28);
    assert_eq!(MIN_INTERVAL_MILLIS, 30 * 60 * 1000);
}

#[test]
fn of_two_triggers_only_the_first_starts_a_refresh() {
    let mut machine = Refresher::new();
    assert!(!machine.refresh_in_flight());
    assert_eq!(machine.step(Event::Trigger), Action::ReadLastBatch);
    assert!(machine.refresh_in_flight());
    let held = machine.clone();
    assert_eq!(machine.step(Event::Trigger), Action::Busy);
    assert_eq!(machine, held);
    assert_eq!(machine.step(Event::Trigger), Action::Busy);
    assert_eq!(machine, held);
}

#[test]
fn a_trigger_is_busy_in_every_phase_of_a_refresh() {
    let now = Timestamp { millis: T0 };
    let phases = vec![
        Phase::ReadingLastBatch,
        Phase::ReadingMembers { now, last: now },
        Phase::Fetching { now, pre: None },
        Phase::Fetching { now, pre: Some(vec![member("0xA", "alice")]) },
        Phase::Refetching { now },
        Phase::Storing,
    ];
    for phase in phases {
        let mut machine = Refresher { phase: phase.clone() };
        assert_eq!(machine.step(Event::Trigger), Action::Busy);
        assert_eq!(machine.phase, phase);
    }
}

#[test]
fn a_refresh_within_30_minutes_of_the_last_batch_is_too_soon() {
    let mut db = Store::new();
    let mut machine = Refresher::new();
    let first = Timestamp { millis: T0 };
    let (_, outcome) = run(&mut machine, &mut db, first, vec![Ok(vec![record("0xA", "alice", vec![(TODAY, 1)])])]);
    assert_eq!(outcome, Some(Outcome::Completed));
    let stored = db.clone();
    let soon = Timestamp { millis: T0 + MIN_INTERVAL_MILLIS - 1 };
    let (windows, outcome) = run(&mut machine, &mut db, soon, vec![]);
    assert_eq!(outcome, Some(Outcome::TooSoon));
    assert!(windows.is_empty());
    assert_eq!(db, stored);
    assert!(!machine.refresh_in_flight());
    assert_eq!(get_last_updated_at(&db), Ok(Some(first)));
}

#[test]
fn a_refresh_30_minutes_after_the_last_batch_goes_ahead() {
    let mut db = Store::new();
    let mut machine = Refresher::new();
    let first = Timestamp { millis: T0 };
    let records = vec![record("0xA", "alice", vec![(TODAY, 1)])];
    run(&mut machine, &mut db, first, vec![Ok(records.clone())]);
    let later = Timestamp { millis: T0 + MIN_INTERVAL_MILLIS };
    let (windows, outcome) = run(&mut machine, &mut db, later, vec![Ok(records)]);
    assert_eq!(outcome, Some(Outcome::Completed));
    assert_eq!(windows, vec![(Date { days: TODAY - 1 }, Date { days: TODAY })]);
    assert_eq!(get_last_updated_at(&db), Ok(Some(later)));
    assert!(too_soon(Timestamp { millis: T0 + 1 }, first));
    assert!(too_soon(Timestamp { millis: T0 - 5 }, first));
    assert!(!too_soon(later, first));
}

#[test]
fn the_first_refresh_fetches_28_days_and_its_members_are_active() {
    let mut db = Store::new();
    let mut machine = Refresher::new();
    let fetched = vec![
        record("0xA", "alice", vec![(TODAY, 3), (TODAY - 27, 4)]),
        record("0xB", "bob", vec![(TODAY - 1, 5)]),
        record("0xC", "carol", vec![]),
    ];
    let (windows, outcome) = run(&mut machine, &mut db, Timestamp { millis: T0 }, vec![Ok(fetched)]);
    assert_eq!(outcome, Some(Outcome::Completed));
    assert_eq!(windows, vec![(Date { days: TODAY - 27 }, Date { days: TODAY })]);
    assert_eq!(ids(&active_users(&db).unwrap().unwrap()), vec!["0xA", "0xB", "0xC"]);
    assert_eq!(get_last_updated_at(&db), Ok(Some(Timestamp { millis: T0 })));
    assert!(!machine.refresh_in_flight());
}

#[test]
fn a_fetch_that_misses_a_member_is_fetched_again_in_full() {
    let mut db = Store::new();
    let mut machine = Refresher::new();
    let both = vec![record("0xA", "alice", vec![(TODAY - 3, 1)]), record("0xB", "bob", vec![(TODAY - 3, 2)])];
    run(&mut machine, &mut db, Timestamp { millis: T0 - 3 * 86_400_000 }, vec![Ok(both)]);
    assert_eq!(ids(&active_users(&db).unwrap().unwrap()), vec!["0xA", "0xB"]);
    let only_a = vec![record("0xA", "alice", vec![(TODAY, 10)])];
    let full = vec![record("0xA", "alice", vec![(TODAY, 10), (TODAY - 9, 7)])];
    let (windows, outcome) = run(&mut machine, &mut db, Timestamp { millis: T0 }, vec![Ok(only_a), Ok(full)]);
    assert_eq!(outcome, Some(Outcome::Completed));
    assert_eq!(
        windows,
        vec![
            (Date { days: TODAY - 2 }, Date { days: TODAY }),
            (Date { days: TODAY - 27 }, Date { days: TODAY }),
        ]
    );
    assert_eq!(ids(&active_users(&db).unwrap().unwrap()), vec!["0xA"]);
    let a = "0xA".to_string();
    assert_eq!(db.user_history(&a, 28), vec![(Date { days: TODAY }, 10), (Date { days: TODAY - 3 }, 1), (Date { days: TODAY - 9 }, 7)]);
}

#[test]
fn a_fetch_that_brings_a_new_member_is_fetched_again_in_full() {
    let now = Timestamp { millis: T0 };
    let mut machine = Refresher { phase: Phase::Fetching { now, pre: Some(vec![member("0xA", "alice")]) } };
    let more = vec![record("0xA", "alice", vec![]), record("0xB", "bob", vec![])];
    assert_eq!(
        machine.step(Event::Fetched(Ok(more))),
        Action::Fetch { start: Date { days: TODAY - 27 }, end: Date { days: TODAY } }
    );
    assert_eq!(machine.phase, Phase::Refetching { now });
    let again = vec![record("0xZ", "zed", vec![])];
    assert_eq!(
        machine.step(Event::Fetched(Ok(again.clone()))),
        Action::Store { records: again, observed_at: now }
    );
    assert_eq!(machine.phase, Phase::Storing);
}

#[test]
fn a_complete_fetch_is_stored_as_it_is() {
    let now = Timestamp { millis: T0 };
    let pre = vec![member("0xA", "alice"), member("0xB", "bob")];
    let mut machine = Refresher { phase: Phase::Fetching { now, pre: Some(pre) } };
    let same = vec![record("0xB", "bobby", vec![]), record("0xA", "alice", vec![]), record("0xB", "bob", vec![])];
    assert_eq!(
        machine.step(Event::Fetched(Ok(same.clone()))),
        Action::Store { records: same, observed_at: now }
    );
}

#[test]
fn members_are_compared_as_sets_of_wallets() {
    let pre = vec![member("0xA", "alice"), member("0xB", "bob")];
    assert!(same_members(&pre, &vec![record("0xB", "x", vec![]), record("0xA", "y", vec![])]));
    assert!(same_members(&pre, &vec![record("0xA", "", vec![]), record("0xB", "", vec![]), record("0xA", "", vec![])]));
    assert!(!same_members(&pre, &vec![record("0xA", "alice", vec![])]));
    assert!(!same_members(&pre, &vec![record("0xA", "a", vec![]), record("0xB", "b", vec![]), record("0xC", "c", vec![])]));
    assert!(!same_members(&pre, &vec![]));
    assert!(same_members(&vec![], &vec![]));
    assert!(!same_members(&vec![], &vec![record("0xA", "alice", vec![])]));
    assert!(!same_members(&pre, &vec![record("alice", "0xA", vec![]), record("bob", "0xB", vec![])]));
}

#[test]
fn a_failed_fetch_ends_the_refresh_and_stores_nothing() {
    let mut db = Store::new();
    let mut machine = Refresher::new();
    let failure = Error::Reqwest("connection refused".to_string());
    let (windows, outcome) = run(&mut machine, &mut db, Timestamp { millis: T0 }, vec![Err(failure.clone())]);
    assert_eq!(outcome, Some(Outcome::FetchFailed(failure)));
    assert_eq!(windows.len(), 1);
    assert_eq!(db, Store::new());
    assert!(!machine.refresh_in_flight());
    let undecodable = Error::Serde("expected value".to_string());
    let (_, outcome) = run(&mut machine, &mut db, Timestamp { millis: T0 }, vec![Err(undecodable.clone())]);
    assert_eq!(outcome, Some(Outcome::FetchFailed(undecodable)));
    assert_eq!(db, Store::new());
    assert_eq!(machine.step(Event::Trigger), Action::ReadLastBatch);
}

#[test]
fn a_failed_second_fetch_ends_the_refresh_as_well() {
    let now = Timestamp { millis: T0 };
    let mut machine = Refresher { phase: Phase::Refetching { now } };
    let failure = Error::Reqwest("reset".to_string());
    assert_eq!(
        machine.step(Event::Fetched(Err(failure.clone()))),
        Action::Finish(Outcome::FetchFailed(failure))
    );
    assert!(!machine.refresh_in_flight());
}

#[test]
fn a_store_that_refuses_the_batch_ends_the_refresh_and_keeps_nothing() {
    let mut db = Store::new();
    let mut machine = Refresher::new();
    let clash = vec![record("0xA", "same", vec![(TODAY, 1)]), record("0xB", "same", vec![(TODAY, 2)])];
    let (_, outcome) = run(&mut machine, &mut db, Timestamp { millis: T0 }, vec![Ok(clash)]);
    assert!(matches!(outcome, Some(Outcome::StoreFailed(Error::DbErr(_)))));
    assert_eq!(db, Store::new());
    assert!(!machine.refresh_in_flight());
    assert_eq!(active_users(&db), Ok(None));
}

#[test]
fn a_store_that_cannot_be_read_ends_the_refresh() {
    let failure = Error::DbErr("disk".to_string());
    let now = Timestamp { millis: T0 };
    for phase in [Phase::ReadingLastBatch, Phase::ReadingMembers { now, last: now }] {
        let mut machine = Refresher { phase };
        assert_eq!(
            machine.step(Event::ReadFailed(failure.clone())),
            Action::Finish(Outcome::StoreFailed(failure.clone()))
        );
        assert!(!machine.refresh_in_flight());
    }
}

#[test]
fn an_answer_that_was_not_asked_for_changes_nothing() {
    let now = Timestamp { millis: T0 };
    let mut idle = Refresher::new();
    assert_eq!(idle.step(Event::Stored(Ok(()))), Action::Ignore);
    assert_eq!(idle.step(Event::Fetched(Ok(vec![]))), Action::Ignore);
    assert_eq!(idle.step(Event::LastBatch { now, last: None }), Action::Ignore);
    assert_eq!(idle.step(Event::Members(None)), Action::Ignore);
    assert_eq!(idle.step(Event::ReadFailed(Error::InvalidDateRange)), Action::Ignore);
    assert_eq!(idle, Refresher::new());
    let mut storing = Refresher { phase: Phase::Storing };
    assert_eq!(storing.step(Event::Fetched(Ok(vec![]))), Action::Ignore);
    assert_eq!(storing.phase, Phase::Storing);
    let mut fetching = Refresher { phase: Phase::Fetching { now, pre: None } };
    assert_eq!(fetching.step(Event::Stored(Ok(()))), Action::Ignore);
    assert_eq!(fetching.step(Event::ReadFailed(Error::InvalidDateRange)), Action::Ignore);
    assert_eq!(fetching.phase, Phase::Fetching { now, pre: None });
}

#[test]
fn windows_of_a_refresh() {
    let today = Date { days: TODAY };
    assert_eq!(full_window(today), (Date { days: TODAY - 27 }, today));
    let at = |day: i64| Timestamp { millis: day * 86_400_000 + 3_600_000 };
    assert_eq!(incremental_window(at(TODAY - 5), today), (Date { days: TODAY - 4 }, today));
    assert_eq!(incremental_window(at(TODAY - 2), today), (Date { days: TODAY - 1 }, today));
    assert_eq!(incremental_window(at(TODAY - 1), today), (Date { days: TODAY - 1 }, today));
    assert_eq!(incremental_window(at(TODAY), today), (Date { days: TODAY - 1 }, today));
    assert_eq!(incremental_window(at(TODAY + 3), today), (Date { days: TODAY - 1 }, today));
    assert_eq!(incremental_window(at(TODAY - 400), today), (Date { days: TODAY - 399 }, today));
}

#[test]
fn a_refresh_after_some_days_fetches_from_the_day_after_the_last_batch() {
    let now = Timestamp { millis: T0 };
    let last = Timestamp { millis: T0 - 5 * 86_400_000 };
    let mut machine = Refresher { phase: Phase::ReadingLastBatch };
    assert_eq!(machine.step(Event::LastBatch { now, last: Some(last) }), Action::ReadMembers);
    assert_eq!(machine.phase, Phase::ReadingMembers { now, last });
    let pre = Some(vec![member("0xA", "alice")]);
    assert_eq!(
        machine.step(Event::Members(pre.clone())),
        Action::Fetch { start: Date { days: TODAY - 4 }, end: Date { days: TODAY } }
    );
    assert_eq!(machine.phase, Phase::Fetching { now, pre });
}

#[test]
fn asking_for_a_refresh_is_answered_at_once() {
    let mut machine = Refresher::new();
    assert_eq!(machine.trigger_refresh(), Disposition::Started);
    assert_eq!(machine.phase, Phase::ReadingLastBatch);
    assert_eq!(machine.trigger_refresh(), Disposition::Busy);
    assert_eq!(machine.phase, Phase::ReadingLastBatch);
    let mut storing = Refresher { phase: Phase::Storing };
    assert_eq!(storing.trigger_refresh(), Disposition::Busy);
    assert_eq!(storing.phase, Phase::Storing);
    assert_eq!(storing.step(Event::Stored(Ok(()))), Action::Finish(Outcome::Completed));
    assert_eq!(storing.trigger_refresh(), Disposition::Started);
}
