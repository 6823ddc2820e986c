use pgnpg::date::{Date, Timestamp};
use pgnpg::degree::Degree;
use pgnpg::error::Error;
use pgnpg::grade::Grade;
use pgnpg::level::Level;
use pgnpg::pgn_level::PgnLevel;
use pgnpg::record::Record;
use pgnpg::sex::Sex;
use pgnpg::store::Store;
use pgnpg::usecase::{active_users, build_batch, get_last_updated_at, insert, profile};
use pgnpg::user;

fn record(wallet: &str, id: &str, days: Vec<(i64, u32)>) -> Record {
    Record {
        id: id.to_string(),
        wallet_address: wallet.to_string(),
        grade: None,
        course: None,
        level: None,
        sex: None,
        join_date: None,
        join_month: None,
        office: None,
        email: None,
        email_of_4nonome: None,
        university: None,
        major: None,
        leave_date: None,
        active: None,
        slack_id: None,
        discord_id: None,
        total: 0,
        total_pgrit: 0,
        total_dawn: 0,
        total_other: 0,
        daily_totals: days.into_iter().map(|(d, a)| (Date { days: d }, a)).collect(),
    }
}

fn student(wallet: &str, id: &str, course: &str) -> Record {
    let mut r = record(wallet, id, vec![(1, 1)]);
    r.grade = Some(Grade { degree_step: Degree::Master, nth: 2 });
    r.course = Some(course.to_string());
    r.level = Some(Level::Lead);
    r.sex = Some(Sex::Male);
    r.join_date = Some(Date { days: 19000 });
    r.office = Some("osaka".to_string());
    r.email = Some("m@example.net".to_string());
    r.email_of_4nonome = Some("m@4nonome.example".to_string());
    r.university = Some("u".to_string());
    r.major = Some("ee".to_string());
    r.active = Some(true);
    r.slack_id = Some("U2".to_string());
    r
}

fn amounts(db: &Store) -> Vec<(String, i64, u32)> {
    let mut rows: Vec<(String, i64, u32)> =
        db.pixes.iter().map(|p| (p.user_id.clone(), p.date.days, p.amount)).collect();
    rows.sort();
    rows
}

fn ids(users: &[user::Model]) -> Vec<String> {
    let mut v: Vec<String> = users.iter().map(|u| u.id.clone()).collect();
    v.sort();
    v
}

const T0: i64 = 1_712_750_000_000;

#[test]
fn an_empty_store_has_no_data_yet() {
    let db = Store::new();
    assert_eq!(db.latest_ulid(), None);
    assert_eq!(get_last_updated_at(&db), Ok(None));
    assert_eq!(active_users(&db), Ok(None));
    assert_eq!(profile(&db, Timestamp { millis: T0 }, "alice"), Ok(None));
    assert_eq!(db.user_history(&"0xA".to_string(), 28), vec![]);
}

#[test]
fn a_batch_stores_members_days_and_membership() {
    let mut db = Store::new();
    let records = vec![record("0xA", "alice", vec![(10, 5), (11, 7)]), record("0xB", "bob", vec![(11, 1)])];
    let batch = insert(Timestamp { millis: T0 }, &records);
    assert_eq!(db.apply(&batch), Ok(()));
    assert_eq!(
        amounts(&db),
        vec![("0xA".to_string(), 10, 5), ("0xA".to_string(), 11, 7), ("0xB".to_string(), 11, 1)]
    );
    assert_eq!(db.users.len(), 2);
    assert_eq!(db.refreshed_users.len(), 2);
    assert_eq!(db.latest_ulid(), Some(batch.ulid.clone()));
    assert_eq!(get_last_updated_at(&db), Ok(Some(Timestamp { millis: T0 })));
    assert_eq!(ids(&active_users(&db).unwrap().unwrap()), vec!["0xA", "0xB"]);
}

#[test]
fn storing_the_same_records_again_changes_no_amount() {
    let mut db = Store::new();
    let records = vec![record("0xA", "alice", vec![(10, 5), (11, 7)]), student("0xB", "bob", "web")];
    assert_eq!(db.apply(&insert(Timestamp { millis: T0 }, &records)), Ok(()));
    let first = amounts(&db);
    let students = db.students.clone();
    let users = db.users.clone();
    assert_eq!(db.apply(&insert(Timestamp { millis: T0 + 1_800_000 }, &records)), Ok(()));
    assert_eq!(amounts(&db), first);
    assert_eq!(db.students, students);
    assert_eq!(db.users, users);
    assert_eq!(db.pixes.len(), 3);
    assert_eq!(db.refreshed_users.len(), 4);
}

#[test]
fn a_new_amount_replaces_the_stored_one() {
    let mut db = Store::new();
    let first = vec![record("0xA", "alice", vec![(10, 5), (11, 7)])];
    assert_eq!(db.apply(&insert(Timestamp { millis: T0 }, &first)), Ok(()));
    let second = vec![record("0xA", "alice", vec![(11, 100), (12, 1)])];
    assert_eq!(db.apply(&insert(Timestamp { millis: T0 + 1_800_000 }, &second)), Ok(()));
    assert_eq!(
        amounts(&db),
        vec![("0xA".to_string(), 10, 5), ("0xA".to_string(), 11, 100), ("0xA".to_string(), 12, 1)]
    );
    let third = vec![record("0xA", "alice", vec![(11, 0)])];
    assert_eq!(db.apply(&insert(Timestamp { millis: T0 + 3_600_000 }, &third)), Ok(()));
    assert_eq!(
        amounts(&db),
        vec![("0xA".to_string(), 10, 5), ("0xA".to_string(), 11, 0), ("0xA".to_string(), 12, 1)]
    );
}

#[test]
fn a_member_keeps_the_wallet_and_takes_the_new_profile_id() {
    let mut db = Store::new();
    assert_eq!(db.apply(&insert(Timestamp { millis: T0 }, &vec![record("0xA", "alice", vec![(1, 1)])])), Ok(()));
    assert_eq!(
        db.apply(&insert(Timestamp { millis: T0 + 1_800_000 }, &vec![record("0xA", "alicia", vec![(1, 1)])])),
        Ok(())
    );
    assert_eq!(db.users, vec![user::Model { id: "0xA".to_string(), pgrit_id: "alicia".to_string() }]);
    assert!(db.find_by_pgrit("alice").is_none());
    assert_eq!(db.find_by_pgrit("alicia").unwrap().id, "0xA");
}

#[test]
fn a_student_record_is_overwritten_whole() {
    let mut db = Store::new();
    let mut first = student("0xB", "bob", "web");
    first.discord_id = Some("bob#1".to_string());
    first.leave_date = Some(Date { days: 19500 });
    assert_eq!(db.apply(&insert(Timestamp { millis: T0 }, &vec![first])), Ok(()));
    let second = student("0xB", "bob", "infra");
    assert_eq!(db.apply(&insert(Timestamp { millis: T0 + 1_800_000 }, &vec![second])), Ok(()));
    assert_eq!(db.students.len(), 1);
    let kept = db.find_student(&"0xB".to_string()).unwrap();
    assert_eq!(kept.course, "infra");
    assert_eq!(kept.discord_id, None);
    assert_eq!(kept.leave_date, None);
    let third = record("0xB", "bob", vec![(2, 2)]);
    assert_eq!(db.apply(&insert(Timestamp { millis: T0 + 3_600_000 }, &vec![third])), Ok(()));
    assert_eq!(db.find_student(&"0xB".to_string()).unwrap().course, "infra");
    assert!(db.find_student(&"0xA".to_string()).is_none());
}

#[test]
fn a_batch_that_the_store_refuses_leaves_nothing_behind() {
    let mut db = Store::new();
    assert_eq!(
        db.apply(&insert(Timestamp { millis: T0 }, &vec![record("0xA", "alice", vec![(10, 5)])])),
        Ok(())
    );
    let before = db.clone();
    let clash = vec![record("0xC", "carol", vec![(10, 9)]), record("0xB", "alice", vec![(10, 1), (11, 2)])];
    let refused = db.apply(&insert(Timestamp { millis: T0 + 1_800_000 }, &clash));
    assert!(matches!(refused, Err(Error::DbErr(_))));
    assert_eq!(db, before);
    assert_eq!(ids(&active_users(&db).unwrap().unwrap()), vec!["0xA"]);
    assert_eq!(get_last_updated_at(&db), Ok(Some(Timestamp { millis: T0 })));
}

#[test]
fn two_members_may_swap_nothing_but_a_free_profile_id() {
    let mut db = Store::new();
    let both = vec![record("0xA", "alice", vec![]), record("0xB", "alice", vec![])];
    assert!(matches!(db.apply(&build_batch("K1".to_string(), &both)), Err(Error::DbErr(_))));
    assert_eq!(db, Store::new());
    let renamed = vec![record("0xA", "alice", vec![]), record("0xA", "al", vec![]), record("0xB", "alice", vec![])];
    assert_eq!(db.apply(&build_batch("K2".to_string(), &renamed)), Ok(()));
    assert_eq!(db.find_by_pgrit("alice").unwrap().id, "0xB");
    assert_eq!(db.find_by_pgrit("al").unwrap().id, "0xA");
}

#[test]
fn the_latest_batch_is_the_one_whose_key_sorts_last() {
    let mut db = Store::new();
    assert_eq!(db.apply(&build_batch("01B".to_string(), &vec![record("0xA", "alice", vec![]), record("0xB", "bob", vec![])])), Ok(()));
    assert_eq!(db.apply(&build_batch("01C".to_string(), &vec![record("0xB", "bob", vec![])])), Ok(()));
    assert_eq!(db.apply(&build_batch("01A".to_string(), &vec![record("0xC", "carol", vec![])])), Ok(()));
    assert_eq!(db.latest_ulid(), Some("01C".to_string()));
    assert_eq!(ids(&active_users(&db).unwrap().unwrap()), vec!["0xB"]);
    assert_eq!(db.users.len(), 3);
    assert_eq!(db.refreshed_users.len(), 4);
}

#[test]
fn a_batch_key_that_cannot_be_read_fails_the_time_but_not_the_members() {
    let mut db = Store::new();
    assert_eq!(db.apply(&build_batch("not a key".to_string(), &vec![record("0xA", "alice", vec![(1, 1)])])), Ok(()));
    assert_eq!(get_last_updated_at(&db), Err(Error::Other("parse error".to_string())));
    assert_eq!(ids(&active_users(&db).unwrap().unwrap()), vec!["0xA"]);
    assert_eq!(
        profile(&db, Timestamp { millis: T0 }, "alice"),
        Err(Error::Other("parse error".to_string()))
    );
}

#[test]
fn history_is_the_latest_days_latest_first() {
    let mut db = Store::new();
    let days: Vec<(i64, u32)> = vec![(3, 30), (1, 10), (5, 50), (2, 20), (4, 40)];
    let records = vec![record("0xA", "alice", days), record("0xB", "bob", vec![(9, 99)])];
    assert_eq!(db.apply(&insert(Timestamp { millis: T0 }, &records)), Ok(()));
    let a = "0xA".to_string();
    let d = |n: i64, amount: u32| (Date { days: n }, amount);
    assert_eq!(db.user_history(&a, 28), vec![d(5, 50), d(4, 40), d(3, 30), d(2, 20), d(1, 10)]);
    assert_eq!(db.user_history(&a, 5), vec![d(5, 50), d(4, 40), d(3, 30), d(2, 20), d(1, 10)]);
    assert_eq!(db.user_history(&a, 2), vec![d(5, 50), d(4, 40)]);
    assert_eq!(db.user_history(&a, 1), vec![d(5, 50)]);
    assert_eq!(db.user_history(&a, 0), vec![]);
    assert_eq!(db.user_history(&"0xB".to_string(), 28), vec![d(9, 99)]);
    assert_eq!(db.user_history(&"0xC".to_string(), 28), vec![]);
}

#[test]
fn a_profile_sums_the_last_28_days() {
    let mut db = Store::new();
    let days: Vec<(i64, u32)> = (0..40).map(|d| (19_800 + d as i64, 100)).collect();
    let mut alice = student("0xA", "alice", "web");
    alice.daily_totals = days.into_iter().map(|(d, a)| (Date { days: d }, a)).collect();
    assert_eq!(db.apply(&insert(Timestamp { millis: T0 }, &vec![alice, record("0xB", "bob", vec![(19_839, 5)])])), Ok(()));
    let now = Timestamp { millis: T0 + 60_000 };
    let p = profile(&db, now, "alice").unwrap().unwrap();
    assert_eq!(p.user, user::Model { id: "0xA".to_string(), pgrit_id: "alice".to_string() });
    assert_eq!(p.student.unwrap().course, "web");
    assert_eq!(p.created_at, now);
    assert_eq!(p.pgn.updated_at, Timestamp { millis: T0 });
    assert_eq!(p.pgn.daily.len(), 28);
    assert_eq!(p.pgn.daily[0], (Date { days: 19_839 }, 100));
    assert_eq!(p.pgn.daily[27], (Date { days: 19_812 }, 100));
    assert_eq!(p.pgn.last_month, 2800);
    assert_eq!(p.pgn.level, PgnLevel::Gold);
    assert_eq!(p.pgn.on_level, 300);
    assert_eq!(p.pgn.level_length, Some(2500));
    assert_eq!(p.pgn.target, Some(5000));
    assert_eq!(p.pgn.behind_next, Some(2200));
    assert_eq!(p.pgn.progress(), Some((300, 2500)));
    let b = profile(&db, now, "bob").unwrap().unwrap();
    assert_eq!(b.student, None);
    assert_eq!(b.pgn.last_month, 5);
    assert_eq!(b.pgn.level, PgnLevel::Iron);
}

#[test]
fn there_is_no_profile_for_an_unknown_member() {
    let mut db = Store::new();
    let records = vec![record("0xA", "alice", vec![(1, 1)]), record("0xB", "bob", vec![])];
    assert_eq!(db.apply(&insert(Timestamp { millis: T0 }, &records)), Ok(()));
    let now = Timestamp { millis: T0 };
    assert_eq!(profile(&db, now, "carol"), Ok(None));
    assert_eq!(profile(&db, now, "0xA"), Ok(None));
    assert_eq!(profile(&db, now, ""), Ok(None));
    assert!(profile(&db, now, "alice").unwrap().is_some());
}

#[test]
fn a_member_without_days_has_a_profile_at_the_bottom() {
    let mut db = Store::new();
    let records = vec![record("0xA", "alice", vec![(1, 1)]), record("0xB", "bob", vec![])];
    assert_eq!(db.apply(&insert(Timestamp { millis: T0 }, &records)), Ok(()));
    let now = Timestamp { millis: T0 + 5 };
    let p = profile(&db, now, "bob").unwrap().unwrap();
    assert_eq!(p.user, user::Model { id: "0xB".to_string(), pgrit_id: "bob".to_string() });
    assert_eq!(p.student, None);
    assert_eq!(p.created_at, now);
    assert_eq!(p.pgn.updated_at, Timestamp { millis: T0 });
    assert_eq!(p.pgn.daily, vec![]);
    assert_eq!(p.pgn.last_month, 0);
    assert_eq!(p.pgn.level, PgnLevel::Iron);
    assert_eq!(p.pgn.on_level, 0);
    assert_eq!(p.pgn.level_length, Some(500));
    assert_eq!(p.pgn.target, Some(500));
    assert_eq!(p.pgn.behind_next, Some(500));
    assert_eq!(p.pgn.progress(), Some((0, 500)));
}

#[test]
fn there_is_no_profile_before_the_first_batch() {
    let mut db = Store::new();
    db.users.push(user::Model { id: "0xA".to_string(), pgrit_id: "alice".to_string() });
    assert!(db.is_well_formed());
    assert_eq!(profile(&db, Timestamp { millis: T0 }, "alice"), Ok(None));
}

#[test]
fn a_total_beyond_32_bits_is_held_at_the_top() {
    let mut db = Store::new();
    let records = vec![record("0xA", "alice", vec![(1, u32::MAX), (2, u32::MAX), (3, 7)])];
    assert_eq!(db.apply(&insert(Timestamp { millis: T0 }, &records)), Ok(()));
    let p = profile(&db, Timestamp { millis: T0 }, "alice").unwrap().unwrap();
    assert_eq!(p.pgn.last_month, u32::MAX);
    assert_eq!(p.pgn.level, PgnLevel::GrandMaster);
    assert_eq!(p.pgn.progress(), None);
}

#[test]
fn records_are_stored_as_a_batch_of_their_time() {
    let mut db = Store::new();
    let at = Timestamp { millis: T0 };
    assert_eq!(db.upsert_batch(&vec![record("0xA", "alice", vec![(10, 5)])], at), Ok(()));
    assert_eq!(get_last_updated_at(&db), Ok(Some(at)));
    assert_eq!(amounts(&db), vec![("0xA".to_string(), 10, 5)]);
    assert!(db.is_well_formed());
    let before = db.clone();
    let clash = vec![record("0xB", "alice", vec![(10, 1)])];
    assert!(matches!(db.upsert_batch(&clash, Timestamp { millis: T0 + 1 }), Err(Error::DbErr(_))));
    assert_eq!(db, before);
}

#[test]
fn rows_with_a_repeated_key_are_no_store() {
    let mut db = Store::new();
    assert!(db.is_well_formed());
    assert_eq!(db.upsert_batch(&vec![record("0xA", "alice", vec![(10, 5)])], Timestamp { millis: T0 }), Ok(()));
    let mut twice = db.clone();
    twice.pixes.push(db.pixes[0].clone());
    assert!(!twice.is_well_formed());
    let mut two_names = db.clone();
    two_names.users.push(user::Model { id: "0xB".to_string(), pgrit_id: "alice".to_string() });
    assert!(!two_names.is_well_formed());
    let mut same_member = db.clone();
    same_member.users.push(user::Model { id: "0xA".to_string(), pgrit_id: "al".to_string() });
    assert!(!same_member.is_well_formed());
    let mut fine = db.clone();
    fine.users.push(user::Model { id: "0xB".to_string(), pgrit_id: "bob".to_string() });
    assert!(fine.is_well_formed());
}

#[test]
fn what_was_fetched_is_what_is_stored() {
    let mut db = Store::new();
    let old = vec![record("0xA", "alice", vec![(10, 1), (11, 1)]), record("0xC", "carol", vec![(10, 9)])];
    assert_eq!(db.upsert_batch(&old, Timestamp { millis: T0 }), Ok(()));
    let fetched = vec![
        record("0xA", "alice", vec![(11, 7), (12, 8)]),
        record("0xB", "bob", vec![(12, 3)]),
    ];
    assert!(fetched.iter().all(|r| r.has_unique_days()));
    assert_eq!(db.upsert_batch(&fetched, Timestamp { millis: T0 + 1_800_000 }), Ok(()));
    for r in &fetched {
        let history = db.user_history(&r.wallet_address, 28);
        for day in &r.daily_totals {
            assert!(history.contains(day));
        }
    }
    assert_eq!(ids(&active_users(&db).unwrap().unwrap()), vec!["0xA", "0xB"]);
    assert_eq!(db.user_history(&"0xA".to_string(), 28).len(), 3);
}
