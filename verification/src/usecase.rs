//! What a refresh computes between its reads and its writes: the address to
//! fetch from, the rows to store, and the time of the last stored batch.

use vstd::prelude::*;
use vstd::string::StringExecFns;
use crate::date::Date;
use crate::date::Timestamp;
use crate::error::Error;
use crate::key::is_key_of;
use crate::pix;
use crate::record::Record;
use crate::refreshed_users;
use crate::refresh::member_ids;
use crate::store::Store;
use crate::student;
use crate::table::has_key;
use crate::table::Row;
use crate::user;
use crate::user_profile::PgnInfo;
use crate::user_profile::UserProfile;
use crate::user_profile::rolling_total;
use crate::user_profile::total_of;

verus! {

/// Most activity rows written by one statement.
pub const CHUNK_SIZE: usize = 512;

/// The millisecond time that the `ulid` crate reads from the text of a batch
/// key, where it accepts the text as a key.
pub uninterp spec fn ulid_timestamp_ms(text: Seq<char>) -> Option<int>;

/// The address that the `url` crate makes of a base address with the two
/// query parameters `start` and `end` added, where it accepts the base.
pub uninterp spec fn url_with_window(base: Seq<char>, start: Seq<char>, end: Seq<char>) -> Option<
    Seq<char>,
>;

/// Calls `ulid::Ulid::from_string` and, on the key it gives,
/// `timestamp_ms`. The contract names the outcome and adds that the time has
/// at most 48 bits, as the key keeps no more.
#[verifier::external_body]
fn ulid_decode_time(text: &str) -> (r: Option<u64>)
    ensures
        r is Some <==> ulid_timestamp_ms(text@) is Some,
        r matches Some(ms) ==> ulid_timestamp_ms(text@) == Some(ms as int) && ms
            < 0x1_0000_0000_0000,
{
    match ulid::Ulid::from_string(text) {
        Ok(key) => Some(key.timestamp_ms()),
        Err(_) => None,
    }
}

/// Calls `ulid::Ulid::from_datetime` for the instant `ms` milliseconds after
/// the epoch and writes the key as text. The rest of the key is random; the
/// contract claims only what holds of every such key: it has 26 characters,
/// its first ten characters write the time in Crockford's base 32, highest
/// digit first, and read back it gives the same time.
#[verifier::external_body]
fn ulid_new(ms: u64) -> (r: String)
    requires
        ms < 0x1_0000_0000_0000,
    ensures
        is_key_of(r@, ms as int),
        ulid_timestamp_ms(r@) == Some(ms as int),
{
    let at = std::time::SystemTime::UNIX_EPOCH + std::time::Duration::from_millis(ms);
    ulid::Ulid::from_datetime(at).to_string()
}

/// Calls `reqwest::Url::parse_with_params` with the parameters `start` and
/// `end`, and gives the address as text. The contract only names the outcome.
#[verifier::external_body]
fn build_url(base: &str, start: &str, end: &str) -> (r: Option<String>)
    ensures
        r is Some <==> url_with_window(base@, start@, end@) is Some,
        r matches Some(u) ==> url_with_window(base@, start@, end@) == Some(u@),
{
    match reqwest::Url::parse_with_params(base, [("start", start), ("end", end)]) {
        Ok(url) => Some(String::from(url)),
        Err(_) => None,
    }
}

/// Whether a window can be fetched: it starts before it ends.
pub fn window_is_valid(start: Date, end: Date) -> (r: bool)
    ensures
        r == (start.days < end.days),
{
    start.days < end.days
}

/// The two days of a window as they are written into the address, given the
/// text of each day where it has one. A window that does not start before it
/// ends is an invalid date range. A window in order with a day that has no
/// text, because the day lies outside the calendar, is a failure of its own.
pub fn window_texts(start: Date, end: Date, first: Option<String>, last: Option<String>) -> (r:
    Result<(String, String), Error>)
    ensures
        r matches Err(Error::InvalidDateRange) <==> start.days >= end.days,
        (start.days < end.days && (first is None || last is None)) <==> (r matches Err(
            Error::Other(m),
        ) && m@ == "date out of range"@),
        r is Ok <==> (start.days < end.days && first is Some && last is Some),
        r matches Ok(texts) ==> Some(texts.0) == first && Some(texts.1) == last,
{
    if !window_is_valid(start, end) {
        return Err(Error::InvalidDateRange);
    }
    match (first, last) {
        (Some(a), Some(b)) => Ok((a, b)),
        _ => Err(Error::Other(String::from_str("date out of range"))),
    }
}

/// The address to fetch from, given what was made of the base address: a
/// base that is no address is a failure.
pub fn fetch_target(built: Option<String>) -> (r: Result<String, Error>)
    ensures
        match built {
            Some(u) => r == Ok::<String, Error>(u),
            None => r matches Err(Error::Other(m)) && m@ == "invalid url"@,
        },
{
    match built {
        Some(u) => Ok(u),
        None => Err(Error::Other(String::from_str("invalid url"))),
    }
}

/// The address from which the records of a window are fetched: the base
/// address with the first and the last day of the window as the query
/// parameters `start` and `end`.
///
/// A window that does not start before it ends is refused as an invalid date
/// range, whatever the base. A day outside the calendar and a base that is no
/// address are failures of their own.
pub fn fetch_url(url: &str, start: Date, end: Date) -> (r: Result<String, Error>)
    ensures
        r matches Err(Error::InvalidDateRange) <==> start.days >= end.days,
        start.days < end.days ==> match (
            Date::text_of(start.days as int),
            Date::text_of(end.days as int),
        ) {
            (Some(first), Some(last)) => match url_with_window(url@, first, last) {
                Some(u) => r matches Ok(s) && s@ == u,
                None => r matches Err(Error::Other(m)) && m@ == "invalid url"@,
            },
            _ => r matches Err(Error::Other(m)) && m@ == "date out of range"@,
        },
{
    let (first, last) = match window_texts(start, end, start.format(), end.format()) {
        Ok(texts) => texts,
        Err(e) => {
            return Err(e);
        },
    };
    fetch_target(build_url(url, first.as_str(), last.as_str()))
}

/// The time of the latest batch, given what was read from its key: the
/// milliseconds that the key carries, or none where the key cannot be read,
/// which is a failure.
pub fn updated_at_from(decoded: Option<u64>) -> (r: Result<Option<Timestamp>, Error>)
    requires
        decoded matches Some(ms) ==> ms <= i64::MAX,
    ensures
        match decoded {
            Some(ms) => r == Ok::<Option<Timestamp>, Error>(Some(Timestamp { millis: ms as i64 })),
            None => r matches Err(Error::Other(m)) && m@ == "parse error"@,
        },
{
    match decoded {
        Some(ms) => Ok(Some(Timestamp { millis: ms as i64 })),
        None => Err(Error::Other(String::from_str("parse error"))),
    }
}

/// The time that the key of a batch carries. No key means that no batch was
/// ever stored; a key that cannot be read is a failure.
pub fn updated_at_of(latest_ulid: Option<&str>) -> (r: Result<Option<Timestamp>, Error>)
    ensures
        match latest_ulid {
            None => r == Ok::<Option<Timestamp>, Error>(None),
            Some(key) => match ulid_timestamp_ms(key@) {
                Some(ms) => r == Ok::<Option<Timestamp>, Error>(
                    Some(Timestamp { millis: ms as i64 }),
                ),
                None => r matches Err(Error::Other(m)) && m@ == "parse error"@,
            },
        },
{
    match latest_ulid {
        None => Ok(None),
        Some(key) => updated_at_from(ulid_decode_time(key)),
    }
}

/// What `get_last_updated_at` answers for the key of the latest batch.
pub open spec fn last_updated_at(latest: Option<Seq<char>>) -> Result<Option<Timestamp>, Seq<char>> {
    match latest {
        None => Ok(None),
        Some(key) => match ulid_timestamp_ms(key) {
            Some(ms) => Ok(Some(Timestamp { millis: ms as i64 })),
            None => Err("parse error"@),
        },
    }
}

/// The time of the latest batch, or none where no batch was ever stored.
pub fn get_last_updated_at(db: &Store) -> (r: Result<Option<Timestamp>, Error>)
    ensures
        match last_updated_at(db.latest()) {
            Ok(at) => r == Ok::<Option<Timestamp>, Error>(at),
            Err(msg) => r matches Err(Error::Other(m)) && m@ == msg,
        },
{
    match db.latest_ulid() {
        None => updated_at_of(None),
        Some(key) => updated_at_of(Some(key.as_str())),
    }
}

/// The rows of `users` whose wallet address is in `ids`, in their order.
pub open spec fn members_among(users: Seq<user::Model>, ids: Set<Seq<char>>) -> Seq<user::Model>
    decreases users.len(),
{
    if users.len() == 0 {
        Seq::empty()
    } else if ids.contains(users.last().id@) {
        members_among(users.drop_last(), ids).push(users.last())
    } else {
        members_among(users.drop_last(), ids)
    }
}

/// The rows picked out of a list of members are those whose wallet address
/// is asked for and held by the list.
pub proof fn lemma_members_among(users: Seq<user::Model>, ids: Set<Seq<char>>, id: Seq<char>)
    ensures
        member_ids(members_among(users, ids)).contains(id) <==> (ids.contains(id) && has_key(
            users,
            id,
        )),
    decreases users.len(),
{
    let picked = members_among(users, ids);
    if users.len() > 0 {
        let rest = users.drop_last();
        let last = users.last();
        lemma_members_among(rest, ids, id);
        let inner = members_among(rest, ids);
        if member_ids(picked).contains(id) {
            let w = choose|w: int| 0 <= w < picked.len() && (#[trigger] picked[w]).id@ == id;
            if ids.contains(last.id@) && w == picked.len() - 1 {
                assert(users[users.len() - 1].key() == id);
            } else {
                assert(inner[w].id@ == id);
                assert(member_ids(inner).contains(id));
                let v = choose|v: int| 0 <= v < rest.len() && (#[trigger] rest[v]).key() == id;
                assert(users[v].key() == id);
            }
        }
        if ids.contains(id) && has_key(users, id) {
            let v = choose|v: int| 0 <= v < users.len() && (#[trigger] users[v]).key() == id;
            if v == users.len() - 1 {
                assert(picked[picked.len() - 1].id@ == id);
            } else {
                assert(rest[v].key() == id);
                assert(member_ids(inner).contains(id));
                let w = choose|w: int| 0 <= w < inner.len() && (#[trigger] inner[w]).id@ == id;
                assert(picked[w].id@ == id);
            }
        }
    }
}

fn is_member(db: &Store, user_id: &String, ulid: &String) -> (r: bool)
    ensures
        r == db.members(ulid@).contains(user_id@),
{
    let mut i: usize = 0;
    while i < db.refreshed_users.len()
        invariant
            i <= db.refreshed_users@.len(),
            forall|k: int|
                0 <= k < i ==> (#[trigger] db.refreshed_users@[k]).key() != (user_id@, ulid@),
        decreases db.refreshed_users@.len() - i,
    {
        if db.refreshed_users[i].user_id == *user_id && db.refreshed_users[i].ulid == *ulid {
            return true;
        }
        i += 1;
    }
    false
}

/// The members that are active now: those of the latest batch. None where no
/// batch was ever stored.
pub fn active_users(db: &Store) -> (r: Result<Option<Vec<user::Model>>, Error>)
    ensures
        r is Ok,
        match db.latest() {
            None => r->Ok_0 is None,
            Some(ulid) => r->Ok_0 matches Some(users) && users@ == members_among(
                db.users@,
                db.members(ulid),
            ) && (db.members_known() ==> member_ids(users@) == db.members(ulid)),
        },
{
    let log_id = match db.latest_ulid() {
        Some(key) => key,
        None => {
            return Ok(None);
        },
    };
    let mut users: Vec<user::Model> = Vec::new();
    let mut i: usize = 0;
    while i < db.users.len()
        invariant
            i <= db.users@.len(),
            users@ == members_among(db.users@.take(i as int), db.members(log_id@)),
        decreases db.users@.len() - i,
    {
        proof {
            assert(db.users@.take(i + 1).drop_last() =~= db.users@.take(i as int));
        }
        if is_member(db, &db.users[i].id, &log_id) {
            users.push(db.users[i].duplicate());
        }
        i += 1;
    }
    proof {
        assert(db.users@.take(db.users@.len() as int) =~= db.users@);
        if db.members_known() {
            let ulid = log_id@;
            assert forall|id: Seq<char>| member_ids(users@).contains(id) == db.members(
                ulid,
            ).contains(id) by {
                lemma_members_among(db.users@, db.members(ulid), id);
                if db.members(ulid).contains(id) {
                    let w = choose|w: int|
                        0 <= w < db.refreshed_users@.len() && (
                        #[trigger] db.refreshed_users@[w]).key() == (id, ulid);
                    assert(db.refreshed_users@[w].user_id@ == id);
                }
            }
            assert(member_ids(users@) =~= db.members(ulid));
        }
    }
    Ok(Some(users))
}

/// Days of history that a profile shows.
pub const HISTORY_DAYS: usize = 28;

/// A member's profile, by the profile id: identity, student record, the last
/// 28 days of activity, and the rank and progress that their total gives.
///
/// There is no profile for an unknown id, and none before the first batch is
/// stored. A member without any stored day has a profile with a total of 0.
pub fn profile(db: &Store, now: Timestamp, pgrit_id: &str) -> (r: Result<
    Option<UserProfile>,
    Error,
>)
    requires
        db.wf(),
    ensures
        match db.user_by_pgrit(pgrit_id@) {
            None => r == Ok::<Option<UserProfile>, Error>(None),
            Some(user) => match last_updated_at(db.latest()) {
                Err(msg) => r matches Err(Error::Other(m)) && m@ == msg,
                Ok(None) => r == Ok::<Option<UserProfile>, Error>(None),
                Ok(Some(at)) => {
                    &&& r matches Ok(Some(p))
                    &&& p.user == user
                    &&& p.student == db.student_of(user.id@)
                    &&& p.created_at == now
                    &&& p.pgn.updated_at == at
                    &&& db.is_history(user.id@, HISTORY_DAYS as nat, p.pgn.daily@)
                    &&& p.pgn.describes(total_of(p.pgn.daily@) as u32)
                },
            },
        },
{
    let user = match db.find_by_pgrit(pgrit_id) {
        Some(u) => u.duplicate(),
        None => {
            return Ok(None);
        },
    };
    let updated_at = match get_last_updated_at(db) {
        Err(e) => {
            return Err(e);
        },
        Ok(None) => {
            return Ok(None);
        },
        Ok(Some(at)) => at,
    };
    let daily = db.user_history(&user.id, HISTORY_DAYS);
    let student = match db.find_student(&user.id) {
        Some(row) => Some(row.duplicate()),
        None => None,
    };
    let last_month = rolling_total(&daily);
    let pgn = PgnInfo::new(updated_at, daily, last_month);
    Ok(Some(UserProfile { user, student, created_at: now, pgn }))
}

/// The student record that a source record gives: one with every field
/// taken from the source record, or none where the source record leaves out
/// any field other than the leave date and the Discord id.
pub fn create_student_activemodel(record: &Record) -> (r: Option<student::Model>)
    ensures
        r == record.student_row(),
{
    let grade = match &record.grade {
        Some(g) => *g,
        None => {
            return None;
        },
    };
    let course = match &record.course {
        Some(v) => v.clone(),
        None => {
            return None;
        },
    };
    let level = match &record.level {
        Some(v) => *v,
        None => {
            return None;
        },
    };
    let sex = match &record.sex {
        Some(v) => *v,
        None => {
            return None;
        },
    };
    let join_date = match &record.join_date {
        Some(v) => *v,
        None => {
            return None;
        },
    };
    let office = match &record.office {
        Some(v) => v.clone(),
        None => {
            return None;
        },
    };
    let email = match &record.email {
        Some(v) => v.clone(),
        None => {
            return None;
        },
    };
    let email_of_4nonome = match &record.email_of_4nonome {
        Some(v) => v.clone(),
        None => {
            return None;
        },
    };
    let university = match &record.university {
        Some(v) => v.clone(),
        None => {
            return None;
        },
    };
    let major = match &record.major {
        Some(v) => v.clone(),
        None => {
            return None;
        },
    };
    let active = match &record.active {
        Some(v) => *v,
        None => {
            return None;
        },
    };
    let slack_id = match &record.slack_id {
        Some(v) => v.clone(),
        None => {
            return None;
        },
    };
    let discord_id = match &record.discord_id {
        Some(v) => Some(v.clone()),
        None => None,
    };
    Some(
        student::Model {
            user_id: record.wallet_address.clone(),
            degree_step: grade.degree_step,
            grade: grade.nth,
            course,
            level,
            sex,
            join_date,
            office,
            email,
            email_of_4nonome,
            university,
            major,
            leave_date: record.leave_date,
            active,
            slack_id,
            discord_id,
        },
    )
}

/// The rows of one refresh, as the statements of one transaction write them:
/// members first, then student records, then the members of the new batch,
/// then the activity rows, statement by statement.
#[derive(Debug, Clone, PartialEq, Eq)]
pub struct Batch {
    /// The key of the new batch.
    pub ulid: String,
    pub users: Vec<user::Model>,
    pub students: Vec<student::Model>,
    pub refreshed_users: Vec<refreshed_users::Model>,
    /// The activity rows, cut into statements of bounded size.
    pub pixes: Vec<Vec<pix::Model>>,
}

/// The student records that a list of source records gives, in order.
pub open spec fn student_rows(records: Seq<Record>) -> Seq<student::Model>
    decreases records.len(),
{
    if records.len() == 0 {
        Seq::empty()
    } else {
        match records.last().student_row() {
            Some(row) => student_rows(records.drop_last()).push(row),
            None => student_rows(records.drop_last()),
        }
    }
}

/// The activity rows that a list of source records gives: those of the first
/// record, then those of the second, and so on.
pub open spec fn all_pix_rows(records: Seq<Record>) -> Seq<pix::Model>
    decreases records.len(),
{
    if records.len() == 0 {
        Seq::empty()
    } else {
        all_pix_rows(records.drop_last()) + records.last().pix_rows()
    }
}

/// How many statements a number of rows is cut into.
pub open spec fn chunk_count(rows: nat) -> nat {
    ((rows + CHUNK_SIZE - 1) / (CHUNK_SIZE as int)) as nat
}

/// The `j`-th statement that a list of rows is cut into. Rows are taken from
/// the end of the list: the first statement holds the last 512 rows, last row
/// first, and only the last statement may hold fewer.
pub open spec fn chunk_of<T>(rows: Seq<T>, j: int) -> Seq<T> {
    let left = rows.len() - j * CHUNK_SIZE;
    let size = if left < CHUNK_SIZE { left } else { CHUNK_SIZE as int };
    Seq::new(size as nat, |i: int| rows[left - 1 - i])
}

/// Cuts rows into statements of at most 512 rows, taking them from the end.
pub fn chunk_rows<T>(rows: Vec<T>) -> (chunks: Vec<Vec<T>>)
    ensures
        chunks@.len() == chunk_count(rows@.len()),
        forall|j: int| 0 <= j < chunks@.len() ==> (#[trigger] chunks@[j])@ == chunk_of(rows@, j),
{
    let ghost all = rows@;
    let mut rows = rows;
    let mut chunks: Vec<Vec<T>> = Vec::new();
    while rows.len() > 0
        invariant
            rows@.len() <= all.len(),
            rows@ == all.take(rows@.len() as int),
            chunks@.len() == chunk_count((all.len() - rows@.len()) as nat),
            rows@.len() > 0 ==> all.len() - rows@.len() == chunks@.len() * CHUNK_SIZE,
            forall|j: int| 0 <= j < chunks@.len() ==> (#[trigger] chunks@[j])@ == chunk_of(all, j),
        decreases rows@.len(),
    {
        let ghost before = rows@;
        let mut items: Vec<T> = Vec::new();
        let mut taken: usize = 0;
        while taken < CHUNK_SIZE && rows.len() > 0
            invariant
                taken <= CHUNK_SIZE,
                taken <= before.len(),
                items@.len() == taken,
                rows@ == before.take(before.len() - taken),
                forall|i: int| 0 <= i < taken ==> #[trigger] items@[i] == before[before.len() - 1 - i],
            decreases CHUNK_SIZE - taken,
        {
            let item = rows.pop().unwrap();
            items.push(item);
            taken += 1;
        }
        proof {
            assert(items@ =~= chunk_of(all, chunks@.len() as int));
            assert(rows@ =~= all.take(rows@.len() as int));
        }
        chunks.push(items);
    }
    chunks
}

impl Batch {
    /// Whether every member of the batch has a member row in the batch.
    pub open spec fn names_its_members(self) -> bool {
        forall|i: int|
            0 <= i < self.refreshed_users@.len() ==> has_key(
                self.users@,
                (#[trigger] self.refreshed_users@[i]).user_id@,
            )
    }

    /// Whether the rows are those that a list of source records gives:
    /// one member and one membership of the batch for each record, a student
    /// record for each record that gives one, and every day of every record
    /// as an activity row.
    pub open spec fn is_plan_of(self, records: Seq<Record>) -> bool {
        &&& self.users@ == Seq::new(records.len(), |i: int| records[i].user_row())
        &&& self.refreshed_users@ == Seq::new(
            records.len(),
            |i: int| records[i].membership_row(self.ulid),
        )
        &&& self.students@ == student_rows(records)
        &&& self.pixes@.len() == chunk_count(all_pix_rows(records).len())
        &&& forall|j: int|
            0 <= j < self.pixes@.len() ==> (#[trigger] self.pixes@[j])@ == chunk_of(
                all_pix_rows(records),
                j,
            )
    }
}

/// The rows that records give name every member of the batch.
pub proof fn lemma_plan_names_its_members(batch: Batch, records: Seq<Record>)
    requires
        batch.is_plan_of(records),
    ensures
        batch.names_its_members(),
{
    assert forall|i: int| 0 <= i < batch.refreshed_users@.len() implies has_key(
        batch.users@,
        (#[trigger] batch.refreshed_users@[i]).user_id@,
    ) by {
        assert(batch.users@[i].key() == records[i].wallet_address@);
    }
}

/// The time that the key of a batch taken at `now` carries: the milliseconds
/// since the epoch, none before it, kept to 48 bits.
pub open spec fn batch_time(now: int) -> int {
    if now < 0 {
        0
    } else {
        now % 0x1_0000_0000_0000
    }
}

/// The rows that store a list of source records as the batch named `ulid`.
pub fn build_batch(ulid: String, records: &Vec<Record>) -> (batch: Batch)
    ensures
        batch.ulid == ulid,
        batch.is_plan_of(records@),
{
    let mut users: Vec<user::Model> = Vec::new();
    let mut refreshed_user_item: Vec<refreshed_users::Model> = Vec::new();
    let mut pixes: Vec<pix::Model> = Vec::new();
    let mut students: Vec<student::Model> = Vec::new();
    let n = records.len();
    let mut i: usize = 0;
    while i < n
        invariant
            n == records@.len(),
            i <= n,
            users@ == Seq::new(i as nat, |k: int| records@[k].user_row()),
            refreshed_user_item@ == Seq::new(i as nat, |k: int| records@[k].membership_row(ulid)),
            students@ == student_rows(records@.take(i as int)),
            pixes@ == all_pix_rows(records@.take(i as int)),
        decreases n - i,
    {
        let record = &records[i];
        proof {
            assert(records@.take(i + 1).drop_last() =~= records@.take(i as int));
            assert(records@.take(i + 1).last() == records@[i as int]);
        }
        if let Some(student) = create_student_activemodel(record) {
            students.push(student);
        }
        users.push(record.user());
        refreshed_user_item.push(record.membership(&ulid));
        let days = record.daily_totals.len();
        let ghost base = pixes@;
        let mut d: usize = 0;
        while d < days
            invariant
                days == record.daily_totals@.len(),
                d <= days,
                pixes@ == base + record.pix_rows().take(d as int),
            decreases days - d,
        {
            let day = &record.daily_totals[d];
            pixes.push(
                pix::Model { date: day.0, user_id: record.wallet_address.clone(), amount: day.1 },
            );
            proof {
                assert(record.pix_rows().take(d + 1) =~= record.pix_rows().take(d as int).push(
                    record.pix_row(d as int),
                ));
            }
            d += 1;
        }
        proof {
            assert(record.pix_rows().take(days as int) =~= record.pix_rows());
        }
        i += 1;
    }
    proof {
        assert(records@.take(n as int) =~= records@);
    }
    let chunks = chunk_rows(pixes);
    Batch { ulid, users, students, refreshed_users: refreshed_user_item, pixes: chunks }
}

/// The rows that store a list of source records as a new batch taken at
/// `now`. The key of the batch is new with every call; read back, it gives
/// the time of `now`.
pub fn insert(now: Timestamp, records: &Vec<Record>) -> (batch: Batch)
    ensures
        is_key_of(batch.ulid@, batch_time(now.millis as int)),
        ulid_timestamp_ms(batch.ulid@) == Some(batch_time(now.millis as int)),
        batch.is_plan_of(records@),
{
    let ms: u64 = if now.millis < 0 {
        0
    } else {
        (now.millis as u64) % 0x1_0000_0000_0000
    };
    let log_id = ulid_new(ms);
    build_batch(log_id, records)
}

} // verus!
