//! The reconciliation store: members, their student records, their daily
//! activity, and the members of every batch. A batch is written whole or not
//! at all.

use vstd::prelude::*;
use vstd::string::StringExecFns;
use crate::date::Date;
use crate::date::Timestamp;
use crate::error::Error;
use crate::key::is_key_of;
use crate::key::lemma_later_keys_sort_later;
use crate::pix;
use crate::record::Record;
use crate::refresh::record_ids;
use crate::refreshed_users;
use crate::student;
use crate::table::Row;
use crate::table::copy_rows;
use crate::table::flat;
use crate::table::has_key;
use crate::table::is_unique;
use crate::table::last_with_key;
use crate::table::lemma_lookup_unique;
use crate::table::lemma_upsert_all_idempotent;
use crate::table::lemma_upsert_all_lookup;
use crate::table::lemma_upsert_all_replaces;
use crate::table::table_map;
use crate::table::unique;
use crate::table::upsert;
use crate::table::upsert_all;
use crate::table::upsert_chunks;
use crate::table::upsert_each;
use crate::text::lemma_lex_antisymmetric;
use crate::text::lemma_lex_total;
use crate::text::lemma_lex_transitive;
use crate::text::lex_le;
use crate::text::str_eq;
use crate::text::str_le;
use crate::usecase::Batch;
use crate::usecase::CHUNK_SIZE;
use crate::usecase::all_pix_rows;
use crate::usecase::batch_time;
use crate::usecase::chunk_count;
use crate::usecase::chunk_of;
use crate::usecase::insert;
use crate::usecase::lemma_plan_names_its_members;
use crate::usecase::student_rows;
use crate::usecase::ulid_timestamp_ms;
use crate::user;

verus! {

/// The four tables of the store.
#[derive(Debug, Clone, PartialEq, Eq)]
pub struct Store {
    pub users: Vec<user::Model>,
    pub students: Vec<student::Model>,
    pub pixes: Vec<pix::Model>,
    pub refreshed_users: Vec<refreshed_users::Model>,
}

/// Whether no two members have the same profile id.
pub open spec fn pgrit_unique(users: Map<Seq<char>, user::Model>) -> bool {
    forall|a: Seq<char>, b: Seq<char>|
        users.dom().contains(a) && users.dom().contains(b) && a != b ==> (#[trigger] users[a]).pgrit_id@
            != (#[trigger] users[b]).pgrit_id@
}

/// Whether another member already has the profile id of `row`.
pub open spec fn pgrit_taken(users: Map<Seq<char>, user::Model>, row: user::Model) -> bool {
    exists|id: Seq<char>|
        users.dom().contains(id) && id != row.id@ && (#[trigger] users[id]).pgrit_id@
            == row.pgrit_id@
}

/// The members after rows were written one after the other, each replacing
/// the member with its wallet address; `None` where a row would give a
/// member the profile id of another member, which the store refuses.
pub open spec fn users_after(users: Map<Seq<char>, user::Model>, rows: Seq<user::Model>) -> Option<
    Map<Seq<char>, user::Model>,
>
    decreases rows.len(),
{
    if rows.len() == 0 {
        Some(users)
    } else {
        match users_after(users, rows.drop_last()) {
            None => None,
            Some(held) => if pgrit_taken(held, rows.last()) {
                None
            } else {
                Some(held.insert(rows.last().id@, rows.last()))
            },
        }
    }
}

fn is_pgrit_taken(users: &Vec<user::Model>, row: &user::Model) -> (r: bool)
    requires
        unique(users@),
    ensures
        r == pgrit_taken(table_map(users@), *row),
{
    let mut i: usize = 0;
    while i < users.len()
        invariant
            i <= users@.len(),
            unique(users@),
            forall|k: int|
                0 <= k < i ==> !((#[trigger] users@[k]).id@ != row.id@ && users@[k].pgrit_id@
                    == row.pgrit_id@),
        decreases users@.len() - i,
    {
        if users[i].id != row.id && users[i].pgrit_id == row.pgrit_id {
            proof {
                lemma_lookup_unique(users@, i as int);
                assert(table_map(users@).dom().contains(users@[i as int].id@));
                assert(table_map(users@)[users@[i as int].id@] == users@[i as int]);
            }
            return true;
        }
        i += 1;
    }
    proof {
        let held = table_map(users@);
        assert forall|id: Seq<char>|
            held.dom().contains(id) && id != row.id@ implies (#[trigger] held[id]).pgrit_id@
            != row.pgrit_id@ by {
            let k = choose|k: int| 0 <= k < users@.len() && (#[trigger] users@[k]).key() == id;
            lemma_lookup_unique(users@, k);
        }
    }
    false
}

/// Writes member rows one after the other. It stops at the first row that
/// the store refuses and says so; the table is then left half written.
fn write_users(users: &mut Vec<user::Model>, rows: &Vec<user::Model>) -> (r: bool)
    requires
        unique(old(users)@),
        pgrit_unique(table_map(old(users)@)),
    ensures
        r == (users_after(table_map(old(users)@), rows@) is Some),
        r ==> unique(final(users)@) && pgrit_unique(table_map(final(users)@)) && Some(
            table_map(final(users)@),
        ) == users_after(table_map(old(users)@), rows@),
{
    let ghost held = table_map(users@);
    let mut i: usize = 0;
    while i < rows.len()
        invariant
            i <= rows@.len(),
            unique(users@),
            pgrit_unique(table_map(users@)),
            held == table_map(old(users)@),
            users_after(held, rows@.take(i as int)) == Some(table_map(users@)),
        decreases rows@.len() - i,
    {
        proof {
            assert(rows@.take(i + 1).drop_last() =~= rows@.take(i as int));
            assert(rows@.take(i + 1).last() == rows@[i as int]);
        }
        if is_pgrit_taken(users, &rows[i]) {
            proof {
                assert(users_after(held, rows@.take(i + 1)) is None);
                lemma_users_after_fails_for_good(held, rows@, i + 1);
            }
            return false;
        }
        let ghost before = table_map(users@);
        upsert(users, rows[i].duplicate());
        proof {
            let after = table_map(users@);
            let row = rows@[i as int];
            assert(after == before.insert(row.id@, row));
            assert forall|a: Seq<char>, b: Seq<char>|
                after.dom().contains(a) && after.dom().contains(b) && a != b implies (
            #[trigger] after[a]).pgrit_id@ != (#[trigger] after[b]).pgrit_id@ by {
                if a == row.id@ {
                    assert(before.dom().contains(b));
                    assert(before[b].pgrit_id@ != row.pgrit_id@);
                } else if b == row.id@ {
                    assert(before.dom().contains(a));
                    assert(before[a].pgrit_id@ != row.pgrit_id@);
                } else {
                    assert(before[a].pgrit_id@ != before[b].pgrit_id@);
                }
            }
        }
        i += 1;
    }
    proof {
        assert(rows@.take(rows@.len() as int) =~= rows@);
    }
    true
}

/// Once a row was refused, the rows after it change nothing about that.
pub proof fn lemma_users_after_fails_for_good(
    users: Map<Seq<char>, user::Model>,
    rows: Seq<user::Model>,
    k: int,
)
    requires
        0 <= k <= rows.len(),
        users_after(users, rows.take(k)) is None,
    ensures
        users_after(users, rows) is None,
    decreases rows.len() - k,
{
    if k == rows.len() {
        assert(rows.take(k) =~= rows);
    } else {
        assert(rows.take(k + 1).drop_last() =~= rows.take(k));
        lemma_users_after_fails_for_good(users, rows, k + 1);
    }
}

impl Store {
    /// What the store keeps true of itself: no key occurs twice in a table,
    /// and no two members have the same profile id.
    pub open spec fn wf(self) -> bool {
        &&& unique(self.users@)
        &&& unique(self.students@)
        &&& unique(self.pixes@)
        &&& unique(self.refreshed_users@)
        &&& pgrit_unique(table_map(self.users@))
    }

    /// The amount stored for a member and a day.
    pub open spec fn amount(self, user: Seq<char>, day: int) -> Option<u32> {
        if has_key(self.pixes@, (user, day)) {
            Some(table_map(self.pixes@)[(user, day)].amount)
        } else {
            None
        }
    }

    /// Whether a batch with the key was stored.
    pub open spec fn has_batch(self, ulid: Seq<char>) -> bool {
        exists|i: int|
            0 <= i < self.refreshed_users@.len() && (#[trigger] self.refreshed_users@[i]).ulid@
                == ulid
    }

    /// Whether the key is that of the latest batch: the stored key that sorts
    /// after every other.
    pub open spec fn is_latest(self, ulid: Seq<char>) -> bool {
        &&& self.has_batch(ulid)
        &&& forall|i: int|
            0 <= i < self.refreshed_users@.len() ==> lex_le(
                (#[trigger] self.refreshed_users@[i]).ulid@,
                ulid,
            )
    }

    /// The wallet addresses of the members of a batch.
    pub open spec fn members(self, ulid: Seq<char>) -> Set<Seq<char>> {
        Set::new(|id: Seq<char>| has_key(self.refreshed_users@, (id, ulid)))
    }

    /// Whether every member of every batch has a row in the member table.
    pub open spec fn members_known(self) -> bool {
        forall|i: int|
            0 <= i < self.refreshed_users@.len() ==> has_key(
                self.users@,
                (#[trigger] self.refreshed_users@[i]).user_id@,
            )
    }

    /// What the store holds after a batch, or `None` where the store refuses
    /// the batch.
    pub open spec fn after(self, batch: Batch) -> Option<StoreMaps> {
        self.maps().after(batch)
    }

    /// What the store holds.
    pub open spec fn maps(self) -> StoreMaps {
        StoreMaps {
            users: table_map(self.users@),
            students: table_map(self.students@),
            pixes: table_map(self.pixes@),
            refreshed_users: table_map(self.refreshed_users@),
        }
    }

    /// The key of the latest batch, if any batch was stored.
    pub open spec fn latest(self) -> Option<Seq<char>> {
        if self.refreshed_users@.len() == 0 {
            None
        } else {
            Some(choose|ulid: Seq<char>| self.is_latest(ulid))
        }
    }

    /// The member with a profile id, if there is one.
    pub open spec fn user_by_pgrit(self, pgrit_id: Seq<char>) -> Option<user::Model> {
        if exists|i: int| 0 <= i < self.users@.len() && (#[trigger] self.users@[i]).pgrit_id@ == pgrit_id {
            Some(
                self.users@[choose|i: int|
                    0 <= i < self.users@.len() && (#[trigger] self.users@[i]).pgrit_id@
                        == pgrit_id],
            )
        } else {
            None
        }
    }

    /// The student record of a member, if there is one.
    pub open spec fn student_of(self, user: Seq<char>) -> Option<student::Model> {
        if has_key(self.students@, user) {
            Some(table_map(self.students@)[user])
        } else {
            None
        }
    }

    /// Whether `h` is the history of a member cut at `limit` days: the
    /// member's latest days with their amounts, latest first, and no day left
    /// out unless the limit is reached and the day is earlier than all in `h`.
    pub open spec fn is_history(self, user: Seq<char>, limit: nat, h: Seq<(Date, u32)>) -> bool {
        &&& h.len() <= limit
        &&& forall|i: int|
            0 <= i < h.len() ==> self.amount(user, (#[trigger] h[i]).0.days as int) == Some(h[i].1)
        &&& forall|i: int, j: int|
            0 <= i < j < h.len() ==> (#[trigger] h[i]).0.days > (#[trigger] h[j]).0.days
        &&& forall|d: int| #[trigger]
            has_key(self.pixes@, (user, d)) ==> {
                ||| exists|i: int| 0 <= i < h.len() && (#[trigger] h[i]).0.days == d
                ||| (h.len() == limit && (limit == 0 || d < h[h.len() - 1].0.days))
            }
    }

    /// Whether the store is well formed; rows that come from elsewhere are
    /// checked with this before they are used as a store.
    pub fn is_well_formed(&self) -> (r: bool)
        ensures
            r == self.wf(),
    {
        if !(is_unique(&self.users) && is_unique(&self.students) && is_unique(&self.pixes)
            && is_unique(&self.refreshed_users)) {
            return false;
        }
        let n = self.users.len();
        let ghost held = table_map(self.users@);
        let mut i: usize = 0;
        while i < n
            invariant
                n == self.users@.len(),
                i <= n,
                unique(self.users@),
                held == table_map(self.users@),
                forall|a: int, b: int|
                    0 <= a < i && 0 <= b < a ==> (#[trigger] self.users@[a]).pgrit_id@ != (
                    #[trigger] self.users@[b]).pgrit_id@,
            decreases n - i,
        {
            let mut j: usize = 0;
            while j < i
                invariant
                    n == self.users@.len(),
                    i < n,
                    j <= i,
                    unique(self.users@),
                    held == table_map(self.users@),
                    forall|b: int|
                        0 <= b < j ==> self.users@[i as int].pgrit_id@ != (
                        #[trigger] self.users@[b]).pgrit_id@,
                decreases i - j,
            {
                if self.users[i].pgrit_id == self.users[j].pgrit_id {
                    proof {
                        lemma_lookup_unique(self.users@, i as int);
                        lemma_lookup_unique(self.users@, j as int);
                        assert(held.dom().contains(self.users@[i as int].id@));
                        assert(held.dom().contains(self.users@[j as int].id@));
                        assert(held[self.users@[i as int].id@].pgrit_id@ == held[self.users@[j as int].id@].pgrit_id@);
                    }
                    return false;
                }
                j += 1;
            }
            i += 1;
        }
        proof {
            assert forall|a: Seq<char>, b: Seq<char>|
                held.dom().contains(a) && held.dom().contains(b) && a != b implies (
            #[trigger] held[a]).pgrit_id@ != (#[trigger] held[b]).pgrit_id@ by {
                let x = choose|x: int| 0 <= x < n && (#[trigger] self.users@[x]).key() == a;
                let y = choose|y: int| 0 <= y < n && (#[trigger] self.users@[y]).key() == b;
                lemma_lookup_unique(self.users@, x);
                lemma_lookup_unique(self.users@, y);
                if y < x {
                    assert(self.users@[x].pgrit_id@ != self.users@[y].pgrit_id@);
                } else {
                    assert(self.users@[y].pgrit_id@ != self.users@[x].pgrit_id@);
                }
            }
        }
        true
    }

    /// An empty store.
    pub fn new() -> (r: Store)
        ensures
            r.wf(),
            r.users@.len() == 0,
            r.students@.len() == 0,
            r.pixes@.len() == 0,
            r.refreshed_users@.len() == 0,
    {
        Store {
            users: Vec::new(),
            students: Vec::new(),
            pixes: Vec::new(),
            refreshed_users: Vec::new(),
        }
    }

    /// Writes a batch in one transaction: the members, then the student
    /// records, then the members of the batch, then the activity rows. A row
    /// replaces the row with its key. Where the store refuses a row, nothing
    /// of the batch is kept.
    pub fn apply(&mut self, batch: &Batch) -> (r: Result<(), Error>)
        requires
            old(self).wf(),
        ensures
            final(self).wf(),
            match old(self).after(*batch) {
                Some(held) => r is Ok && final(self).maps() == held,
                None => r matches Err(Error::DbErr(_)) && *final(self) == *old(self),
            },
            (old(self).members_known() && batch.names_its_members())
                ==> final(self).members_known(),
    {
        let mut users = copy_rows(&self.users);
        if !write_users(&mut users, &batch.users) {
            return Err(Error::DbErr(String::from_str("UNIQUE constraint failed: users.pgrit_id")));
        }
        let ghost before = *self;
        self.users = users;
        upsert_each(&mut self.students, &batch.students);
        upsert_each(&mut self.refreshed_users, &batch.refreshed_users);
        upsert_chunks(&mut self.pixes, &batch.pixes);
        proof {
            if before.members_known() && batch.names_its_members() {
                lemma_members_stay_known(before, *self, *batch);
            }
        }
        Ok(())
    }

    /// Stores records as a new batch taken at `observed_at`, in one
    /// transaction: the rows are those that the records give, under a new key
    /// that carries the time.
    pub fn upsert_batch(&mut self, records: &Vec<Record>, observed_at: Timestamp) -> (r: Result<
        (),
        Error,
    >)
        requires
            old(self).wf(),
        ensures
            final(self).wf(),
            exists|batch: Batch|
                {
                    &&& #[trigger] batch.is_plan_of(records@)
                    &&& is_key_of(batch.ulid@, batch_time(observed_at.millis as int))
                    &&& ulid_timestamp_ms(batch.ulid@) == Some(batch_time(observed_at.millis as int))
                    &&& match old(self).after(batch) {
                        Some(held) => r is Ok && final(self).maps() == held,
                        None => r matches Err(Error::DbErr(_)) && *final(self) == *old(self),
                    }
                },
            old(self).members_known() ==> final(self).members_known(),
    {
        let batch = insert(observed_at, records);
        proof {
            lemma_plan_names_its_members(batch, records@);
        }
        self.apply(&batch)
    }

    /// The key of the latest batch, if any batch was stored.
    pub fn latest_ulid(&self) -> (r: Option<String>)
        ensures
            r is None <==> self.refreshed_users@.len() == 0,
            r matches Some(ulid) ==> self.is_latest(ulid@),
            r is None <==> self.latest() is None,
            r matches Some(ulid) ==> self.latest() == Some(ulid@),
    {
        let n = self.refreshed_users.len();
        if n == 0 {
            return None;
        }
        let mut best: usize = 0;
        let mut i: usize = 1;
        proof {
            lemma_lex_total(self.refreshed_users@[0].ulid@, self.refreshed_users@[0].ulid@);
        }
        while i < n
            invariant
                n == self.refreshed_users@.len(),
                best < i <= n,
                forall|k: int|
                    0 <= k < i ==> lex_le(
                        (#[trigger] self.refreshed_users@[k]).ulid@,
                        self.refreshed_users@[best as int].ulid@,
                    ),
            decreases n - i,
        {
            let ghost top = self.refreshed_users@[best as int].ulid@;
            let ghost here = self.refreshed_users@[i as int].ulid@;
            if str_le(self.refreshed_users[best].ulid.as_str(), self.refreshed_users[i].ulid.as_str()) {
                proof {
                    assert forall|k: int| 0 <= k < i + 1 implies lex_le(
                        (#[trigger] self.refreshed_users@[k]).ulid@,
                        here,
                    ) by {
                        if k < i {
                            lemma_lex_transitive(self.refreshed_users@[k].ulid@, top, here);
                        } else {
                            lemma_lex_total(here, here);
                        }
                    }
                }
                best = i;
            } else {
                proof {
                    lemma_lex_total(top, here);
                }
            }
            i += 1;
        }
        proof {
            let found = self.refreshed_users@[best as int].ulid@;
            assert(self.is_latest(found));
            lemma_latest_is_unique(*self, found, choose|ulid: Seq<char>| self.is_latest(ulid));
        }
        Some(self.refreshed_users[best].ulid.clone())
    }
    /// The member with a profile id, if there is one.
    pub fn find_by_pgrit(&self, pgrit_id: &str) -> (r: Option<&user::Model>)
        requires
            self.wf(),
        ensures
            r is Some <==> self.user_by_pgrit(pgrit_id@) is Some,
            r matches Some(u) ==> self.user_by_pgrit(pgrit_id@) == Some(*u),
    {
        let mut i: usize = 0;
        while i < self.users.len()
            invariant
                self.wf(),
                i <= self.users@.len(),
                forall|k: int| 0 <= k < i ==> (#[trigger] self.users@[k]).pgrit_id@ != pgrit_id@,
            decreases self.users@.len() - i,
        {
            if str_eq(self.users[i].pgrit_id.as_str(), pgrit_id) {
                proof {
                    let w = choose|w: int|
                        0 <= w < self.users@.len() && (#[trigger] self.users@[w]).pgrit_id@
                            == pgrit_id@;
                    if w != i {
                        lemma_lookup_unique(self.users@, w);
                        lemma_lookup_unique(self.users@, i as int);
                        let held = table_map(self.users@);
                        assert(held[self.users@[w].id@].pgrit_id@ != held[self.users@[i as int].id@].pgrit_id@);
                    }
                }
                return Some(&self.users[i]);
            }
            i += 1;
        }
        None
    }

    /// The student record of a member, if there is one.
    pub fn find_student(&self, user_id: &String) -> (r: Option<&student::Model>)
        requires
            self.wf(),
        ensures
            r is Some <==> self.student_of(user_id@) is Some,
            r matches Some(row) ==> self.student_of(user_id@) == Some(*row),
    {
        let mut i: usize = 0;
        while i < self.students.len()
            invariant
                self.wf(),
                i <= self.students@.len(),
                forall|k: int| 0 <= k < i ==> (#[trigger] self.students@[k]).key() != user_id@,
            decreases self.students@.len() - i,
        {
            if self.students[i].user_id == *user_id {
                proof {
                    lemma_lookup_unique(self.students@, i as int);
                }
                return Some(&self.students[i]);
            }
            i += 1;
        }
        None
    }

    /// The history of a member: the latest days with their amounts, latest
    /// day first, at most `limit` of them.
    pub fn user_history(&self, user_id: &String, limit: usize) -> (h: Vec<(Date, u32)>)
        requires
            self.wf(),
        ensures
            self.is_history(user_id@, limit as nat, h@),
    {
        let n = self.pixes.len();
        let mut h: Vec<(Date, u32)> = Vec::new();
        while h.len() < limit
            invariant
                n == self.pixes@.len(),
                self.wf(),
                h@.len() <= limit,
                forall|i: int|
                    0 <= i < h@.len() ==> self.amount(user_id@, (#[trigger] h@[i]).0.days as int) == Some(
                        h@[i].1,
                    ),
                forall|i: int, j: int|
                    0 <= i < j < h@.len() ==> (#[trigger] h@[i]).0.days > (#[trigger] h@[j]).0.days,
                forall|k: int|
                    0 <= k < n && (#[trigger] self.pixes@[k]).user_id@ == user_id@ && h@.len() > 0
                        && self.pixes@[k].date.days >= h@[h@.len() - 1].0.days ==> exists|i: int|
                        0 <= i < h@.len() && (#[trigger] h@[i]).0.days == self.pixes@[k].date.days,
            ensures
                self.is_history(user_id@, limit as nat, h@),
            decreases limit - h@.len(),
        {
            let bounded = h.len() > 0;
            let bound: i64 = if bounded {
                h[h.len() - 1].0.days
            } else {
                0
            };
            let mut best: Option<usize> = None;
            let mut k: usize = 0;
            while k < n
                invariant
                    n == self.pixes@.len(),
                    k <= n,
                    best matches Some(b) ==> b < k && self.pixes@[b as int].user_id@ == user_id@
                        && (bounded ==> self.pixes@[b as int].date.days < bound),
                    forall|q: int|
                        0 <= q < k && (#[trigger] self.pixes@[q]).user_id@ == user_id@ && (bounded
                            ==> self.pixes@[q].date.days < bound) ==> best is Some
                            && self.pixes@[q].date.days <= self.pixes@[best->Some_0 as int].date.days,
                decreases n - k,
            {
                let row = &self.pixes[k];
                if row.user_id == *user_id && (!bounded || row.date.days < bound) {
                    let better = match best {
                        None => true,
                        Some(b) => row.date.days > self.pixes[b].date.days,
                    };
                    if better {
                        best = Some(k);
                    }
                }
                k += 1;
            }
            match best {
                None => {
                    proof {
                        assert forall|d: int| #[trigger]
                            has_key(self.pixes@, (user_id@, d)) implies exists|i: int|
                            0 <= i < h@.len() && (#[trigger] h@[i]).0.days == d by {
                            let q = choose|q: int|
                                0 <= q < n && (#[trigger] self.pixes@[q]).key() == (user_id@, d);
                            assert(self.pixes@[q].user_id@ == user_id@);
                        }
                    }
                    break ;
                },
                Some(b) => {
                    let ghost before = h@;
                    proof {
                        lemma_lookup_unique(self.pixes@, b as int);
                    }
                    h.push((self.pixes[b].date, self.pixes[b].amount));
                    proof {
                        let picked = self.pixes@[b as int].date.days;
                        assert forall|q: int|
                            0 <= q < n && (#[trigger] self.pixes@[q]).user_id@ == user_id@
                                && self.pixes@[q].date.days >= picked implies exists|i: int|
                            0 <= i < h@.len() && (#[trigger] h@[i]).0.days
                                == self.pixes@[q].date.days by {
                            if bounded && self.pixes@[q].date.days >= bound {
                                let i = choose|i: int|
                                    0 <= i < before.len() && (#[trigger] before[i]).0.days
                                        == self.pixes@[q].date.days;
                                assert(h@[i] == before[i]);
                            } else {
                                assert(self.pixes@[q].date.days == picked);
                                assert(h@[h@.len() - 1].0.days == picked);
                            }
                        }
                        assert forall|i: int, j: int| 0 <= i < j < h@.len() implies (
                        #[trigger] h@[i]).0.days > (#[trigger] h@[j]).0.days by {
                            if j < before.len() {
                                assert(h@[i] == before[i] && h@[j] == before[j]);
                            } else if i < before.len() {
                                assert(h@[i] == before[i]);
                                assert(before[i].0.days >= before[before.len() - 1].0.days);
                            }
                        }
                        assert forall|i: int| 0 <= i < h@.len() implies self.amount(
                            user_id@,
                            (#[trigger] h@[i]).0.days as int,
                        ) == Some(h@[i].1) by {
                            if i < before.len() {
                                assert(h@[i] == before[i]);
                            }
                        }
                    }
                },
            }
        }
        h
    }
}

/// What a store holds, table by table, as maps from key to row.
pub struct StoreMaps {
    pub users: Map<Seq<char>, user::Model>,
    pub students: Map<Seq<char>, student::Model>,
    pub pixes: Map<(Seq<char>, int), pix::Model>,
    pub refreshed_users: Map<(Seq<char>, Seq<char>), refreshed_users::Model>,
}

impl StoreMaps {
    /// What is held after a batch was written: every row of the batch stands
    /// under its key, in place of what stood there. `None` where the store
    /// refuses the batch; nothing of it is then kept.
    pub open spec fn after(self, batch: Batch) -> Option<StoreMaps> {
        match users_after(self.users, batch.users@) {
            None => None,
            Some(users) => Some(
                StoreMaps {
                    users,
                    students: upsert_all(self.students, batch.students@),
                    pixes: upsert_all(self.pixes, flat(batch.pixes@)),
                    refreshed_users: upsert_all(self.refreshed_users, batch.refreshed_users@),
                },
            ),
        }
    }
}

/// A list of rows, last row first.
pub open spec fn reversed<T>(rows: Seq<T>) -> Seq<T> {
    Seq::new(rows.len(), |i: int| rows[rows.len() - 1 - i])
}

proof fn lemma_flat_prefix<T>(rows: Seq<T>, chunks: Seq<Vec<T>>, c: int)
    requires
        chunks.len() == chunk_count(rows.len()),
        forall|j: int| 0 <= j < chunks.len() ==> (#[trigger] chunks[j])@ == chunk_of(rows, j),
        0 <= c <= chunks.len(),
    ensures
        flat(chunks.take(c)) == reversed(rows).take(
            if c * CHUNK_SIZE < rows.len() {
                c * CHUNK_SIZE
            } else {
                rows.len() as int
            },
        ),
    decreases c,
{
    if c == 0 {
        assert(flat(chunks.take(0)) =~= reversed(rows).take(0));
    } else {
        lemma_flat_prefix(rows, chunks, c - 1);
        assert(chunks.take(c).drop_last() =~= chunks.take(c - 1));
        assert(chunks.take(c).last() == chunks[c - 1]);
        let upto: int = if c * CHUNK_SIZE < rows.len() {
            c * CHUNK_SIZE
        } else {
            rows.len() as int
        };
        assert(flat(chunks.take(c)) =~= reversed(rows).take(upto));
    }
}

/// The statements into which rows are cut write every row once, the last row
/// of the list first.
pub proof fn lemma_chunks_write_every_row<T>(rows: Seq<T>, chunks: Seq<Vec<T>>)
    requires
        chunks.len() == chunk_count(rows.len()),
        forall|j: int| 0 <= j < chunks.len() ==> (#[trigger] chunks[j])@ == chunk_of(rows, j),
    ensures
        flat(chunks) == reversed(rows),
{
    lemma_flat_prefix(rows, chunks, chunks.len() as int);
    assert(chunks.take(chunks.len() as int) =~= chunks);
    assert(reversed(rows).take(rows.len() as int) =~= reversed(rows));
}

/// Idempotence: storing the same records a second time, as a second batch,
/// leaves every stored amount and every student record as the first time left
/// it. (Where the store refuses the second batch, it keeps nothing of it.)
pub proof fn lemma_reingest_is_idempotent(
    held: StoreMaps,
    first: Batch,
    second: Batch,
    records: Seq<Record>,
)
    requires
        first.is_plan_of(records),
        second.is_plan_of(records),
        held.after(first) is Some,
    ensures
        held.after(first)->Some_0.after(second) matches Some(again) ==> again.pixes
            == held.after(first)->Some_0.pixes && again.students
            == held.after(first)->Some_0.students,
{
    lemma_chunks_write_every_row(all_pix_rows(records), first.pixes@);
    lemma_chunks_write_every_row(all_pix_rows(records), second.pixes@);
    lemma_upsert_all_idempotent(held.pixes, reversed(all_pix_rows(records)));
    lemma_upsert_all_idempotent(held.students, student_rows(records));
}

/// Last write wins: an activity row of a batch that shares its member and day
/// with no other row of the batch is, after the batch, what the store holds
/// for that member and day. The amount held before is replaced, not added
/// to.
pub proof fn lemma_ingest_replaces_amount(
    held: StoreMaps,
    batch: Batch,
    records: Seq<Record>,
    i: int,
)
    requires
        batch.is_plan_of(records),
        held.after(batch) is Some,
        0 <= i < all_pix_rows(records).len(),
        forall|j: int|
            0 <= j < all_pix_rows(records).len() && j != i ==> (#[trigger] all_pix_rows(
                records,
            )[j]).key() != all_pix_rows(records)[i].key(),
    ensures
        held.after(batch)->Some_0.pixes.dom().contains(all_pix_rows(records)[i].key()),
        held.after(batch)->Some_0.pixes[all_pix_rows(records)[i].key()] == all_pix_rows(
            records,
        )[i],
{
    let rows = all_pix_rows(records);
    lemma_chunks_write_every_row(rows, batch.pixes@);
    let written = reversed(rows);
    let at = rows.len() - 1 - i;
    assert(written[at] == rows[i]);
    assert forall|j: int| at < j < written.len() implies (#[trigger] written[j]).key()
        != written[at].key() by {
        assert(written[j] == rows[rows.len() - 1 - j]);
    }
    lemma_upsert_all_replaces(held.pixes, written, at);
}

/// Rows that were written without a refusal are held as written: the members
/// after them are the members before them with every row put under its key.
pub proof fn lemma_users_after_is_upsert_all(users: Map<Seq<char>, user::Model>, rows: Seq<user::Model>)
    requires
        users_after(users, rows) is Some,
    ensures
        users_after(users, rows) == Some(upsert_all(users, rows)),
    decreases rows.len(),
{
    if rows.len() > 0 {
        lemma_users_after_is_upsert_all(users, rows.drop_last());
    }
}

/// A batch that names its members keeps every member of every batch known.
proof fn lemma_members_stay_known(before: Store, after: Store, batch: Batch)
    requires
        before.members_known(),
        batch.names_its_members(),
        before.after(batch) == Some(after.maps()),
    ensures
        after.members_known(),
{
    lemma_users_after_is_upsert_all(table_map(before.users@), batch.users@);
    assert forall|i: int| 0 <= i < after.refreshed_users@.len() implies has_key(
        after.users@,
        (#[trigger] after.refreshed_users@[i]).user_id@,
    ) by {
        let row = after.refreshed_users@[i];
        let k = row.key();
        let id = row.user_id@;
        assert(has_key(after.refreshed_users@, k));
        assert(table_map(after.refreshed_users@).dom().contains(k));
        lemma_upsert_all_lookup(table_map(before.refreshed_users@), batch.refreshed_users@, k);
        lemma_last_with_key_exists(batch.refreshed_users@, k);
        lemma_upsert_all_lookup(table_map(before.users@), batch.users@, id);
        lemma_last_with_key_exists(batch.users@, id);
        if has_key(batch.refreshed_users@, k) {
            let w = choose|w: int|
                0 <= w < batch.refreshed_users@.len() && (#[trigger] batch.refreshed_users@[w]).key()
                    == k;
            assert(batch.refreshed_users@[w].user_id@ == id);
            assert(has_key(batch.users@, id));
        } else {
            let w = choose|w: int|
                0 <= w < before.refreshed_users@.len() && (
                #[trigger] before.refreshed_users@[w]).key() == k;
            assert(before.refreshed_users@[w].user_id@ == id);
            assert(has_key(before.users@, id));
            assert(table_map(before.users@).dom().contains(id));
        }
        assert(table_map(after.users@).dom().contains(id));
    }
}

/// Every activity row that records give is the row of one day of one of the
/// records.
pub proof fn lemma_pix_row_source(records: Seq<Record>, i: int) -> (at: (int, int))
    requires
        0 <= i < all_pix_rows(records).len(),
    ensures
        0 <= at.0 < records.len(),
        0 <= at.1 < records[at.0].daily_totals@.len(),
        all_pix_rows(records)[i] == records[at.0].pix_row(at.1),
    decreases records.len(),
{
    let rest = records.drop_last();
    let head = all_pix_rows(rest);
    if i < head.len() {
        let at = lemma_pix_row_source(rest, i);
        assert(rest[at.0] == records[at.0]);
        at
    } else {
        (records.len() - 1, i - head.len())
    }
}

/// Every day of every record is among the activity rows that the records
/// give.
pub proof fn lemma_pix_row_occurs(records: Seq<Record>, r: int, d: int) -> (i: int)
    requires
        0 <= r < records.len(),
        0 <= d < records[r].daily_totals@.len(),
    ensures
        0 <= i < all_pix_rows(records).len(),
        all_pix_rows(records)[i] == records[r].pix_row(d),
    decreases records.len(),
{
    let rest = records.drop_last();
    let head = all_pix_rows(rest);
    if r < records.len() - 1 {
        assert(rest[r] == records[r]);
        lemma_pix_row_occurs(rest, r, d)
    } else {
        head.len() + d
    }
}

/// The last row with a key is one of the rows.
proof fn lemma_last_with_key_is_a_row<R: Row>(rows: Seq<R>, k: R::Key) -> (i: int)
    requires
        last_with_key(rows, k) is Some,
    ensures
        0 <= i < rows.len(),
        last_with_key(rows, k) == Some(rows[i]),
    decreases rows.len(),
{
    if rows.last().key() == k {
        rows.len() - 1
    } else {
        let i = lemma_last_with_key_is_a_row(rows.drop_last(), k);
        assert(rows.drop_last()[i] == rows[i]);
        i
    }
}

/// What was fetched is what is stored: after a batch of records that speak
/// of different members and give no day twice, the store holds, for every
/// day of every record, the amount that the record gives for it.
pub proof fn lemma_batch_amounts_are_stored(
    before: Store,
    after: Store,
    batch: Batch,
    records: Seq<Record>,
    r: int,
    d: int,
)
    requires
        batch.is_plan_of(records),
        before.after(batch) == Some(after.maps()),
        forall|a: int, b: int|
            0 <= a < records.len() && 0 <= b < records.len() && a != b ==> (
            #[trigger] records[a]).wallet_address@ != (#[trigger] records[b]).wallet_address@,
        forall|a: int| 0 <= a < records.len() ==> (#[trigger] records[a]).days_unique(),
        0 <= r < records.len(),
        0 <= d < records[r].daily_totals@.len(),
    ensures
        after.amount(
            records[r].wallet_address@,
            records[r].daily_totals@[d].0.days as int,
        ) == Some(records[r].daily_totals@[d].1),
{
    let rows = all_pix_rows(records);
    let written = reversed(rows);
    let row = records[r].pix_row(d);
    let k = row.key();
    lemma_chunks_write_every_row(rows, batch.pixes@);
    let i = lemma_pix_row_occurs(records, r, d);
    assert(written[rows.len() - 1 - i] == rows[i]);
    assert(has_key(written, k));
    lemma_last_with_key_exists(written, k);
    lemma_upsert_all_lookup(table_map(before.pixes@), written, k);
    let w = lemma_last_with_key_is_a_row(written, k);
    let at = lemma_pix_row_source(records, rows.len() - 1 - w);
    assert(written[w] == records[at.0].pix_row(at.1));
    assert(records[at.0].wallet_address@ == records[r].wallet_address@);
    assert(at.0 == r);
    assert(records[r].daily_totals@[at.1].0.days == records[r].daily_totals@[d].0.days);
    assert(at.1 == d);
    assert(table_map(after.pixes@)[k] == row);
    assert(table_map(after.pixes@).dom().contains(k));
}

/// A last row with a key can be named exactly where some row has the key.
proof fn lemma_last_with_key_exists<R: Row>(rows: Seq<R>, k: R::Key)
    ensures
        last_with_key(rows, k) is Some <==> has_key(rows, k),
    decreases rows.len(),
{
    if rows.len() > 0 {
        lemma_last_with_key_exists(rows.drop_last(), k);
        if has_key(rows, k) {
            let i = choose|i: int| 0 <= i < rows.len() && (#[trigger] rows[i]).key() == k;
            if i < rows.len() - 1 {
                assert(rows.drop_last()[i].key() == k);
            }
        }
        if has_key(rows.drop_last(), k) {
            let i = choose|i: int|
                0 <= i < rows.drop_last().len() && (#[trigger] rows.drop_last()[i]).key() == k;
            assert(rows[i].key() == k);
        }
    }
}

/// The latest batch defines who is active: after a batch of at least one
/// record whose key is new and sorts after every stored key, that batch is
/// the latest, and its members are exactly the members that the records
/// speak of.
pub proof fn lemma_new_batch_defines_active(
    before: Store,
    after: Store,
    batch: Batch,
    records: Seq<Record>,
)
    requires
        batch.is_plan_of(records),
        records.len() > 0,
        !before.has_batch(batch.ulid@),
        forall|i: int|
            0 <= i < before.refreshed_users@.len() ==> lex_le(
                (#[trigger] before.refreshed_users@[i]).ulid@,
                batch.ulid@,
            ),
        before.after(batch) == Some(after.maps()),
    ensures
        after.is_latest(batch.ulid@),
        after.members(batch.ulid@) == record_ids(records),
{
    let ulid = batch.ulid@;
    let rows = batch.refreshed_users@;
    let held = table_map(before.refreshed_users@);
    let now = table_map(after.refreshed_users@);
    assert(now == upsert_all(held, rows));
    assert forall|id: Seq<char>| after.members(ulid).contains(id) == record_ids(records).contains(
        id,
    ) by {
        let k = (id, ulid);
        lemma_upsert_all_lookup(held, rows, k);
        lemma_last_with_key_exists(rows, k);
        assert(now.dom().contains(k) == has_key(after.refreshed_users@, k));
        if has_key(before.refreshed_users@, k) {
            let w = choose|w: int|
                0 <= w < before.refreshed_users@.len() && (
                #[trigger] before.refreshed_users@[w]).key() == k;
            assert(before.refreshed_users@[w].ulid@ == ulid);
        }
        if has_key(rows, k) {
            let w = choose|w: int| 0 <= w < rows.len() && (#[trigger] rows[w]).key() == k;
            assert(records[w].wallet_address@ == id);
        }
        if record_ids(records).contains(id) {
            let w = choose|w: int|
                0 <= w < records.len() && (#[trigger] records[w]).wallet_address@ == id;
            assert(rows[w].key() == k);
        }
    }
    assert(after.members(ulid) =~= record_ids(records));
    let first = (records[0].wallet_address@, ulid);
    assert(record_ids(records).contains(records[0].wallet_address@));
    assert(after.members(ulid).contains(records[0].wallet_address@));
    let at = choose|at: int|
        0 <= at < after.refreshed_users@.len() && (#[trigger] after.refreshed_users@[at]).key()
            == first;
    assert(after.refreshed_users@[at].ulid@ == ulid);
    assert forall|i: int| 0 <= i < after.refreshed_users@.len() implies lex_le(
        (#[trigger] after.refreshed_users@[i]).ulid@,
        ulid,
    ) by {
        let k = after.refreshed_users@[i].key();
        assert(has_key(after.refreshed_users@, k));
        assert(now.dom().contains(k));
        lemma_upsert_all_lookup(held, rows, k);
        lemma_last_with_key_exists(rows, k);
        if has_key(rows, k) {
            let w = choose|w: int| 0 <= w < rows.len() && (#[trigger] rows[w]).key() == k;
            assert(rows[w].ulid@ == ulid);
            lemma_lex_total(ulid, ulid);
        } else {
            let w = choose|w: int|
                0 <= w < before.refreshed_users@.len() && (
                #[trigger] before.refreshed_users@[w]).key() == k;
            assert(before.refreshed_users@[w].ulid@ == k.1);
        }
    }
}

/// Batches are ordered by their time: after a batch of at least one record,
/// made at a later millisecond than every stored batch, that batch is the
/// latest, and its members are exactly the members that the records speak of.
pub proof fn lemma_later_batch_defines_active(
    before: Store,
    after: Store,
    batch: Batch,
    records: Seq<Record>,
    at: int,
)
    requires
        batch.is_plan_of(records),
        records.len() > 0,
        0 <= at < 0x1_0000_0000_0000,
        is_key_of(batch.ulid@, at),
        forall|i: int|
            0 <= i < before.refreshed_users@.len() ==> exists|ms: int|
                0 <= ms < at && is_key_of((#[trigger] before.refreshed_users@[i]).ulid@, ms),
        before.after(batch) == Some(after.maps()),
    ensures
        after.is_latest(batch.ulid@),
        after.members(batch.ulid@) == record_ids(records),
{
    assert forall|i: int| 0 <= i < before.refreshed_users@.len() implies lex_le(
        (#[trigger] before.refreshed_users@[i]).ulid@,
        batch.ulid@,
    ) && before.refreshed_users@[i].ulid@ != batch.ulid@ by {
        let key = before.refreshed_users@[i].ulid@;
        let ms = choose|ms: int| 0 <= ms < at && is_key_of(key, ms);
        lemma_later_keys_sort_later(key, batch.ulid@, ms, at);
    }
    lemma_new_batch_defines_active(before, after, batch, records);
}

/// A store has at most one latest batch.
pub proof fn lemma_latest_is_unique(store: Store, a: Seq<char>, b: Seq<char>)
    requires
        store.is_latest(a),
        store.is_latest(b),
    ensures
        a == b,
{
    let i = choose|i: int|
        0 <= i < store.refreshed_users@.len() && (#[trigger] store.refreshed_users@[i]).ulid@ == a;
    let j = choose|j: int|
        0 <= j < store.refreshed_users@.len() && (#[trigger] store.refreshed_users@[j]).ulid@ == b;
    assert(lex_le(store.refreshed_users@[i].ulid@, b));
    assert(lex_le(store.refreshed_users@[j].ulid@, a));
    lemma_lex_antisymmetric(a, b);
}

/// Two lists that both are the history of a member agree on their first `i`
/// days.
proof fn lemma_history_prefix(
    store: Store,
    user: Seq<char>,
    limit: nat,
    a: Seq<(Date, u32)>,
    b: Seq<(Date, u32)>,
    i: int,
)
    requires
        store.is_history(user, limit, a),
        store.is_history(user, limit, b),
        0 <= i <= a.len(),
        i <= b.len(),
    ensures
        forall|k: int| 0 <= k < i ==> a[k] == b[k],
    decreases i,
{
    if i > 0 {
        lemma_history_prefix(store, user, limit, a, b, i - 1);
        let x = a[i - 1].0.days as int;
        let y = b[i - 1].0.days as int;
        assert(store.amount(user, x) == Some(a[i - 1].1));
        assert(store.amount(user, y) == Some(b[i - 1].1));
        assert(has_key(store.pixes@, (user, x)));
        assert(has_key(store.pixes@, (user, y)));
        if x > y {
            if exists|j: int| 0 <= j < b.len() && (#[trigger] b[j]).0.days == x {
                let j = choose|j: int| 0 <= j < b.len() && (#[trigger] b[j]).0.days == x;
                if j < i - 1 {
                    assert(a[j] == b[j]);
                    assert(a[j].0.days > a[i - 1].0.days);
                } else if j > i - 1 {
                    assert(b[i - 1].0.days > b[j].0.days);
                }
            } else {
                assert(b[i - 1].0.days >= b[b.len() - 1].0.days);
            }
        }
        if y > x {
            if exists|j: int| 0 <= j < a.len() && (#[trigger] a[j]).0.days == y {
                let j = choose|j: int| 0 <= j < a.len() && (#[trigger] a[j]).0.days == y;
                if j < i - 1 {
                    assert(a[j] == b[j]);
                    assert(b[j].0.days > b[i - 1].0.days);
                } else if j > i - 1 {
                    assert(a[i - 1].0.days > a[j].0.days);
                }
            } else {
                assert(a[i - 1].0.days >= a[a.len() - 1].0.days);
            }
        }
        assert(x == y);
        assert(a[i - 1].0 == b[i - 1].0);
    }
}

proof fn lemma_history_is_no_longer(
    store: Store,
    user: Seq<char>,
    limit: nat,
    a: Seq<(Date, u32)>,
    b: Seq<(Date, u32)>,
)
    requires
        store.is_history(user, limit, a),
        store.is_history(user, limit, b),
    ensures
        a.len() <= b.len(),
{
    if a.len() > b.len() {
        let m = b.len() as int;
        lemma_history_prefix(store, user, limit, a, b, m);
        let d = a[m].0.days as int;
        assert(store.amount(user, d) == Some(a[m].1));
        assert(has_key(store.pixes@, (user, d)));
        if exists|j: int| 0 <= j < b.len() && (#[trigger] b[j]).0.days == d {
            let j = choose|j: int| 0 <= j < b.len() && (#[trigger] b[j]).0.days == d;
            assert(a[j] == b[j]);
            assert(a[j].0.days > a[m].0.days);
        }
    }
}

/// A member has one history for a limit: two lists that both are the history
/// are the same list.
pub proof fn lemma_history_is_unique(
    store: Store,
    user: Seq<char>,
    limit: nat,
    a: Seq<(Date, u32)>,
    b: Seq<(Date, u32)>,
)
    requires
        store.is_history(user, limit, a),
        store.is_history(user, limit, b),
    ensures
        a == b,
{
    lemma_history_is_no_longer(store, user, limit, a, b);
    lemma_history_is_no_longer(store, user, limit, b, a);
    lemma_history_prefix(store, user, limit, a, b, a.len() as int);
    assert(a =~= b);
}

} // verus!
