//! A member's record as the scoring service gives it.

use vstd::prelude::*;
use crate::date::Date;
use crate::grade::Grade;
use crate::level::Level;
use crate::pix;
use crate::refreshed_users;
use crate::sex::Sex;
use crate::student;
use crate::user;

verus! {

/// One member's record for a window of days.
#[derive(Debug, Clone, PartialEq, Eq)]
pub struct Record {
    /// The member's profile id.
    pub id: String,
    /// The member's wallet address.
    pub wallet_address: String,
    /// The degree pursued and the year within it.
    pub grade: Option<Grade>,
    pub course: Option<String>,
    pub level: Option<Level>,
    pub sex: Option<Sex>,
    pub join_date: Option<Date>,
    pub join_month: Option<String>,
    pub office: Option<String>,
    pub email: Option<String>,
    pub email_of_4nonome: Option<String>,
    pub university: Option<String>,
    pub major: Option<String>,
    pub leave_date: Option<Date>,
    pub active: Option<bool>,
    pub slack_id: Option<String>,
    pub discord_id: Option<String>,
    /// Points over the window.
    pub total: u32,
    pub total_pgrit: u32,
    pub total_dawn: u32,
    pub total_other: u32,
    /// Points by day.
    pub daily_totals: Vec<(Date, u32)>,
}

impl Record {
    /// The member that the record speaks of.
    pub open spec fn user_row(self) -> user::Model {
        user::Model { id: self.wallet_address, pgrit_id: self.id }
    }

    /// The row that puts the record's member into a batch.
    pub open spec fn membership_row(self, ulid: String) -> refreshed_users::Model {
        refreshed_users::Model { user_id: self.wallet_address, ulid }
    }

    /// Whether the record gives every field that a student record needs.
    pub open spec fn has_student(self) -> bool {
        &&& self.grade is Some
        &&& self.course is Some
        &&& self.level is Some
        &&& self.sex is Some
        &&& self.join_date is Some
        &&& self.office is Some
        &&& self.email is Some
        &&& self.email_of_4nonome is Some
        &&& self.university is Some
        &&& self.major is Some
        &&& self.active is Some
        &&& self.slack_id is Some
    }

    /// The student record that the record gives, if it gives one: all of its
    /// fields are taken from the record, none is left from an earlier one.
    pub open spec fn student_row(self) -> Option<student::Model> {
        if self.has_student() {
            Some(
                student::Model {
                    user_id: self.wallet_address,
                    degree_step: self.grade->Some_0.degree_step,
                    grade: self.grade->Some_0.nth,
                    course: self.course->Some_0,
                    level: self.level->Some_0,
                    sex: self.sex->Some_0,
                    join_date: self.join_date->Some_0,
                    office: self.office->Some_0,
                    email: self.email->Some_0,
                    email_of_4nonome: self.email_of_4nonome->Some_0,
                    university: self.university->Some_0,
                    major: self.major->Some_0,
                    leave_date: self.leave_date,
                    active: self.active->Some_0,
                    slack_id: self.slack_id->Some_0,
                    discord_id: self.discord_id,
                },
            )
        } else {
            None
        }
    }

    /// The activity row of the record's `i`-th day.
    pub open spec fn pix_row(self, i: int) -> pix::Model {
        pix::Model {
            date: self.daily_totals@[i].0,
            user_id: self.wallet_address,
            amount: self.daily_totals@[i].1,
        }
    }

    /// The activity rows of the record, one for each of its days, in order.
    pub open spec fn pix_rows(self) -> Seq<pix::Model> {
        Seq::new(self.daily_totals@.len(), |i: int| self.pix_row(i))
    }

    /// Whether no day occurs twice among the days of the record.
    pub open spec fn days_unique(self) -> bool {
        forall|i: int, j: int|
            0 <= i < self.daily_totals@.len() && 0 <= j < self.daily_totals@.len() && i != j ==> (
            #[trigger] self.daily_totals@[i]).0.days != (#[trigger] self.daily_totals@[j]).0.days
    }

    /// Whether no day occurs twice among the days of the record.
    pub fn has_unique_days(&self) -> (r: bool)
        ensures
            r == self.days_unique(),
    {
        let n = self.daily_totals.len();
        let mut i: usize = 0;
        while i < n
            invariant
                n == self.daily_totals@.len(),
                i <= n,
                forall|a: int, b: int|
                    0 <= b < a < i ==> (#[trigger] self.daily_totals@[a]).0.days != (
                    #[trigger] self.daily_totals@[b]).0.days,
            decreases n - i,
        {
            let mut j: usize = 0;
            while j < i
                invariant
                    n == self.daily_totals@.len(),
                    i < n,
                    j <= i,
                    forall|b: int|
                        0 <= b < j ==> self.daily_totals@[i as int].0.days != (
                        #[trigger] self.daily_totals@[b]).0.days,
                decreases i - j,
            {
                if self.daily_totals[i].0.days == self.daily_totals[j].0.days {
                    return false;
                }
                j += 1;
            }
            i += 1;
        }
        proof {
            assert forall|a: int, b: int| 0 <= a < n && 0 <= b < n && a != b implies (
            #[trigger] self.daily_totals@[a]).0.days != (#[trigger] self.daily_totals@[b]).0.days by {
                if a < b {
                    assert(self.daily_totals@[b].0.days != self.daily_totals@[a].0.days);
                }
            }
        }
        true
    }

    /// The member that the record speaks of.
    pub fn user(&self) -> (r: user::Model)
        ensures
            r == self.user_row(),
    {
        user::Model { id: self.wallet_address.clone(), pgrit_id: self.id.clone() }
    }

    /// The row that puts the record's member into the batch named `ulid`.
    pub fn membership(&self, ulid: &String) -> (r: refreshed_users::Model)
        ensures
            r == self.membership_row(*ulid),
    {
        refreshed_users::Model { user_id: self.wallet_address.clone(), ulid: ulid.clone() }
    }
}

} // verus!
