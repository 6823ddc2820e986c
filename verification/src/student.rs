//! What is known of a member as a student.

use vstd::prelude::*;
use crate::date::Date;
use crate::degree::Degree;
use crate::level::Level;
use crate::sex::Sex;
use crate::table::Row;

verus! {

/// A member's student record. It exists only for members whose source record
/// gave every field that is not optional here.
#[derive(Debug, Clone, PartialEq, Eq)]
pub struct Model {
    /// The member's wallet address.
    pub user_id: String,
    /// The degree the student is working towards.
    pub degree_step: Degree,
    /// The year within that degree.
    pub grade: u16,
    pub course: String,
    pub level: Level,
    pub sex: Sex,
    pub join_date: Date,
    pub office: String,
    pub email: String,
    pub email_of_4nonome: String,
    pub university: String,
    pub major: String,
    pub leave_date: Option<Date>,
    pub active: bool,
    pub slack_id: String,
    pub discord_id: Option<String>,
}

impl Row for Model {
    type Key = Seq<char>;

    /// A student record is found by the member's wallet address.
    open spec fn key(&self) -> Seq<char> {
        self.user_id@
    }

    fn same_key(&self, other: &Model) -> (r: bool) {
        self.user_id == other.user_id
    }

    fn duplicate(&self) -> (r: Model) {
        let discord_id = match &self.discord_id {
            Some(v) => Some(v.clone()),
            None => None,
        };
        Model {
            user_id: self.user_id.clone(),
            degree_step: self.degree_step,
            grade: self.grade,
            course: self.course.clone(),
            level: self.level,
            sex: self.sex,
            join_date: self.join_date,
            office: self.office.clone(),
            email: self.email.clone(),
            email_of_4nonome: self.email_of_4nonome.clone(),
            university: self.university.clone(),
            major: self.major.clone(),
            leave_date: self.leave_date,
            active: self.active,
            slack_id: self.slack_id.clone(),
            discord_id,
        }
    }
}

} // verus!
