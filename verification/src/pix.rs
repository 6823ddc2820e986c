//! Points earned by one member on one day.

use vstd::prelude::*;
use crate::date::Date;
use crate::table::Row;

verus! {

/// The amount one member earned on one day. A member has at most one such
/// row for a day.
#[derive(Debug, Clone, PartialEq, Eq)]
pub struct Model {
    pub date: Date,
    pub user_id: String,
    pub amount: u32,
}

impl Row for Model {
    type Key = (Seq<char>, int);

    /// An activity row is found by the member and the day.
    open spec fn key(&self) -> (Seq<char>, int) {
        (self.user_id@, self.date.days as int)
    }

    fn same_key(&self, other: &Model) -> (r: bool) {
        self.user_id == other.user_id && self.date.days == other.date.days
    }

    fn duplicate(&self) -> (r: Model) {
        Model { date: self.date, user_id: self.user_id.clone(), amount: self.amount }
    }
}

} // verus!
