//! Which members an ingestion batch held.

use vstd::prelude::*;
use crate::table::Row;

verus! {

/// One member of one batch. The batch is named by a sortable key that carries
/// the time at which the batch was taken.
#[derive(Debug, Clone, PartialEq, Eq)]
pub struct Model {
    pub user_id: String,
    pub ulid: String,
}

impl Row for Model {
    type Key = (Seq<char>, Seq<char>);

    /// A membership is found by the member and the key of the batch.
    open spec fn key(&self) -> (Seq<char>, Seq<char>) {
        (self.user_id@, self.ulid@)
    }

    fn same_key(&self, other: &Model) -> (r: bool) {
        self.user_id == other.user_id && self.ulid == other.ulid
    }

    fn duplicate(&self) -> (r: Model) {
        Model { user_id: self.user_id.clone(), ulid: self.ulid.clone() }
    }
}

} // verus!
