//! A member: the stable wallet address and the profile id shown outside.

use vstd::prelude::*;
use crate::table::Row;

verus! {

/// One member.
#[derive(Debug, Clone, PartialEq, Eq)]
pub struct Model {
    /// The member's wallet address, which never changes.
    pub id: String,
    /// The member's profile id.
    pub pgrit_id: String,
}

impl Row for Model {
    type Key = Seq<char>;

    /// A member is found by the wallet address.
    open spec fn key(&self) -> Seq<char> {
        self.id@
    }

    fn same_key(&self, other: &Model) -> (r: bool) {
        self.id == other.id
    }

    fn duplicate(&self) -> (r: Model) {
        Model { id: self.id.clone(), pgrit_id: self.pgrit_id.clone() }
    }
}

} // verus!
