//! Sex as the source records give it.

use vstd::prelude::*;
use vstd::string::StringExecFns;
use crate::text::str_eq;

verus! {

/// Sex as the source records give it.
#[derive(Debug, Clone, Copy, PartialEq, Eq, Structural)]
pub enum Sex {
    /// Male.
    Male,
    /// Female.
    Female,
}

impl Sex {
    /// The text that stands for a value in the source records.
    pub open spec fn label(self) -> Seq<char> {
        match self {
            Sex::Male => seq!['男', '性'],
            Sex::Female => seq!['女', '性'],
        }
    }

    /// The value that a text stands for, if it is one of the labels.
    pub open spec fn parsed(s: Seq<char>) -> Option<Sex> {
        if s == seq!['男', '性'] {
            Some(Sex::Male)
        } else if s == seq!['女', '性'] {
            Some(Sex::Female)
        } else {
            None
        }
    }

    /// Reads a label as the source records write it.
    pub fn from_str(s: &str) -> (r: Result<Sex, String>)
        ensures
            match Sex::parsed(s@) {
                Some(v) => r == Ok::<Sex, String>(v),
                None => r is Err && r->Err_0@ == "invalid value"@,
            },
    {
        proof {
            reveal_strlit("男性");
            reveal_strlit("女性");
            assert("男性"@ =~= seq!['男', '性']);
            assert("女性"@ =~= seq!['女', '性']);
        }
        if str_eq(s, "男性") {
            Ok(Sex::Male)
        } else if str_eq(s, "女性") {
            Ok(Sex::Female)
        } else {
            Err(String::from_str("invalid value"))
        }
    }

    /// The label of the value.
    pub fn as_str(&self) -> (r: &'static str)
        ensures
            r@ == self.label(),
    {
        proof {
            reveal_strlit("男性");
            reveal_strlit("女性");
            assert("男性"@ =~= seq!['男', '性']);
            assert("女性"@ =~= seq!['女', '性']);
        }
        match self {
            Sex::Male => "男性",
            Sex::Female => "女性",
        }
    }

    /// The label of the value, as an owned text.
    pub fn to_string(&self) -> (r: String)
        ensures
            r@ == self.label(),
    {
        String::from_str(self.as_str())
    }
}

/// Reading the label of a value gives the value back.
pub proof fn lemma_sex_round_trip(v: Sex)
    ensures
        Sex::parsed(v.label()) == Some(v),
{
    assert(seq!['男', '性'][0] == '男');
    assert(seq!['男', '性'].len() == 2);
    assert(seq!['女', '性'][0] == '女');
    assert(seq!['女', '性'].len() == 2);
}

} // verus!
