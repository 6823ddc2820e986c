//! How far a student has come in the program.

use vstd::prelude::*;
use vstd::string::StringExecFns;
use crate::text::str_eq;

verus! {

/// How far a student has come in the program.
#[derive(Debug, Clone, Copy, PartialEq, Eq, Structural)]
pub enum Level {
    /// Just joined.
    Newbie,
    /// Helps others.
    Assistant,
    /// Regular member.
    Normal,
    /// Leads others.
    Lead,
}

impl Level {
    /// The text that stands for a value in the source records.
    pub open spec fn label(self) -> Seq<char> {
        match self {
            Level::Newbie => seq!['新', '人'],
            Level::Assistant => seq!['ア', 'シ', 'ス', 'タ', 'ン', 'ト'],
            Level::Normal => seq!['ノ', 'ー', 'マ', 'ル'],
            Level::Lead => seq!['リ', 'ー', 'ド'],
        }
    }

    /// The value that a text stands for, if it is one of the labels.
    pub open spec fn parsed(s: Seq<char>) -> Option<Level> {
        if s == seq!['新', '人'] {
            Some(Level::Newbie)
        } else if s == seq!['ア', 'シ', 'ス', 'タ', 'ン', 'ト'] {
            Some(Level::Assistant)
        } else if s == seq!['ノ', 'ー', 'マ', 'ル'] {
            Some(Level::Normal)
        } else if s == seq!['リ', 'ー', 'ド'] {
            Some(Level::Lead)
        } else {
            None
        }
    }

    /// Reads a label as the source records write it.
    pub fn from_str(s: &str) -> (r: Result<Level, String>)
        ensures
            match Level::parsed(s@) {
                Some(v) => r == Ok::<Level, String>(v),
                None => r is Err && r->Err_0@ == "invalid value"@,
            },
    {
        proof {
            reveal_strlit("新人");
            reveal_strlit("アシスタント");
            reveal_strlit("ノーマル");
            reveal_strlit("リード");
            assert("新人"@ =~= seq!['新', '人']);
            assert("アシスタント"@ =~= seq!['ア', 'シ', 'ス', 'タ', 'ン', 'ト']);
            assert("ノーマル"@ =~= seq!['ノ', 'ー', 'マ', 'ル']);
            assert("リード"@ =~= seq!['リ', 'ー', 'ド']);
        }
        if str_eq(s, "新人") {
            Ok(Level::Newbie)
        } else if str_eq(s, "アシスタント") {
            Ok(Level::Assistant)
        } else if str_eq(s, "ノーマル") {
            Ok(Level::Normal)
        } else if str_eq(s, "リード") {
            Ok(Level::Lead)
        } else {
            Err(String::from_str("invalid value"))
        }
    }

    /// The label of the value.
    pub fn as_str(&self) -> (r: &'static str)
        ensures
            r@ == self.label(),
    {
        proof {
            reveal_strlit("新人");
            reveal_strlit("アシスタント");
            reveal_strlit("ノーマル");
            reveal_strlit("リード");
            assert("新人"@ =~= seq!['新', '人']);
            assert("アシスタント"@ =~= seq!['ア', 'シ', 'ス', 'タ', 'ン', 'ト']);
            assert("ノーマル"@ =~= seq!['ノ', 'ー', 'マ', 'ル']);
            assert("リード"@ =~= seq!['リ', 'ー', 'ド']);
        }
        match self {
            Level::Newbie => "新人",
            Level::Assistant => "アシスタント",
            Level::Normal => "ノーマル",
            Level::Lead => "リード",
        }
    }

    /// The label of the value, as an owned text.
    pub fn to_string(&self) -> (r: String)
        ensures
            r@ == self.label(),
    {
        String::from_str(self.as_str())
    }
}

/// Reading the label of a value gives the value back.
pub proof fn lemma_level_round_trip(v: Level)
    ensures
        Level::parsed(v.label()) == Some(v),
{
    assert(seq!['新', '人'][0] == '新');
    assert(seq!['新', '人'].len() == 2);
    assert(seq!['ア', 'シ', 'ス', 'タ', 'ン', 'ト'][0] == 'ア');
    assert(seq!['ア', 'シ', 'ス', 'タ', 'ン', 'ト'].len() == 6);
    assert(seq!['ノ', 'ー', 'マ', 'ル'][0] == 'ノ');
    assert(seq!['ノ', 'ー', 'マ', 'ル'].len() == 4);
    assert(seq!['リ', 'ー', 'ド'][0] == 'リ');
    assert(seq!['リ', 'ー', 'ド'].len() == 3);
}

} // verus!
