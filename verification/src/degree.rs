//! The degree a student is working towards.

use vstd::prelude::*;
use vstd::string::StringExecFns;
use crate::text::str_eq;

verus! {

/// The degree a student is working towards.
#[derive(Debug, Clone, Copy, PartialEq, Eq, Structural)]
pub enum Degree {
    HighSchool,
    /// Bachelor's degree.
    Bachelor,
    /// Master's degree.
    Master,
    /// Doctorate.
    Doctor,
}

impl Degree {
    /// The one-letter code of a degree.
    pub open spec fn code(self) -> Seq<char> {
        match self {
            Degree::HighSchool => seq!['H'],
            Degree::Bachelor => seq!['B'],
            Degree::Master => seq!['M'],
            Degree::Doctor => seq!['D'],
        }
    }

    /// The degree that a code stands for, if it is one of the four codes.
    pub open spec fn parsed(s: Seq<char>) -> Option<Degree> {
        if s == seq!['H'] {
            Some(Degree::HighSchool)
        } else if s == seq!['B'] {
            Some(Degree::Bachelor)
        } else if s == seq!['M'] {
            Some(Degree::Master)
        } else if s == seq!['D'] {
            Some(Degree::Doctor)
        } else {
            None
        }
    }

    /// Reads a one-letter code: `H`, `B`, `M` or `D`.
    pub fn from_str(s: &str) -> (r: Result<Degree, String>)
        ensures
            match Degree::parsed(s@) {
                Some(d) => r == Ok::<Degree, String>(d),
                None => r is Err && r->Err_0@ == "invalid degree step"@,
            },
    {
        proof {
            reveal_strlit("H");
            reveal_strlit("B");
            reveal_strlit("M");
            reveal_strlit("D");
            assert("H"@ =~= seq!['H']);
            assert("B"@ =~= seq!['B']);
            assert("M"@ =~= seq!['M']);
            assert("D"@ =~= seq!['D']);
        }
        if str_eq(s, "H") {
            Ok(Degree::HighSchool)
        } else if str_eq(s, "B") {
            Ok(Degree::Bachelor)
        } else if str_eq(s, "M") {
            Ok(Degree::Master)
        } else if str_eq(s, "D") {
            Ok(Degree::Doctor)
        } else {
            Err(String::from_str("invalid degree step"))
        }
    }

    /// The one-letter code of the degree.
    pub fn as_str(&self) -> (r: &'static str)
        ensures
            r@ == self.code(),
    {
        proof {
            reveal_strlit("H");
            reveal_strlit("B");
            reveal_strlit("M");
            reveal_strlit("D");
            assert("H"@ =~= seq!['H']);
            assert("B"@ =~= seq!['B']);
            assert("M"@ =~= seq!['M']);
            assert("D"@ =~= seq!['D']);
        }
        match self {
            Degree::HighSchool => "H",
            Degree::Bachelor => "B",
            Degree::Master => "M",
            Degree::Doctor => "D",
        }
    }

    /// The one-letter code of the degree, as an owned text.
    pub fn to_string(&self) -> (r: String)
        ensures
            r@ == self.code(),
    {
        String::from_str(self.as_str())
    }
}

/// Reading the code of a degree gives the degree back.
pub proof fn lemma_degree_round_trip(d: Degree)
    ensures
        Degree::parsed(d.code()) == Some(d),
{
    assert(seq!['H'][0] == 'H');
    assert(seq!['B'][0] == 'B');
    assert(seq!['M'][0] == 'M');
    assert(seq!['D'][0] == 'D');
}

} // verus!
