//! The eight ranks, and the rule that maps a rolling 28-day total to a rank.

use vstd::prelude::*;
use vstd::std_specs::convert::FromSpecImpl;
use vstd::std_specs::ops::AddSpecImpl;
use vstd::std_specs::ops::SubSpecImpl;
use vstd::string::StringExecFns;
use crate::pgn_level::max_values::BRONZE_MIN;
use crate::pgn_level::max_values::DIAMAND_MIN;
use crate::pgn_level::max_values::GOLD_MIN;
use crate::pgn_level::max_values::GRANDMASTER_MIN;
use crate::pgn_level::max_values::MASTER_MIN;
use crate::pgn_level::max_values::PLATINUM_MIN;
use crate::pgn_level::max_values::SILVER_MIN;
use crate::text::str_eq;

pub mod max_values;

verus! {

/// A rank, from the lowest (`Iron`) to the highest (`GrandMaster`).
#[derive(Debug, Clone, Copy, PartialEq, Eq, Structural)]
pub enum PgnLevel {
    Iron,
    Bronze,
    Silver,
    Gold,
    Platinum,
    Diamond,
    Master,
    GrandMaster,
}

impl PgnLevel {
    /// Position of the rank in the order: 0 for `Iron`, 7 for `GrandMaster`.
    pub open spec fn index(self) -> int {
        match self {
            PgnLevel::Iron => 0,
            PgnLevel::Bronze => 1,
            PgnLevel::Silver => 2,
            PgnLevel::Gold => 3,
            PgnLevel::Platinum => 4,
            PgnLevel::Diamond => 5,
            PgnLevel::Master => 6,
            PgnLevel::GrandMaster => 7,
        }
    }

    /// The rank at a position, with positions below 0 taken as `Iron` and
    /// positions above 7 taken as `GrandMaster`.
    pub open spec fn at(i: int) -> PgnLevel {
        if i <= 0 {
            PgnLevel::Iron
        } else if i == 1 {
            PgnLevel::Bronze
        } else if i == 2 {
            PgnLevel::Silver
        } else if i == 3 {
            PgnLevel::Gold
        } else if i == 4 {
            PgnLevel::Platinum
        } else if i == 5 {
            PgnLevel::Diamond
        } else if i == 6 {
            PgnLevel::Master
        } else {
            PgnLevel::GrandMaster
        }
    }

    /// Smallest total that holds the rank.
    pub open spec fn floor(self) -> int {
        match self {
            PgnLevel::Iron => 0,
            PgnLevel::Bronze => 500,
            PgnLevel::Silver => 1000,
            PgnLevel::Gold => 2500,
            PgnLevel::Platinum => 5000,
            PgnLevel::Diamond => 10000,
            PgnLevel::Master => 20000,
            PgnLevel::GrandMaster => 35000,
        }
    }

    /// Smallest total that reaches the next rank; `None` for the top rank.
    pub open spec fn ceiling(self) -> Option<int> {
        if self == PgnLevel::GrandMaster {
            None
        } else {
            Some(PgnLevel::at(self.index() + 1).floor())
        }
    }

    /// The rank of a total: the highest rank whose floor does not exceed it.
    pub open spec fn of_total(total: int) -> PgnLevel {
        if total < 500 {
            PgnLevel::Iron
        } else if total < 1000 {
            PgnLevel::Bronze
        } else if total < 2500 {
            PgnLevel::Silver
        } else if total < 5000 {
            PgnLevel::Gold
        } else if total < 10000 {
            PgnLevel::Platinum
        } else if total < 20000 {
            PgnLevel::Diamond
        } else if total < 35000 {
            PgnLevel::Master
        } else {
            PgnLevel::GrandMaster
        }
    }

    /// The rank moved by a signed number of steps, held at the two ends.
    pub open spec fn shifted(self, step: int) -> PgnLevel {
        PgnLevel::at(self.index() + step)
    }

    /// Position of the rank in the order, from 0 to 7.
    pub fn rank(self) -> (r: i8)
        ensures
            r == self.index(),
    {
        match self {
            PgnLevel::Iron => 0,
            PgnLevel::Bronze => 1,
            PgnLevel::Silver => 2,
            PgnLevel::Gold => 3,
            PgnLevel::Platinum => 4,
            PgnLevel::Diamond => 5,
            PgnLevel::Master => 6,
            PgnLevel::GrandMaster => 7,
        }
    }

    /// Smallest total that holds the rank.
    pub fn min_pix(self) -> (r: u32)
        ensures
            r == self.floor(),
    {
        match self {
            PgnLevel::Iron => 0,
            PgnLevel::Bronze => BRONZE_MIN,
            PgnLevel::Silver => SILVER_MIN,
            PgnLevel::Gold => GOLD_MIN,
            PgnLevel::Platinum => PLATINUM_MIN,
            PgnLevel::Diamond => DIAMAND_MIN,
            PgnLevel::Master => MASTER_MIN,
            PgnLevel::GrandMaster => GRANDMASTER_MIN,
        }
    }
}

/// The rank at a signed position, held at the two ends.
fn cast(step: i64) -> (r: PgnLevel)
    ensures
        r == PgnLevel::at(step as int),
{
    if step <= 0 {
        PgnLevel::Iron
    } else if step == 1 {
        PgnLevel::Bronze
    } else if step == 2 {
        PgnLevel::Silver
    } else if step == 3 {
        PgnLevel::Gold
    } else if step == 4 {
        PgnLevel::Platinum
    } else if step == 5 {
        PgnLevel::Diamond
    } else if step == 6 {
        PgnLevel::Master
    } else {
        PgnLevel::GrandMaster
    }
}

impl From<u32> for PgnLevel {
    fn from(pix_monthly: u32) -> (r: PgnLevel) {
        if pix_monthly < BRONZE_MIN {
            PgnLevel::Iron
        } else if pix_monthly < SILVER_MIN {
            PgnLevel::Bronze
        } else if pix_monthly < GOLD_MIN {
            PgnLevel::Silver
        } else if pix_monthly < PLATINUM_MIN {
            PgnLevel::Gold
        } else if pix_monthly < DIAMAND_MIN {
            PgnLevel::Platinum
        } else if pix_monthly < MASTER_MIN {
            PgnLevel::Diamond
        } else if pix_monthly < GRANDMASTER_MIN {
            PgnLevel::Master
        } else {
            PgnLevel::GrandMaster
        }
    }
}

impl FromSpecImpl<u32> for PgnLevel {
    open spec fn obeys_from_spec() -> bool {
        true
    }

    open spec fn from_spec(pix_monthly: u32) -> PgnLevel {
        PgnLevel::of_total(pix_monthly as int)
    }
}

impl core::ops::Add<i32> for PgnLevel {
    type Output = PgnLevel;

    fn add(self, step: i32) -> (r: PgnLevel) {
        let here: i8 = self.rank();
        let position: i64 = here as i64 + step as i64;
        cast(position)
    }
}

impl AddSpecImpl<i32> for PgnLevel {
    open spec fn obeys_add_spec() -> bool {
        true
    }

    open spec fn add_req(self, step: i32) -> bool {
        true
    }

    open spec fn add_spec(self, step: i32) -> PgnLevel {
        self.shifted(step as int)
    }
}

impl core::ops::AddAssign<i32> for PgnLevel {
    fn add_assign(&mut self, step: i32)
        ensures
            *final(self) == old(self).shifted(step as int),
    {
        *self = *self + step;
    }
}

impl core::ops::SubAssign<i32> for PgnLevel {
    fn sub_assign(&mut self, step: i32)
        ensures
            *final(self) == old(self).shifted(-(step as int)),
    {
        *self = *self - step;
    }
}

impl core::ops::Sub<i32> for PgnLevel {
    type Output = PgnLevel;

    fn sub(self, step: i32) -> (r: PgnLevel) {
        let here: i8 = self.rank();
        let position: i64 = here as i64 - step as i64;
        cast(position)
    }
}

impl SubSpecImpl<i32> for PgnLevel {
    open spec fn obeys_sub_spec() -> bool {
        true
    }

    open spec fn sub_req(self, step: i32) -> bool {
        true
    }

    open spec fn sub_spec(self, step: i32) -> PgnLevel {
        self.shifted(-(step as int))
    }
}

impl PgnLevel {
    /// The name of a rank.
    pub open spec fn name(self) -> Seq<char> {
        match self {
            PgnLevel::Iron => seq!['I', 'r', 'o', 'n'],
            PgnLevel::Bronze => seq!['B', 'r', 'o', 'n', 'z', 'e'],
            PgnLevel::Silver => seq!['S', 'i', 'l', 'v', 'e', 'r'],
            PgnLevel::Gold => seq!['G', 'o', 'l', 'd'],
            PgnLevel::Platinum => seq!['P', 'l', 'a', 't', 'i', 'n', 'u', 'm'],
            PgnLevel::Diamond => seq!['D', 'i', 'a', 'm', 'o', 'n', 'd'],
            PgnLevel::Master => seq!['M', 'a', 's', 't', 'e', 'r'],
            PgnLevel::GrandMaster => seq!['G', 'r', 'a', 'n', 'd', 'M', 'a', 's', 't', 'e', 'r'],
        }
    }

    /// The rank that a name stands for, if it is the name of a rank.
    pub open spec fn named(s: Seq<char>) -> Option<PgnLevel> {
        if s == seq!['I', 'r', 'o', 'n'] {
            Some(PgnLevel::Iron)
        } else if s == seq!['B', 'r', 'o', 'n', 'z', 'e'] {
            Some(PgnLevel::Bronze)
        } else if s == seq!['S', 'i', 'l', 'v', 'e', 'r'] {
            Some(PgnLevel::Silver)
        } else if s == seq!['G', 'o', 'l', 'd'] {
            Some(PgnLevel::Gold)
        } else if s == seq!['P', 'l', 'a', 't', 'i', 'n', 'u', 'm'] {
            Some(PgnLevel::Platinum)
        } else if s == seq!['D', 'i', 'a', 'm', 'o', 'n', 'd'] {
            Some(PgnLevel::Diamond)
        } else if s == seq!['M', 'a', 's', 't', 'e', 'r'] {
            Some(PgnLevel::Master)
        } else if s == seq!['G', 'r', 'a', 'n', 'd', 'M', 'a', 's', 't', 'e', 'r'] {
            Some(PgnLevel::GrandMaster)
        } else {
            None
        }
    }

    /// The name of the rank.
    pub fn as_ref(&self) -> (r: &'static str)
        ensures
            r@ == self.name(),
    {
        proof {
            reveal_strlit("Iron");
            reveal_strlit("Bronze");
            reveal_strlit("Silver");
            reveal_strlit("Gold");
            reveal_strlit("Platinum");
            reveal_strlit("Diamond");
            reveal_strlit("Master");
            reveal_strlit("GrandMaster");
            assert("Iron"@ =~= seq!['I', 'r', 'o', 'n']);
            assert("Bronze"@ =~= seq!['B', 'r', 'o', 'n', 'z', 'e']);
            assert("Silver"@ =~= seq!['S', 'i', 'l', 'v', 'e', 'r']);
            assert("Gold"@ =~= seq!['G', 'o', 'l', 'd']);
            assert("Platinum"@ =~= seq!['P', 'l', 'a', 't', 'i', 'n', 'u', 'm']);
            assert("Diamond"@ =~= seq!['D', 'i', 'a', 'm', 'o', 'n', 'd']);
            assert("Master"@ =~= seq!['M', 'a', 's', 't', 'e', 'r']);
            assert("GrandMaster"@ =~= seq!['G', 'r', 'a', 'n', 'd', 'M', 'a', 's', 't', 'e', 'r']);
        }
        match self {
            PgnLevel::Iron => "Iron",
            PgnLevel::Bronze => "Bronze",
            PgnLevel::Silver => "Silver",
            PgnLevel::Gold => "Gold",
            PgnLevel::Platinum => "Platinum",
            PgnLevel::Diamond => "Diamond",
            PgnLevel::Master => "Master",
            PgnLevel::GrandMaster => "GrandMaster",
        }
    }

    /// The name of the rank, as an owned text.
    pub fn to_string(&self) -> (r: String)
        ensures
            r@ == self.name(),
    {
        String::from_str(self.as_ref())
    }

    /// Reads the name of a rank.
    pub fn from_str(s: &str) -> (r: Result<PgnLevel, &'static str>)
        ensures
            match PgnLevel::named(s@) {
                Some(level) => r == Ok::<PgnLevel, &'static str>(level),
                None => r is Err && r->Err_0@ == "invalid value"@,
            },
    {
        proof {
            reveal_strlit("Iron");
            reveal_strlit("Bronze");
            reveal_strlit("Silver");
            reveal_strlit("Gold");
            reveal_strlit("Platinum");
            reveal_strlit("Diamond");
            reveal_strlit("Master");
            reveal_strlit("GrandMaster");
            assert("Iron"@ =~= seq!['I', 'r', 'o', 'n']);
            assert("Bronze"@ =~= seq!['B', 'r', 'o', 'n', 'z', 'e']);
            assert("Silver"@ =~= seq!['S', 'i', 'l', 'v', 'e', 'r']);
            assert("Gold"@ =~= seq!['G', 'o', 'l', 'd']);
            assert("Platinum"@ =~= seq!['P', 'l', 'a', 't', 'i', 'n', 'u', 'm']);
            assert("Diamond"@ =~= seq!['D', 'i', 'a', 'm', 'o', 'n', 'd']);
            assert("Master"@ =~= seq!['M', 'a', 's', 't', 'e', 'r']);
            assert("GrandMaster"@ =~= seq!['G', 'r', 'a', 'n', 'd', 'M', 'a', 's', 't', 'e', 'r']);
        }
        if str_eq(s, "Iron") {
            Ok(PgnLevel::Iron)
        } else if str_eq(s, "Bronze") {
            Ok(PgnLevel::Bronze)
        } else if str_eq(s, "Silver") {
            Ok(PgnLevel::Silver)
        } else if str_eq(s, "Gold") {
            Ok(PgnLevel::Gold)
        } else if str_eq(s, "Platinum") {
            Ok(PgnLevel::Platinum)
        } else if str_eq(s, "Diamond") {
            Ok(PgnLevel::Diamond)
        } else if str_eq(s, "Master") {
            Ok(PgnLevel::Master)
        } else if str_eq(s, "GrandMaster") {
            Ok(PgnLevel::GrandMaster)
        } else {
            Err("invalid value")
        }
    }
}

/// Reading the name of a rank gives the rank back.
pub proof fn lemma_name_round_trip(level: PgnLevel)
    ensures
        PgnLevel::named(level.name()) == Some(level),
{
    assert(seq!['I', 'r', 'o', 'n'].len() == 4);
    assert(seq!['I', 'r', 'o', 'n'][0] == 'I');
    assert(seq!['B', 'r', 'o', 'n', 'z', 'e'].len() == 6);
    assert(seq!['B', 'r', 'o', 'n', 'z', 'e'][0] == 'B');
    assert(seq!['S', 'i', 'l', 'v', 'e', 'r'].len() == 6);
    assert(seq!['S', 'i', 'l', 'v', 'e', 'r'][0] == 'S');
    assert(seq!['G', 'o', 'l', 'd'].len() == 4);
    assert(seq!['G', 'o', 'l', 'd'][0] == 'G');
    assert(seq!['P', 'l', 'a', 't', 'i', 'n', 'u', 'm'].len() == 8);
    assert(seq!['P', 'l', 'a', 't', 'i', 'n', 'u', 'm'][0] == 'P');
    assert(seq!['D', 'i', 'a', 'm', 'o', 'n', 'd'].len() == 7);
    assert(seq!['D', 'i', 'a', 'm', 'o', 'n', 'd'][0] == 'D');
    assert(seq!['M', 'a', 's', 't', 'e', 'r'].len() == 6);
    assert(seq!['M', 'a', 's', 't', 'e', 'r'][0] == 'M');
    assert(seq!['G', 'r', 'a', 'n', 'd', 'M', 'a', 's', 't', 'e', 'r'].len() == 11);
    assert(seq!['G', 'r', 'a', 'n', 'd', 'M', 'a', 's', 't', 'e', 'r'][0] == 'G');
}

/// A higher total never has a lower rank.
pub proof fn lemma_tier_monotonic(t1: int, t2: int)
    requires
        t1 < t2,
    ensures
        PgnLevel::of_total(t1).index() <= PgnLevel::of_total(t2).index(),
{
}

/// The rank of a total is the one rank whose floor the total has reached and
/// whose ceiling, where there is one, it has not: the ranks' ranges leave no
/// gap and do not overlap.
pub proof fn lemma_tier_is_unique(total: int, level: PgnLevel)
    requires
        0 <= total,
    ensures
        level == PgnLevel::of_total(total) <==> (level.floor() <= total && (level.ceiling() matches Some(
            next,
        ) ==> total < next)),
{
}

/// Floors rise strictly with the rank.
pub proof fn lemma_floors_increase(a: PgnLevel, b: PgnLevel)
    requires
        a.index() < b.index(),
    ensures
        a.floor() < b.floor(),
{
}

/// Moving by a step and staying inside the eight ranks moves the position by
/// exactly that step; beyond either end the result is the end.
pub proof fn lemma_shift_saturates(level: PgnLevel, step: int)
    ensures
        0 <= level.index() + step <= 7 ==> level.shifted(step).index() == level.index() + step,
        level.index() + step < 0 ==> level.shifted(step) == PgnLevel::Iron,
        level.index() + step > 7 ==> level.shifted(step) == PgnLevel::GrandMaster,
{
}

} // verus!
