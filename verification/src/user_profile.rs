//! What readers are shown of a member: identity, student record, the last
//! 28 days of activity, and the rank and progress that follow from them.

use vstd::prelude::*;
use crate::date::Date;
use crate::date::Timestamp;
use crate::pgn_level::PgnLevel;
use crate::student;
use crate::user;

verus! {

/// A member's profile.
#[derive(Debug, Clone, PartialEq, Eq)]
pub struct UserProfile {
    pub user: user::Model,
    pub student: Option<student::Model>,
    /// When the profile was put together.
    pub created_at: Timestamp,
    pub pgn: PgnInfo,
}

/// A member's rank and the progress within it.
#[derive(Debug, Clone, PartialEq, Eq)]
pub struct PgnInfo {
    /// The time of the latest batch: the data is as of then.
    pub updated_at: Timestamp,
    /// Points by day, latest day first.
    pub daily: Vec<(Date, u32)>,
    /// The rank that `last_month` holds.
    pub level: PgnLevel,
    /// Points over the days in `daily`.
    pub last_month: u32,
    /// Points above the floor of the rank.
    pub on_level: u32,
    /// Points from the floor of the rank to the floor of the next one; none
    /// at the top rank.
    pub level_length: Option<u32>,
    /// The total that reaches the next rank; none at the top rank.
    pub target: Option<u32>,
    /// Points still missing to the next rank; none at the top rank.
    pub behind_next: Option<u32>,
}

/// The sum of the amounts of a list of days, held at the largest number that
/// 32 bits can write.
pub open spec fn total_of(daily: Seq<(Date, u32)>) -> int
    decreases daily.len(),
{
    if daily.len() == 0 {
        0
    } else {
        let sum = total_of(daily.drop_last()) + daily.last().1;
        if sum > u32::MAX {
            u32::MAX as int
        } else {
            sum
        }
    }
}

/// The sum of the amounts of a list of days, held at `u32::MAX`.
pub fn rolling_total(daily: &Vec<(Date, u32)>) -> (r: u32)
    ensures
        r == total_of(daily@),
{
    let mut sum: u32 = 0;
    let mut i: usize = 0;
    while i < daily.len()
        invariant
            i <= daily@.len(),
            sum == total_of(daily@.take(i as int)),
        decreases daily@.len() - i,
    {
        proof {
            assert(daily@.take(i + 1).drop_last() =~= daily@.take(i as int));
        }
        let amount = daily[i].1;
        sum = if amount > u32::MAX - sum {
            u32::MAX
        } else {
            sum + amount
        };
        i += 1;
    }
    proof {
        assert(daily@.take(daily@.len() as int) =~= daily@);
    }
    sum
}

impl PgnInfo {
    /// Whether rank and progress are those of the total: the rank is the one
    /// that the total holds, and the distances are measured from its floor
    /// and to the floor of the next rank.
    pub open spec fn describes(self, total: u32) -> bool {
        let level = PgnLevel::of_total(total as int);
        &&& self.last_month == total
        &&& self.level == level
        &&& self.on_level == total - level.floor()
        &&& match level.ceiling() {
            Some(next) => {
                &&& self.target == Some(next as u32)
                &&& self.level_length == Some((next - level.floor()) as u32)
                &&& self.behind_next == Some((next - total) as u32)
            },
            None => {
                &&& self.target is None
                &&& self.level_length is None
                &&& self.behind_next is None
            },
        }
    }

    /// Rank and progress for a total, with the days and the time they are
    /// shown with.
    pub fn new(updated_at: Timestamp, daily: Vec<(Date, u32)>, last_month: u32) -> (r: PgnInfo)
        ensures
            r.describes(last_month),
            r.updated_at == updated_at,
            r.daily == daily,
            r.level_length matches Some(length) ==> r.on_level < length,
            r.level == PgnLevel::GrandMaster <==> r.level_length is None,
    {
        let level = PgnLevel::from(last_month);
        let base_pix = level.min_pix();
        let on_level = last_month - base_pix;
        let mut level_length = None;
        let mut target = None;
        let mut behind_next = None;
        if level != PgnLevel::GrandMaster {
            let t = (level + 1).min_pix();
            target = Some(t);
            level_length = Some(t - base_pix);
            behind_next = Some(t - last_month);
        }
        PgnInfo {
            updated_at,
            daily,
            level,
            last_month,
            on_level,
            level_length,
            target,
            behind_next,
        }
    }

    /// The progress within the rank as a fraction: the points above the floor
    /// over the length of the rank. None at the top rank.
    pub fn progress(&self) -> (r: Option<(u32, u32)>)
        ensures
            r == (match self.level_length {
                Some(length) => Some((self.on_level, length)),
                None => None,
            }),
    {
        match self.level_length {
            Some(length) => Some((self.on_level, length)),
            None => None,
        }
    }
}

/// Below the top rank the progress lies in the unit interval, 1 excluded:
/// the points above the floor are fewer than the length of the rank. At the
/// top rank there is no next floor, so no length, target or distance.
pub proof fn lemma_progress_in_unit_interval(total: u32)
    ensures
        ({
            let level = PgnLevel::of_total(total as int);
            match level.ceiling() {
                Some(next) => 0 <= total - level.floor() < next - level.floor() && level
                    != PgnLevel::GrandMaster,
                None => level == PgnLevel::GrandMaster && total >= 35000,
            }
        }),
{
}

} // verus!
