//! Figures shown on the statistics pages.

use vstd::prelude::*;

verus! {

/// The expenses of one month.
#[derive(Clone, Debug)]
pub struct MonthlyExpenses {
    pub name: String,
    pub total: i32,
}

/// How many repairs of each kind fell in a period.
#[derive(Clone, Copy, Debug, PartialEq, Eq, Structural)]
pub struct RepairCount {
    pub emergency_repairs: i64,
    pub scheduled_repairs: i64,
    pub total: i64,
}

/// A count that may be absent: zero where it is.
pub open spec fn count_or_zero(count: Option<i64>) -> int {
    match count {
        Some(n) => n as int,
        None => 0,
    }
}

impl RepairCount {
    /// The counts of a period, with their total. An absent count is zero.
    pub fn from_counts(emergency: Option<i64>, scheduled: Option<i64>) -> (counts: RepairCount)
        requires
            i64::MIN <= count_or_zero(emergency) + count_or_zero(scheduled) <= i64::MAX,
        ensures
            counts.emergency_repairs == count_or_zero(emergency),
            counts.scheduled_repairs == count_or_zero(scheduled),
            counts.total == count_or_zero(emergency) + count_or_zero(scheduled),
    {
        let emergency_repairs: i64 = match emergency {
            Some(n) => n,
            None => 0,
        };
        let scheduled_repairs: i64 = match scheduled {
            Some(n) => n,
            None => 0,
        };
        RepairCount {
            emergency_repairs,
            scheduled_repairs,
            total: emergency_repairs + scheduled_repairs,
        }
    }
}

} // verus!
