//! How many whole days ago a timestamp lies, and its label in the table.
use vstd::prelude::*;
use crate::text::{chars_of, decimal, push_decimal, push_chars, string_of};

verus! {

/// Nanoseconds in one second.
pub const NANOS_PER_SEC: i128 = 1_000_000_000;

/// Nanoseconds in one day of 86,400 seconds.
pub const NANOS_PER_DAY: i128 = 86_400_000_000_000;

/// A point in time: whole seconds from the Unix epoch (negative before it)
/// plus nanoseconds within that second.
#[derive(Clone, Copy, Debug, PartialEq, Eq, Structural)]
pub struct Timestamp {
    pub secs: i64,
    pub nanos: u32,
}

impl Timestamp {
    /// The timestamp as nanoseconds from the Unix epoch.
    pub open spec fn nanos_since_epoch(self) -> int {
        self.secs as int * 1_000_000_000 + self.nanos as int
    }
}

/// Whole days from `modified` to `now`; nothing when `modified` lies after
/// `now`.
pub open spec fn days_between(now: Timestamp, modified: Timestamp) -> Option<int> {
    let elapsed = now.nanos_since_epoch() - modified.nanos_since_epoch();
    if elapsed < 0 {
        None
    } else {
        Some(elapsed / (NANOS_PER_DAY as int))
    }
}

/// Whole days that have passed from `modified` to `now`, or `None` when the
/// modification lies in the future.
pub fn age_in_days(now: Timestamp, modified: Timestamp) -> (r: Option<u64>)
    ensures
        match days_between(now, modified) {
            Some(d) => r == Some(d as u64) && d <= u64::MAX,
            None => r is None,
        },
{
    let secs: i128 = now.secs as i128 - modified.secs as i128;
    let elapsed: i128 = secs * NANOS_PER_SEC + (now.nanos as i128 - modified.nanos as i128);
    if elapsed < 0 {
        None
    } else {
        let days: i128 = elapsed / NANOS_PER_DAY;
        Some(days as u64)
    }
}

/// The label that the table shows for an age: "N days ago", or "Time Error"
/// when the age is unknown (the timestamp could not be read or lies in the
/// future).
pub open spec fn age_text(age: Option<u64>) -> Seq<char> {
    match age {
        Some(d) => decimal(d as nat) + " days ago"@,
        None => "Time Error"@,
    }
}

/// The table's label for an age, as `age_text` states it.
pub fn age_label(age: Option<u64>) -> (r: String)
    ensures
        r@ == age_text(age),
{
    let mut out: Vec<char> = Vec::new();
    match age {
        Some(d) => {
            push_decimal(&mut out, d as u128);
            let tail = chars_of(" days ago");
            push_chars(&mut out, &tail);
        },
        None => {
            let tail = chars_of("Time Error");
            push_chars(&mut out, &tail);
        },
    }
    string_of(&out)
}

/// The label of the age of something last modified at `modified`, seen at
/// `now`; `None` stands for a timestamp that could not be read.
pub fn last_modified_label(now: Timestamp, modified: Option<Timestamp>) -> (r: String)
    ensures
        r@ == age_text(
            match modified {
                Some(m) => match days_between(now, m) {
                    Some(d) => Some(d as u64),
                    None => None,
                },
                None => None,
            },
        ),
{
    match modified {
        Some(m) => age_label(age_in_days(now, m)),
        None => age_label(None),
    }
}

} // verus!
