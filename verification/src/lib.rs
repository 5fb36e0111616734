/*!
A `Compactor` is an append-only store of dated samples that automatically
reduces the time resolution of the data as it gets older.

A retention policy is built first, for example: keep five-minute buckets for
seven days, hourly buckets for thirty days, daily buckets for a hundred days,
and delete everything older. Samples are pushed in non-decreasing
(date, time) order; whenever the date advances, the policy is applied: old
entries are folded into coarser buckets by a user-supplied merge operation,
and entries past the maximum retention are discarded.
*/

pub mod aggregate;
pub mod calendar;
pub mod compactor;
pub mod data;
pub mod date;
pub mod policy;
pub mod resolution;
pub mod text;
pub mod time;
pub mod types;

pub use crate::aggregate::Aggregate;
pub use crate::compactor::{Compactor, CompactorBuilder, PushError};
pub use crate::date::Date;
pub use crate::policy::{Policy, PolicyBuilder, PolicyError};
pub use crate::resolution::Resolution;
pub use crate::time::Time;
pub use crate::types::{AmPm, SixHour};
