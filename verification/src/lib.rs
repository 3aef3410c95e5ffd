//! A verified local history of a weekly ranking chart.
//!
//! The library keeps a relational record of chart snapshots fetched from a
//! backward-linked remote feed, merges new snapshots transactionally, and
//! answers the question "when did each item first appear, and at what rank?".

use vstd::prelude::*;

pub mod css;
pub mod date;
pub mod debut;
pub mod parse;
pub mod remote;
pub mod store;
pub mod sync;

verus! {

/// The failures the library reports: rejected remote fields and
/// integrity conflicts in the store.
#[derive(Clone, Copy, Debug, PartialEq, Eq, Structural)]
pub enum ChartError {
    /// A remote ordinal string that is not a decimal number in range.
    InvalidOrdinal,
    /// A remote publication date that is not a real calendar date.
    InvalidDate,
    /// A snapshot ordinal that is already recorded.
    DuplicateSnapshot,
    /// A second position for the same item in the same snapshot.
    DuplicatePosition,
}

} // verus!
