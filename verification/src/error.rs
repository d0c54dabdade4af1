use vstd::prelude::*;

verus! {

/// The failure this library itself can report.
///
/// Store, prompt and delivery failures belong to the surrounding
/// application; the scheduling core only ever rejects a malformed
/// calendar date at construction time.
#[derive(Clone, Copy, PartialEq, Eq, Structural, Debug)]
pub enum Error {
    /// The requested year/month/day hour:minute:second combination is
    /// not a real moment on the calendar.
    InvalidDate,
}

} // verus!
