use vstd::prelude::*;

pub mod db;
pub mod error;
pub mod event;
pub mod sched;
pub mod timestamp;

verus! {

/// Anything the store can keep under a stable identifier.
///
/// The store accepts any value exposing such an identifier; the event
/// record is the one kind this crate ships.
pub trait HasId {
    fn get_id(&self) -> u128;
}

} // verus!
