//! Object identity within a universe's object list.

use vstd::prelude::*;

verus! {

/// Handle returned when an object is added to a universe: the index of the
/// object in the universe's list.  Removing an object invalidates the handles
/// of every object stored after it, so handles must not be kept across
/// removals.
#[derive(Clone, Copy, Debug, PartialEq, Eq, Structural)]
pub struct ObjectID(pub usize);

} // verus!
