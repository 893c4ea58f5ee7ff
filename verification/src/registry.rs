//! The rule on positions in the registry of start-up functions.

use vstd::prelude::*;

verus! {

/// The largest position a start-up function can ask for.
pub const MAX_POSITION: usize = 9999;

/// A position that the registry does not take.
#[derive(Clone, Copy, Debug, PartialEq, Eq, Structural)]
pub enum PositionError {
    /// The position is above `MAX_POSITION`.
    TooLarge,
}

/// Accepts a position up to `MAX_POSITION` and refuses any other.
pub fn check_position(pos: usize) -> (result: Result<usize, PositionError>)
    ensures
        pos <= MAX_POSITION ==> result == Ok::<usize, PositionError>(pos),
        pos > MAX_POSITION ==> result == Err::<usize, PositionError>(PositionError::TooLarge),
{
    if pos > MAX_POSITION {
        Err(PositionError::TooLarge)
    } else {
        Ok(pos)
    }
}

} // verus!
