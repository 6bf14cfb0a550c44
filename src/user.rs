use vstd::prelude::*;

verus! {

/// A player as the table knows it: a display name and an id, unique per seat.
#[derive(Debug, Clone)]
pub struct Player {
    pub name: String,
    pub player_id: i32,
}

} // verus!
