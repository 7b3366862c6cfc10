use vstd::prelude::*;

use crate::fighter::state::Entity;

verus! {

/// The entities of the two fighters.
#[derive(Clone, Copy, Debug, PartialEq, Eq, Structural)]
pub struct PlayerEntities(pub Entity, pub Entity);

impl PlayerEntities {
    pub fn get(&self, n: u8) -> (e: Entity)
        requires
            n == 1 || n == 2,
        ensures
            n == 1 ==> e == self.0,
            n == 2 ==> e == self.1,
    {
        if n == 1 {
            self.0
        } else {
            self.1
        }
    }
}

impl From<&PlayerEntities> for [Entity; 2] {
    fn from(value: &PlayerEntities) -> (r: [Entity; 2]) {
        [value.0, value.1]
    }
}

impl vstd::std_specs::convert::FromSpecImpl<&PlayerEntities> for [Entity; 2] {
    open spec fn obeys_from_spec() -> bool {
        true
    }

    open spec fn from_spec(v: &PlayerEntities) -> [Entity; 2] {
        [v.0, v.1]
    }
}

/// The health bar of a player.
#[derive(Clone, Copy, Debug, PartialEq, Eq, Structural)]
pub struct Lifebar {
    pub full: u16,
    pub current: u16,
}

impl Lifebar {
    pub fn new(full: u16) -> (l: Self)
        ensures
            l == (Lifebar { full, current: full }),
    {
        Lifebar { full, current: full }
    }
}

/// Marks the text that shows the current state.
#[derive(Clone, Copy, Debug, PartialEq, Eq, Structural)]
pub struct ChangeText;

/// Marks the camera that follows the fight.
#[derive(Clone, Copy, Debug, PartialEq, Eq, Structural)]
pub struct MatchCamera;

} // verus!
