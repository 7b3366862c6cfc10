use vstd::prelude::*;

pub mod animation;
pub mod event;
pub mod hit;
pub mod modifiers;
pub mod state;
pub mod systems;
pub mod tables;

verus! {

/// Marks a fighter entity.
#[derive(Clone, Copy, Debug, PartialEq, Eq, Structural, Default)]
pub struct Fighter;

} // verus!
