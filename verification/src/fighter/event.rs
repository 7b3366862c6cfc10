use vstd::prelude::*;

use std::marker::PhantomData;

use crate::fighter::modifiers::StateModifier;
use crate::fighter::state::Entity;

verus! {

/// A request to move a fighter into the state with id `to_id`.
#[derive(Clone, Copy, Debug, PartialEq, Eq, Structural)]
pub struct TransitionEvent {
    pub fighter: Entity,
    pub to_id: u16,
}

impl TransitionEvent {
    pub fn new(fighter: Entity, to_id: u16) -> (e: Self)
        ensures
            e == (TransitionEvent { fighter, to_id }),
    {
        Self { fighter, to_id }
    }
}

/// A modifier of the current state, sent at the timing `S`.
pub struct StateEvent<T: StateModifier, S: ScheduleTiming> {
    timing: PhantomData<S>,
    modifier: T,
}

impl<T: StateModifier, S: ScheduleTiming> StateEvent<T, S> {
    pub closed spec fn modifier_spec(&self) -> T {
        self.modifier
    }

    pub fn new(modifier: T) -> (e: Self)
        ensures
            e.modifier_spec() == modifier,
    {
        StateEvent { timing: PhantomData, modifier }
    }
}

/// When in a state's life a modifier acts.
pub trait ScheduleTiming {

}

/// On entering the state.
#[derive(Clone, Copy, Debug, PartialEq, Eq, Structural)]
pub struct OnEnter;

/// On leaving the state.
#[derive(Clone, Copy, Debug, PartialEq, Eq, Structural)]
pub struct OnExit;

/// On each frame in the state.
#[derive(Clone, Copy, Debug, PartialEq, Eq, Structural)]
pub struct OnProcess;

impl ScheduleTiming for OnEnter {

}

impl ScheduleTiming for OnExit {

}

impl ScheduleTiming for OnProcess {

}

/// The modifier entities of a state.
#[derive(Clone, Debug)]
pub struct ModifierEntityList(pub Vec<Entity>);

} // verus!
