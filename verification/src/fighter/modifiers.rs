use vstd::prelude::*;

use crate::fighter::state::{FrameWindow, ProjectileData};
use crate::input::CommandInput;

verus! {

/// Behaviour attached to a fighter state.
pub trait StateModifier {
    fn dyn_clone(&self) -> Box<Self> where Self: Sized;
}

/// Moves the fighter by its velocity.
#[derive(Clone, Copy, Debug, PartialEq, Eq, Structural, Default)]
pub struct Movement;

impl StateModifier for Movement {
    fn dyn_clone(&self) -> (r: Box<Self>)
        ensures
            *r == *self,
    {
        Box::new(*self)
    }
}

/// Commands, each with the id of the state it leads to.
#[derive(Clone, Debug, Default)]
pub struct InputTransition(pub Vec<(CommandInput, u16)>);

impl StateModifier for InputTransition {
    fn dyn_clone(&self) -> (r: Box<Self>)
        ensures
            r.0@.len() == self.0@.len(),
            forall|i: int|
                0 <= i < self.0@.len() ==> (#[trigger] r.0@[i]).0.same_as(self.0@[i].0) && r.0@[i].1
                    == self.0@[i].1,
    {
        let mut list: Vec<(CommandInput, u16)> = Vec::new();
        let mut i: usize = 0;
        while i < self.0.len()
            invariant
                i <= self.0@.len(),
                list@.len() == i,
                forall|j: int|
                    0 <= j < i ==> (#[trigger] list@[j]).0.same_as(self.0@[j].0) && list@[j].1
                        == self.0@[j].1,
            decreases self.0@.len() - i,
        {
            let (command, to_id) = &self.0[i];
            list.push((command.copy(), *to_id));
            i += 1;
        }
        Box::new(InputTransition(list))
    }
}

/// Turns the fighter toward the opponent while in the state.
#[derive(Clone, Copy, Debug, PartialEq, Eq, Structural, Default)]
pub struct AdjustFacing;

impl StateModifier for AdjustFacing {
    fn dyn_clone(&self) -> (r: Box<Self>)
        ensures
            *r == *self,
    {
        Box::new(*self)
    }
}

/// On leaving the state, moves the fighter to a bone's position.
#[derive(Clone, Debug, Default)]
pub struct OnExitSetPos {
    // Bone to use as reference
    pub bone: String,
}

impl StateModifier for OnExitSetPos {
    fn dyn_clone(&self) -> (r: Box<Self>)
        ensures
            r.bone@ == self.bone@,
    {
        Box::new(OnExitSetPos { bone: self.bone.clone() })
    }
}

/// On leaving the state, stops the fighter.
#[derive(Clone, Copy, Debug, PartialEq, Eq, Structural, Default)]
pub struct OnExitZeroVelo;

impl StateModifier for OnExitZeroVelo {
    fn dyn_clone(&self) -> (r: Box<Self>)
        ensures
            *r == *self,
    {
        Box::new(*self)
    }
}

/// Whether the command of an `InputWindowCheck` has been met in its window.
#[derive(Clone, Copy, Debug, PartialEq, Eq, Structural, Default)]
pub struct InputMet(pub bool);

/// A command to be met inside a window of frames of the state.
#[derive(Clone, Debug, Default)]
pub struct InputWindowCheck {
    pub window: FrameWindow,
    pub command_input: CommandInput,
}

impl StateModifier for InputWindowCheck {
    fn dyn_clone(&self) -> (r: Box<Self>)
        ensures
            r.window == self.window,
            r.command_input.same_as(self.command_input),
    {
        Box::new(InputWindowCheck { window: self.window, command_input: self.command_input.copy() })
    }
}

/// What a state creates.
#[derive(Clone, Debug)]
pub enum Object {
    Projectile(ProjectileData),
    Nothing,
}

impl Default for Object {
    fn default() -> (o: Self)
        ensures
            o is Nothing,
    {
        Object::Nothing
    }
}

/// Creates an object while in the state.
#[derive(Clone, Debug, Default)]
pub struct CreateObject(pub Object);

impl StateModifier for CreateObject {
    fn dyn_clone(&self) -> (r: Box<Self>)
        ensures
            *r == *self,
    {
        let object = match &self.0 {
            Object::Projectile(p) => Object::Projectile(
                ProjectileData {
                    name: p.name.clone(),
                    spawn_frame: p.spawn_frame,
                    life_frames: p.life_frames,
                    damage: p.damage,
                    max: p.max,
                },
            ),
            Object::Nothing => Object::Nothing,
        };
        Box::new(CreateObject(object))
    }
}

} // verus!
