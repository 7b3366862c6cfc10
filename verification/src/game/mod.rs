use vstd::prelude::*;

use crate::GameDebug;

verus! {

pub const INPUT_BUFFER: &'static str = "input_buffer";

pub const HITSTUN: &'static str = "hitstun";

pub const FRAME_INCREMENT: &'static str = "frame_increment";

pub const MOD_INPUT_CHECK: &'static str = "modifier_input_check";

pub const PROCESS: &'static str = "process";

pub const TRANSITION: &'static str = "transition";

pub const MOVEMENT: &'static str = "movement";

pub const AXIS: &'static str = "axis";

pub const VELO: &'static str = "velo";

pub const FACE: &'static str = "face";

pub const ADD_HITBOX: &'static str = "insert_transform";

pub const ADD_HURTBOX: &'static str = "add_hurtbox";

pub const PROJECTILE: &'static str = "projectile";

pub const REMOVE_HITBOX: &'static str = "remove_hitbox";

pub const REMOVE_HURTBOX: &'static str = "remove_hurtbox";

pub const UPDATE_HIT_POS: &'static str = "update_hit_pos";

pub const UPDATE_HURT_POS: &'static str = "update_hurt_pos";

pub const COLLISION: &'static str = "collision";

pub const HIT_EVENT: &'static str = "hit_event";

/// Whether the game is paused.
#[derive(Clone, Copy, Debug, PartialEq, Eq, Structural)]
pub struct Paused(pub bool);

pub fn not_if_paused(paused: &Paused) -> (r: bool)
    ensures
        r == !paused.0,
{
    if paused.0 {
        false
    } else {
        true
    }
}

pub fn if_paused(paused: &Paused) -> (r: bool)
    ensures
        r == paused.0,
{
    if paused.0 {
        true
    } else {
        false
    }
}

pub fn on_debug(debug: &GameDebug, state: &RoundState) -> (r: bool)
    ensures
        r == (debug.0 && (*state == RoundState::Paused || *state == RoundState::Round)),
{
    if debug.0 {
        match *state {
            RoundState::Paused | RoundState::Round => true,
            _ => false,
        }
    } else {
        false
    }
}

pub fn on_debug_and_game_paused(debug: &GameDebug, paused: &Paused) -> (r: bool)
    ensures
        r == (debug.0 && paused.0),
{
    if debug.0 && paused.0 {
        true
    } else {
        false
    }
}

pub fn paused_advance_or_round(state: &RoundState) -> (r: bool)
    ensures
        r == (*state == RoundState::Paused || *state == RoundState::AdvanceFrame || *state
            == RoundState::Round),
{
    match *state {
        RoundState::Paused | RoundState::AdvanceFrame | RoundState::Round => true,
        _ => false,
    }
}

#[derive(Clone, Copy, Debug, PartialEq, Eq, Structural, Hash)]
pub enum GameState {
    Menu,
    LoadingFight,
    Fight,
}

impl Default for GameState {
    fn default() -> (s: Self)
        ensures
            s == GameState::Menu,
    {
        GameState::Menu
    }
}

/// The phases of a round, from loading to play.
#[derive(Clone, Copy, Debug, PartialEq, Eq, Structural, Hash)]
pub enum RoundState {
    EnterLoading,
    Loading,
    ExitLoading,
    EnterRound,
    Round,
    ExtraSetup,
    Paused,
    AdvanceFrame,
    Armature,
    SomethingElseEntirely,
}

impl Default for RoundState {
    fn default() -> (s: Self)
        ensures
            s == RoundState::EnterLoading,
    {
        RoundState::EnterLoading
    }
}

pub fn on_enter_loading(state: &RoundState) -> (r: bool)
    ensures
        r == (*state == RoundState::EnterLoading),
{
    match *state {
        RoundState::EnterLoading => true,
        _ => false,
    }
}

pub fn on_loading(state: &RoundState) -> (r: bool)
    ensures
        r == (*state == RoundState::Loading),
{
    match *state {
        RoundState::Loading => true,
        _ => false,
    }
}

pub fn on_exit_loading(state: &RoundState) -> (r: bool)
    ensures
        r == (*state == RoundState::ExitLoading),
{
    match *state {
        RoundState::ExitLoading => true,
        _ => false,
    }
}

pub fn on_round(state: &RoundState) -> (r: bool)
    ensures
        r == (*state == RoundState::Round || *state == RoundState::AdvanceFrame),
{
    match *state {
        RoundState::Round | RoundState::AdvanceFrame => true,
        _ => false,
    }
}

pub fn on_enter_round(state: &RoundState) -> (r: bool)
    ensures
        r == (*state == RoundState::EnterRound),
{
    match *state {
        RoundState::EnterRound => true,
        _ => false,
    }
}

pub fn on_extra_setup(state: &RoundState) -> (r: bool)
    ensures
        r == (*state == RoundState::ExtraSetup),
{
    match *state {
        RoundState::ExtraSetup => true,
        _ => false,
    }
}

pub fn on_armature(state: &RoundState) -> (r: bool)
    ensures
        r == (*state == RoundState::Armature),
{
    match *state {
        RoundState::Armature => true,
        _ => false,
    }
}

#[derive(Clone, Copy, Debug, PartialEq, Eq, Structural, Hash)]
pub enum NewGameState {
    SetupData,
    FighterDataLoading,
    Next,
}

impl Default for NewGameState {
    fn default() -> (s: Self)
        ensures
            s == NewGameState::SetupData,
    {
        NewGameState::SetupData
    }
}

} // verus!
