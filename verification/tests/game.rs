use bevy_fighting_lib::fighter::systems::{last_debug_system, pause_system};
use bevy_fighting_lib::game::{
    if_paused, not_if_paused, on_armature, on_debug, on_debug_and_game_paused, on_enter_loading,
    on_enter_round, on_exit_loading, on_extra_setup, on_loading, on_round, paused_advance_or_round,
    GameState, NewGameState, Paused, RoundState,
};
use bevy_fighting_lib::GameDebug;

#[test]
fn pause_toggles_and_steps() {
    let mut p = Paused(false);
    assert_eq!(pause_system(&mut p, true, false), (RoundState::Paused, false));
    assert_eq!(p, Paused(true));
    assert_eq!(pause_system(&mut p, false, true), (RoundState::AdvanceFrame, true));
    assert_eq!(pause_system(&mut p, true, true), (RoundState::Round, false));
    assert_eq!(p, Paused(false));
}

#[test]
fn last_debug_keeps_pause() {
    let mut s = RoundState::Round;
    last_debug_system(&Paused(false), &mut s);
    assert_eq!(s, RoundState::Round);
    last_debug_system(&Paused(true), &mut s);
    assert_eq!(s, RoundState::Paused);
}

#[test]
fn run_conditions() {
    assert!(not_if_paused(&Paused(false)));
    assert!(!not_if_paused(&Paused(true)));
    assert!(if_paused(&Paused(true)));
    assert!(on_debug(&GameDebug(true), &RoundState::Paused));
    assert!(!on_debug(&GameDebug(true), &RoundState::Loading));
    assert!(!on_debug(&GameDebug(false), &RoundState::Round));
    assert!(on_debug_and_game_paused(&GameDebug(true), &Paused(true)));
    assert!(!on_debug_and_game_paused(&GameDebug(false), &Paused(true)));
    assert!(paused_advance_or_round(&RoundState::AdvanceFrame));
    assert!(!paused_advance_or_round(&RoundState::Armature));
    assert!(on_enter_loading(&RoundState::EnterLoading));
    assert!(on_loading(&RoundState::Loading));
    assert!(on_exit_loading(&RoundState::ExitLoading));
    assert!(on_round(&RoundState::AdvanceFrame));
    assert!(!on_round(&RoundState::Paused));
    assert!(on_enter_round(&RoundState::EnterRound));
    assert!(on_extra_setup(&RoundState::ExtraSetup));
    assert!(on_armature(&RoundState::Armature));
    assert_eq!(RoundState::default(), RoundState::EnterLoading);
    assert_eq!(GameState::default(), GameState::Menu);
    assert_eq!(NewGameState::default(), NewGameState::SetupData);
}

#[test]
fn frame_count_increases_by_one() {
    let mut f = bevy_fighting_lib::FrameCount::default();
    bevy_fighting_lib::increase_frame_system(&mut f);
    bevy_fighting_lib::increase_frame_system(&mut f);
    assert_eq!(f.frame, 2);
}
