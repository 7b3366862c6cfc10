use bevy_fighting_lib::fighter::state::Direction;
use bevy_fighting_lib::input::{
    input, ActionPresses, Action, ButtonPress, CommandInput, DirectionalInput, Input, MatchExpression,
    StateInput, LEFT, LEFT_HELD, RIGHT, RIGHT_HELD, BUFFER_SIZE, BUFFER_TIME,
};
use bevy_fighting_lib::util::Buffer;

fn none_pressed() -> ActionPresses {
    ActionPresses {
        a: false,
        b: false,
        c: false,
        j: false,
        k: false,
        l: false,
        left: false,
        right: false,
        up: false,
        down: false,
    }
}

fn button(name: &str, b: ButtonPress) -> MatchExpression {
    MatchExpression::Button(name.to_string(), b)
}

fn dir(name: &str, d: DirectionalInput, jp: bool) -> MatchExpression {
    MatchExpression::Directional(name.to_string(), d, jp)
}

fn buffer_of(newest_last: &[u32], size: usize) -> Buffer {
    let mut b = Buffer::with_capacity(size);
    for v in newest_last {
        b.insert(*v);
    }
    b
}

#[test]
fn direction_constants_match_packing() {
    assert_eq!(StateInput::left_bits(true), LEFT);
    assert_eq!(StateInput::left_bits(false), LEFT_HELD);
    assert_eq!(StateInput::right_bits(true), RIGHT);
    assert_eq!(StateInput::right_bits(false), RIGHT_HELD);
    assert_eq!(BUFFER_SIZE, 60);
    assert_eq!(BUFFER_TIME, 0);
}

#[test]
fn button_bits() {
    assert_eq!(StateInput::lp_bits(true), 64);
    assert_eq!(StateInput::lp_bits(false), 128);
    assert_eq!(StateInput::mp_bits(true), 16);
    assert_eq!(StateInput::hp_bits(false), 8);
    assert_eq!(StateInput::lk_bits(true), 1);
    assert_eq!(StateInput::mk_bits(false), 32768);
    assert_eq!(StateInput::hk_bits(true), 4096);
    assert_eq!(StateInput::up_bits(true), 12582912);
    assert_eq!(StateInput::down_bits(false), 256);
    assert_eq!(StateInput::down_bits(true), 4194560);
}

#[test]
fn pack_then_unpack_roundtrip() {
    let s = StateInput::new(
        ButtonPress::Press,
        ButtonPress::Hold,
        ButtonPress::Release,
        ButtonPress::Idle,
        ButtonPress::Hold,
        ButtonPress::Press,
        DirectionalInput::Negative,
        true,
        DirectionalInput::Positive,
        false,
    );
    let v: u32 = s.into();
    assert_eq!(StateInput::from_bits(v), s);
    assert_eq!(StateInput::from_bits(v).to_bits(), v);
}

#[test]
fn press_or_release_packs_as_idle() {
    let s = StateInput { a: ButtonPress::PressOrRelease, ..StateInput::default() };
    assert_eq!(s.to_bits(), 0);
}

#[test]
fn unreadable_direction_is_refused() {
    // x field holding 3
    assert_eq!(StateInput::try_from_bits(3 << 10), None);
    assert_eq!(StateInput::try_from_bits(LEFT), Some(StateInput::left(true)));
}

#[test]
fn reserved_bits_are_ignored_when_reading() {
    let v = StateInput::lp_bits(true) | (1 << 30);
    assert_eq!(StateInput::from_bits(v), StateInput::lp(true));
}

#[test]
fn button_press_numbers() {
    assert_eq!(ButtonPress::from_u32(0), ButtonPress::Idle);
    assert_eq!(ButtonPress::from_u32(3), ButtonPress::Release);
    assert!(ButtonPress::Hold.is_held());
    assert!(!ButtonPress::Press.is_held());
    assert_eq!(DirectionalInput::from_u32(2), DirectionalInput::Negative);
}

#[test]
fn fields_by_action() {
    let s = StateInput { c: ButtonPress::Hold, y: DirectionalInput::Negative, just_pressed_y: true, ..StateInput::default() };
    assert_eq!(s.get_button_from_action(Action::C), ButtonPress::Hold);
    assert_eq!(s.get_directional_from_button(Action::Down), (DirectionalInput::Negative, true));
    assert_eq!(s.get_directional_from_button(Action::Left), (DirectionalInput::Neutral, false));
}

#[test]
fn compare_command_by_name() {
    let s = StateInput { j: ButtonPress::Press, x: DirectionalInput::Positive, just_pressed_x: true, ..StateInput::default() };
    assert!(s.compare_command(button("lk", ButtonPress::Press)));
    assert!(!s.compare_command(button("a", ButtonPress::Press)));
    assert!(s.compare_command(dir("x", DirectionalInput::Positive, true)));
    assert!(!s.compare_command(dir("x", DirectionalInput::Positive, false)));
    assert_eq!(s.try_compare_command(&button("zz", ButtonPress::Press)), None);
}

#[test]
fn single_step_command_found_in_newest_input() {
    let b = buffer_of(&[StateInput::lp_bits(true)], 10);
    let cmd = CommandInput::new(vec![vec![button("a", ButtonPress::Press)]], 1, 0);
    assert!(cmd.compare(&b, Direction::Right));
}

#[test]
fn command_steps_are_matched_newest_first() {
    // oldest: down, then down-forward, then forward + punch (newest)
    let down = StateInput::down_bits(true);
    let fwd_punch = StateInput { x: DirectionalInput::Positive, just_pressed_x: true, a: ButtonPress::Press, ..StateInput::default() }.to_bits();
    let b = buffer_of(&[down, fwd_punch], 10);
    let cmd = CommandInput::new(
        vec![
            vec![button("a", ButtonPress::Press), dir("x", DirectionalInput::Positive, true)],
            vec![dir("y", DirectionalInput::Negative, true)],
        ],
        5,
        0,
    );
    assert!(cmd.compare(&b, Direction::Right));
}

#[test]
fn facing_left_mirrors_horizontal_input() {
    let b = buffer_of(&[StateInput::left_bits(true)], 10);
    let forward = CommandInput::new(vec![vec![dir("x", DirectionalInput::Positive, true)]], 1, 0);
    assert!(forward.compare(&b, Direction::Left));
    assert!(!forward.compare(&b, Direction::Right));
}

#[test]
fn window_limits_the_span() {
    let b = buffer_of(&[StateInput::lp_bits(true), 0, 0], 10);
    let cmd = CommandInput::new(vec![vec![button("a", ButtonPress::Press)]], 2, 0);
    // the press is three inputs back, but the first mismatch ends the search without buffer time
    assert!(!cmd.compare(&b, Direction::Right));
}

#[test]
fn buffer_time_skips_newest_inputs() {
    let b = buffer_of(&[StateInput::lp_bits(true), 0], 10);
    let strict = CommandInput::new(vec![vec![button("a", ButtonPress::Press)]], 1, 0);
    let lenient = CommandInput::new(vec![vec![button("a", ButtonPress::Press)]], 1, 1);
    assert!(!strict.compare(&b, Direction::Right));
    assert!(lenient.compare(&b, Direction::Right));
}

#[test]
fn empty_command_always_matches() {
    let b = Buffer::with_capacity(3);
    let cmd = CommandInput::new(vec![], 0, 0);
    assert!(cmd.compare(&b, Direction::Right));
    let d = CommandInput::default();
    assert!(d.compare(&b, Direction::Left));
}

#[test]
fn zero_window_never_matches_a_step() {
    let b = buffer_of(&[StateInput::lp_bits(true)], 3);
    let cmd = CommandInput::new(vec![vec![button("a", ButtonPress::Press)]], 0, 0);
    assert!(!cmd.compare(&b, Direction::Right));
    assert_eq!(CommandInput::window_default(), 1);
}

#[test]
fn bad_name_or_unreadable_input_is_reported() {
    let b = buffer_of(&[StateInput::lp_bits(true)], 3);
    let bad = CommandInput::new(vec![vec![button("q", ButtonPress::Press)]], 3, 0);
    assert_eq!(bad.try_compare(&b, Direction::Right), None);
    let b2 = buffer_of(&[3 << 10], 3);
    let ok = CommandInput::new(vec![vec![button("a", ButtonPress::Press)]], 3, 0);
    assert_eq!(ok.try_compare(&b2, Direction::Right), None);
}

#[test]
fn second_player_and_missing_controls_send_neutral() {
    let mut local = StateInput::lp(true);
    let p = ActionPresses { a: true, ..none_pressed() };
    assert_eq!(input(1, Some(p), &mut local), Input(0));
    assert_eq!(local, StateInput::lp(true));
    assert_eq!(input(0, None, &mut local), Input(0));
    assert_eq!(local, StateInput::lp(true));
}

#[test]
fn held_button_goes_press_hold_release_idle() {
    let mut local = StateInput::default();
    let held = ActionPresses { a: true, ..none_pressed() };
    let r1 = input(0, Some(held), &mut local);
    assert_eq!(local.a, ButtonPress::Press);
    assert_eq!(r1, Input(StateInput::lp_bits(true)));
    input(0, Some(held), &mut local);
    assert_eq!(local.a, ButtonPress::Hold);
    input(0, Some(none_pressed()), &mut local);
    assert_eq!(local.a, ButtonPress::Release);
    input(0, Some(none_pressed()), &mut local);
    assert_eq!(local.a, ButtonPress::Idle);
}

#[test]
fn directions_are_just_pressed_once() {
    let mut local = StateInput::default();
    let right = ActionPresses { right: true, left: true, ..none_pressed() };
    input(0, Some(right), &mut local);
    assert_eq!((local.x, local.just_pressed_x), (DirectionalInput::Positive, true));
    input(0, Some(right), &mut local);
    assert_eq!((local.x, local.just_pressed_x), (DirectionalInput::Positive, false));
    let down = ActionPresses { down: true, ..none_pressed() };
    let r = input(0, Some(down), &mut local);
    assert_eq!((local.y, local.just_pressed_y), (DirectionalInput::Negative, true));
    assert_eq!((local.x, local.just_pressed_x), (DirectionalInput::Neutral, false));
    assert_eq!(StateInput::from_bits(r.0), local);
}

#[test]
fn match_expression_default() {
    match MatchExpression::default() {
        MatchExpression::Button(name, b) => {
            assert_eq!(name, "a");
            assert_eq!(b, ButtonPress::Idle);
        }
        _ => panic!(),
    }
}

#[test]
fn same_presses_settle_after_two_frames() {
    let mut local = StateInput::new(
        ButtonPress::Release,
        ButtonPress::Hold,
        ButtonPress::Press,
        ButtonPress::Idle,
        ButtonPress::PressOrRelease,
        ButtonPress::Hold,
        DirectionalInput::Negative,
        true,
        DirectionalInput::Positive,
        false,
    );
    let p = ActionPresses { a: true, c: true, k: true, right: true, down: true, ..none_pressed() };
    input(0, Some(p), &mut local);
    input(0, Some(p), &mut local);
    assert_eq!(
        local,
        StateInput::new(
            ButtonPress::Hold,
            ButtonPress::Idle,
            ButtonPress::Hold,
            ButtonPress::Idle,
            ButtonPress::Hold,
            ButtonPress::Idle,
            DirectionalInput::Positive,
            false,
            DirectionalInput::Negative,
            false,
        )
    );
}
