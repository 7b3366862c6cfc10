use bevy_fighting_lib::fighter::modifiers::{CreateObject, Object};
use bevy_fighting_lib::fighter::state::ProjectileData;
use bevy_fighting_lib::fighter::systems::{object_system, projectile_system};
use bevy_fighting_lib::battle::{Lifebar, PlayerEntities};
use bevy_fighting_lib::fighter::animation::frame_index;
use bevy_fighting_lib::fighter::event::{StateEvent, OnEnter, TransitionEvent};
use bevy_fighting_lib::fighter::hit::components::{HitboxData, OnHit};
use bevy_fighting_lib::fighter::modifiers::{InputMet, InputWindowCheck, Movement, StateModifier};
use bevy_fighting_lib::fighter::state::{
    Conditions, CurrentState, Direction, Entity, Exclude, Facing, FighterStatus, FrameWindow,
    GroundedHitstun, Health, Owner, ProjectileReference, SerializedState, State, StateFrame, StateMap,
};
use bevy_fighting_lib::fighter::systems::{
    adjust_facing_system, advance_paused_frame, buffer_insert_system, exclude_after_hit,
    hit_event_system, hitbox_component_system, hitbox_removal_system, hitstun_system,
    increment_frame_system, modifier_input_check, process_input_system, split_hitboxes_by_owner,
    try_modifier_input_check, try_process_input_system, exclude_hit,
    transition_system, HitReaction, HitboxOwnership, InputBuffer,
};
use bevy_fighting_lib::fighter::tables::{order_hitboxes, ProjectileError};
use bevy_fighting_lib::input::{ButtonPress, CommandInput, Input, MatchExpression, StateInput};
use bevy_fighting_lib::util::Buffer;
use bevy_fighting_lib::Player;

fn status<'a>(buffer: &'a Buffer, current: u16, frame: u16, duration: Option<u16>, airborne: bool) -> FighterStatus<'a> {
    FighterStatus { current, frame, duration, buffer, facing: Direction::Right, airborne }
}

fn state(id: u16, all: Option<Vec<Conditions>>, sets: Vec<Vec<Conditions>>) -> State {
    State { id, duration: None, hitboxes: None, transitions: vec![], triggers: (all, sets) }
}

fn hitbox(start: u16, end: u16, damage: u16, on_hit: OnHit) -> HitboxData {
    HitboxData {
        priority: 0,
        id: None,
        global_id: None,
        bone: "hand".to_string(),
        bone_entity: None,
        damage,
        on_hit,
        on_air_hit: OnHit::Launch,
        blockstun: 3,
        window: FrameWindow { start: Some(start), end: Some(end) },
        rehit: None,
    }
}

fn punch() -> CommandInput {
    CommandInput::new(vec![vec![MatchExpression::Button("a".to_string(), ButtonPress::Press)]], 1, 0)
}

#[test]
fn conditions_are_checked() {
    let b = Buffer::with_capacity(4);
    let s = status(&b, 3, 5, Some(4), false);
    assert_eq!(s.try_check(&Conditions::In(vec![1, 3])), Some(true));
    assert_eq!(s.try_check(&Conditions::In(vec![1, 2])), Some(false));
    assert_eq!(s.try_check(&Conditions::NotIn(3)), Some(false));
    assert_eq!(s.try_check(&Conditions::EndDuration), Some(true));
    assert_eq!(s.try_check(&Conditions::Frame(Some(5), None)), Some(true));
    assert_eq!(s.try_check(&Conditions::Frame(None, Some(4))), Some(false));
    assert_eq!(s.try_check(&Conditions::ReachGround), Some(true));
    assert_eq!(s.try_check(&Conditions::Command(punch())), Some(false));
    let no_duration = status(&b, 3, 5, None, true);
    assert_eq!(no_duration.try_check(&Conditions::EndDuration), None);
    assert_eq!(no_duration.try_check(&Conditions::ReachGround), Some(false));
    let empty = Buffer::with_capacity(0);
    assert_eq!(status(&empty, 0, 0, None, false).try_check(&Conditions::Command(punch())), None);
}

#[test]
fn first_admitting_transition_wins() {
    let mut b = Buffer::with_capacity(4);
    b.insert(StateInput::lp_bits(true));
    let s = status(&b, 0, 2, Some(10), false);
    let blocked = state(5, Some(vec![Conditions::NotIn(0)]), vec![]);
    let needs_set = state(6, None, vec![vec![Conditions::ReachGround, Conditions::In(vec![9])], vec![Conditions::Command(punch())]]);
    let open = state(7, None, vec![]);
    let targets = vec![&blocked, &needs_set, &open];
    assert_eq!(try_process_input_system(&s, &targets), Some(Some(6)));
    assert_eq!(process_input_system(&s, &targets), Some(6));
    let targets2 = vec![&blocked, &open];
    assert_eq!(process_input_system(&s, &targets2), Some(7));
    let targets3 = vec![&blocked];
    assert_eq!(try_process_input_system(&s, &targets3), Some(None));
    assert_eq!(process_input_system(&s, &targets3), None);
    let broken = state(8, Some(vec![Conditions::EndDuration]), vec![]);
    let s2 = status(&b, 0, 2, None, false);
    assert_eq!(try_process_input_system(&s2, &vec![&broken, &open]), None);
    assert_eq!(try_process_input_system(&s2, &vec![&open, &broken]), Some(Some(7)));
}

#[test]
fn state_from_serialized_keeps_id_and_triggers() {
    let ser = SerializedState {
        id: 4,
        debug_name: Some("Jab".to_string()),
        duration: Some(12),
        unsorted_hitboxes: None,
        unsorted_hurtboxes: None,
        transitions: vec![0],
        triggers: (None, vec![]),
    };
    let s = State::from_serialized(ser);
    assert_eq!(s.id, 4);
    assert_eq!(s.duration, Some(12));
    assert!(s.hitboxes.is_none());
    assert!(s.transitions.is_empty());
}

#[test]
fn state_map_reads_back_what_was_added() {
    let mut m = StateMap::new();
    assert_eq!(m.get(&0), None);
    m.add_state(0, Entity(10));
    m.add_state(3, Entity(13));
    m.add_state(0, Entity(20));
    assert_eq!(m.get(&0), Some(&Entity(20)));
    assert_eq!(m.get(&3), Some(&Entity(13)));
    assert_eq!(m.resolve_transitions(&vec![3, 0]), Some(vec![Entity(13), Entity(20)]));
    assert_eq!(m.resolve_transitions(&vec![3, 1]), None);
}

#[test]
fn hitboxes_are_numbered_and_grouped_by_start() {
    let hs = vec![
        hitbox(3, 5, 10, OnHit::Launch),
        hitbox(7, 8, 20, OnHit::Launch),
        hitbox(3, 4, 30, OnHit::Launch),
    ];
    let (schedule, next) = order_hitboxes(hs, 100);
    assert_eq!(next, 103);
    let at3 = schedule.on_frame(3).unwrap();
    assert_eq!(at3.len(), 2);
    assert_eq!((at3[0].id, at3[0].global_id, at3[0].damage), (Some(0), Some(100), 10));
    assert_eq!((at3[1].id, at3[1].global_id, at3[1].damage), (Some(2), Some(102), 30));
    let at7 = schedule.on_frame(7).unwrap();
    assert_eq!((at7[0].id, at7[0].global_id), (Some(1), Some(101)));
    assert!(schedule.on_frame(4).is_none());

    let mut st = state(1, None, vec![]);
    st.add_hitboxes(schedule);
    assert_eq!(hitbox_component_system(&st, &StateFrame(7)).map(|v| v.len()), Some(1));
    assert!(hitbox_component_system(&st, &StateFrame(6)).is_none());
}

#[test]
fn projectiles_are_claimed_and_released() {
    let name = "fireball".to_string();
    let mut p = ProjectileReference::new();
    assert_eq!(p.claim(&name, 2), Err(ProjectileError::UnknownName));
    p.insert_ids(name.clone(), vec![(Entity(1), false), (Entity(2), false)]);
    p.insert_amount(name.clone(), 0);
    assert_eq!(p.claim(&name, 2), Ok(Some(Entity(1))));
    assert_eq!(p.claim(&name, 2), Ok(Some(Entity(2))));
    assert_eq!(p.claim(&name, 2), Ok(None));
    assert_eq!(p.release(&name, Entity(1)), Ok(()));
    assert_eq!(p.claim(&name, 2), Ok(Some(Entity(1))));
    assert_eq!(p.release(&name, Entity(9)), Err(ProjectileError::UnknownProjectile));
    assert_eq!(p.claim(&name, 5), Err(ProjectileError::AllInUse));
}

#[test]
fn release_with_no_count_is_an_error() {
    let name = "orb".to_string();
    let mut p = ProjectileReference::new();
    p.insert_ids(name.clone(), vec![(Entity(1), true)]);
    p.insert_amount(name.clone(), 0);
    assert_eq!(p.release(&name, Entity(1)), Err(ProjectileError::NoneInUse));
    assert_eq!(p.release(&"other".to_string(), Entity(1)), Err(ProjectileError::UnknownName));
}

#[test]
fn buffer_insert_only_for_first_player() {
    let mut ib = InputBuffer(Buffer::with_capacity(3));
    assert!(buffer_insert_system(&mut ib, &Player(1), Input(5)));
    assert_eq!(ib.0.get(0), Some(&5));
    assert!(!buffer_insert_system(&mut ib, &Player(2), Input(6)));
    assert_eq!(ib.0.get(0), Some(&5));
}

#[test]
fn frame_count_wraps_to_one() {
    let mut f = StateFrame(4);
    increment_frame_system(&mut f);
    assert_eq!(f, StateFrame(5));
    let mut top = StateFrame(u16::MAX);
    increment_frame_system(&mut top);
    assert_eq!(top, StateFrame(1));
    let mut p = StateFrame(9);
    advance_paused_frame(&mut p);
    assert_eq!(p, StateFrame(10));
}

#[test]
fn hitstun_ends() {
    let mut c = CurrentState(40);
    let mut f = StateFrame(11);
    let e = hitstun_system(&mut c, &mut f, Some(GroundedHitstun(10)), false, true);
    assert!(e.grounded && !e.airborne);
    assert_eq!((c, f), (CurrentState(0), StateFrame(1)));

    let mut c = CurrentState(41);
    let mut f = StateFrame(10);
    let e = hitstun_system(&mut c, &mut f, Some(GroundedHitstun(10)), false, true);
    assert!(!e.grounded && !e.airborne);
    assert_eq!((c, f), (CurrentState(41), StateFrame(10)));

    let mut c = CurrentState(42);
    let mut f = StateFrame(6);
    let e = hitstun_system(&mut c, &mut f, None, true, true);
    assert!(e.airborne);
    assert_eq!((c, f), (CurrentState(0), StateFrame(1)));

    let mut c = CurrentState(42);
    let mut f = StateFrame(1);
    let e = hitstun_system(&mut c, &mut f, None, true, true);
    assert!(!e.airborne);
}

#[test]
fn transition_resets_frame_and_input_check() {
    let mut c = CurrentState(1);
    let mut f = StateFrame(30);
    let mut met = Some(InputMet(true));
    transition_system(&mut c, &mut f, &mut met, &TransitionEvent::new(Entity(1), 8));
    assert_eq!((c, f, met), (CurrentState(8), StateFrame(1), Some(InputMet(false))));
    let mut none = None;
    transition_system(&mut c, &mut f, &mut none, &TransitionEvent::new(Entity(1), 2));
    assert_eq!(none, None);
}

#[test]
fn hits_take_health_and_set_hitstun() {
    let mut h = Health(50);
    let mut f = StateFrame(9);
    let mut c = CurrentState(3);
    let mut boxes = vec![
        (Owner(Entity(1)), Exclude(vec![Entity(5)])),
        (Owner(Entity(2)), Exclude(vec![])),
        (Owner(Entity(1)), Exclude(vec![Entity(2)])),
    ];
    let r = hit_event_system(
        &mut h,
        &mut f,
        &mut c,
        &hitbox(1, 2, 20, OnHit::Grounded { hitstun: 12 }),
        70,
        71,
        Entity(1),
        Entity(2),
        &mut boxes,
    );
    assert_eq!(r, HitReaction::Grounded(12));
    assert_eq!(boxes[0].1 .0, vec![Entity(5), Entity(2)]);
    assert!(boxes[1].1 .0.is_empty());
    assert_eq!(boxes[2].1 .0, vec![Entity(2)]);
    assert_eq!(boxes.iter().map(|b| b.0).collect::<Vec<_>>(), vec![Owner(Entity(1)), Owner(Entity(2)), Owner(Entity(1))]);
    let mut none: Vec<(Owner, Exclude)> = vec![];
    assert_eq!((h, f, c), (Health(30), StateFrame(1), CurrentState(71)));
    let r = hit_event_system(&mut h, &mut f, &mut c, &hitbox(1, 2, 99, OnHit::Launch), 70, 71, Entity(1), Entity(2), &mut none);
    assert_eq!(r, HitReaction::Launched);
    assert_eq!((h, c), (Health(0), CurrentState(70)));
    let mut f2 = StateFrame(4);
    let r = hit_event_system(&mut h, &mut f2, &mut c, &hitbox(1, 2, 1, OnHit::Stun(3)), 70, 71, Entity(1), Entity(2), &mut none);
    assert_eq!(r, HitReaction::Stunned);
    assert_eq!((f2, c), (StateFrame(4), CurrentState(70)));
}

#[test]
fn attacker_hitboxes_exclude_recipient() {
    let mut ex = Exclude::default();
    exclude_after_hit(&mut ex, &Owner(Entity(1)), Entity(1), Entity(2));
    exclude_after_hit(&mut ex, &Owner(Entity(1)), Entity(1), Entity(2));
    assert_eq!(ex.0, vec![Entity(2)]);
    exclude_after_hit(&mut ex, &Owner(Entity(3)), Entity(1), Entity(4));
    assert_eq!(ex.0, vec![Entity(2)]);
    let mut boxes = vec![(Owner(Entity(3)), Exclude(vec![])), (Owner(Entity(4)), Exclude(vec![]))];
    exclude_hit(&mut boxes, Entity(3), Entity(4));
    assert_eq!(boxes[0].1 .0, vec![Entity(4)]);
    assert!(boxes[1].1 .0.is_empty());
}

#[test]
fn state_file_reading_starts_blank_and_adds_sets() {
    let mut s = SerializedState::blank();
    assert_eq!((s.id, s.transitions.clone(), s.duration), (0, vec![0], None));
    assert!(s.triggers.0.is_none() && s.triggers.1.is_empty());
    s.add_trigger_set(vec![Conditions::EndDuration]);
    s.add_trigger_set(vec![Conditions::ReachGround, Conditions::NotIn(3)]);
    assert_eq!(s.triggers.1.len(), 2);
    assert_eq!(s.triggers.1[1].len(), 2);
}

#[test]
fn fighters_face_each_other() {
    let mut f1 = Facing(Direction::Right);
    let mut f2 = Facing(Direction::Left);
    adjust_facing_system(true, true, true, &mut f1, &mut f2);
    assert_eq!((f1, f2), (Facing(Direction::Left), Facing(Direction::Right)));
    adjust_facing_system(false, true, false, &mut f1, &mut f2);
    assert_eq!((f1, f2), (Facing(Direction::Left), Facing(Direction::Left)));
}

#[test]
fn hitboxes_split_by_owner_and_exclusion() {
    let none = Exclude(vec![]);
    let hit2 = Exclude(vec![Entity(2)]);
    let boxes = vec![
        HitboxOwnership { hitbox: Entity(10), owner: Owner(Entity(1)), exclude: &none },
        HitboxOwnership { hitbox: Entity(11), owner: Owner(Entity(1)), exclude: &hit2 },
        HitboxOwnership { hitbox: Entity(12), owner: Owner(Entity(2)), exclude: &hit2 },
        HitboxOwnership { hitbox: Entity(13), owner: Owner(Entity(3)), exclude: &none },
    ];
    let (a, b) = split_hitboxes_by_owner(&boxes, Entity(1), Entity(2));
    assert_eq!(a, vec![Entity(10)]);
    assert_eq!(b, vec![Entity(12)]);
}

#[test]
fn hitboxes_expire_after_their_window() {
    let h = hitbox(2, 5, 1, OnHit::Launch);
    assert!(!hitbox_removal_system(&h, &StateFrame(5)));
    assert!(hitbox_removal_system(&h, &StateFrame(6)));
    assert_eq!(h.get_start_frame(), 2);
    assert_eq!(h.get_end_frame(), 5);
}

#[test]
fn input_window_check_is_met_once() {
    let mut b = Buffer::with_capacity(4);
    b.insert(StateInput::lp_bits(true));
    let check = InputWindowCheck { window: FrameWindow { start: Some(2), end: Some(4) }, command_input: punch() };
    let mut met = InputMet(false);
    modifier_input_check(&mut met, &check, &status(&b, 0, 1, None, false));
    assert_eq!(met, InputMet(false));
    assert_eq!(try_modifier_input_check(&mut met, &check, &status(&b, 0, 3, None, false)), Some(()));
    assert_eq!(met, InputMet(true));
    modifier_input_check(&mut met, &check, &status(&b, 0, 9, None, false));
    assert_eq!(met, InputMet(true));
    let open = InputWindowCheck { window: FrameWindow { start: None, end: Some(4) }, command_input: punch() };
    let mut met2 = InputMet(false);
    assert_eq!(try_modifier_input_check(&mut met2, &open, &status(&b, 0, 3, None, false)), None);
    let no_end = InputWindowCheck { window: FrameWindow { start: Some(5), end: None }, command_input: punch() };
    assert_eq!(try_modifier_input_check(&mut met2, &no_end, &status(&b, 0, 3, None, false)), Some(()));
    assert_eq!(met2, InputMet(false));
    assert_eq!(try_modifier_input_check(&mut met2, &no_end, &status(&b, 0, 6, None, false)), None);
    let empty = Buffer::with_capacity(0);
    assert_eq!(try_modifier_input_check(&mut met2, &check, &status(&empty, 0, 3, None, false)), None);
    assert_eq!(met2, InputMet(false));
}

#[test]
fn player_entities_and_lifebar() {
    let p = PlayerEntities(Entity(7), Entity(8));
    assert_eq!(p.get(1), Entity(7));
    assert_eq!(p.get(2), Entity(8));
    let both: [Entity; 2] = (&p).into();
    assert_eq!(both, [Entity(7), Entity(8)]);
    let l = Lifebar::new(500);
    assert_eq!((l.full, l.current), (500, 500));
}

#[test]
fn defaults_and_small_helpers() {
    assert_eq!(CurrentState::default(), CurrentState(1));
    assert_eq!(Direction::default(), Direction::Right);
    assert_eq!(OnHit::default(), OnHit::Grounded { hitstun: 1 });
    assert_eq!(HitboxData::on_air_hit_default(), OnHit::Launch);
    assert_eq!(frame_index(7, 5), 2);
    assert_eq!(*Movement.dyn_clone(), Movement);
    let ev: StateEvent<Movement, OnEnter> = StateEvent::new(Movement);
    let _ = ev;
}

#[test]
fn state_file_keys_are_told_apart() {
    let k = |s: &str| bevy_fighting_lib::fighter::state::state_file_key(&s.to_string());
    assert_eq!(k("id"), bevy_fighting_lib::fighter::state::StateFileKey::Id);
    assert_eq!(k("debug_name"), bevy_fighting_lib::fighter::state::StateFileKey::DebugName);
    assert_eq!(k("duration"), bevy_fighting_lib::fighter::state::StateFileKey::Duration);
    assert_eq!(k("hitboxes"), bevy_fighting_lib::fighter::state::StateFileKey::Hitboxes);
    assert_eq!(k("hurtboxes"), bevy_fighting_lib::fighter::state::StateFileKey::Hurtboxes);
    assert_eq!(k("modifiers"), bevy_fighting_lib::fighter::state::StateFileKey::Modifiers);
    assert_eq!(k("transitions"), bevy_fighting_lib::fighter::state::StateFileKey::Transitions);
    assert_eq!(k("triggerAll"), bevy_fighting_lib::fighter::state::StateFileKey::TriggerAll);
    assert_eq!(k("trigger1"), bevy_fighting_lib::fighter::state::StateFileKey::Trigger);
    assert_eq!(k("secondtrigger"), bevy_fighting_lib::fighter::state::StateFileKey::Trigger);
    assert_eq!(k("trigge"), bevy_fighting_lib::fighter::state::StateFileKey::Ignored);
    assert_eq!(k("triggeR"), bevy_fighting_lib::fighter::state::StateFileKey::Ignored);
    assert_eq!(k(""), bevy_fighting_lib::fighter::state::StateFileKey::Ignored);
    assert_eq!(k("ID"), bevy_fighting_lib::fighter::state::StateFileKey::Ignored);
}

fn serialized(id: u16, hitboxes: Option<Vec<HitboxData>>, transitions: Vec<u16>) -> SerializedState {
    SerializedState {
        id,
        debug_name: None,
        duration: Some(10),
        unsorted_hitboxes: hitboxes,
        unsorted_hurtboxes: None,
        transitions,
        triggers: (None, vec![vec![Conditions::EndDuration]]),
    }
}

#[test]
fn states_are_populated_in_order() {
    let list = vec![
        serialized(0, None, vec![4, 0]),
        serialized(4, Some(vec![hitbox(2, 3, 5, OnHit::Launch), hitbox(2, 6, 7, OnHit::Launch)]), vec![0]),
        serialized(9, Some(vec![hitbox(1, 1, 9, OnHit::Launch)]), vec![]),
    ];
    let entities = vec![Entity(10), Entity(11), Entity(12)];
    let (map, states, next) =
        {
        assert_eq!(bevy_fighting_lib::state_list_problem(&list, &entities, 40), None);
        bevy_fighting_lib::populate_entities_with_states(list, &entities, 40)
    };
    assert_eq!(next, 43);
    assert_eq!(map.get(&0), Some(&Entity(10)));
    assert_eq!(map.get(&4), Some(&Entity(11)));
    assert_eq!(map.get(&9), Some(&Entity(12)));
    assert_eq!(states.len(), 3);
    assert_eq!(states.iter().map(|s| s.id).collect::<Vec<_>>(), vec![0, 4, 9]);
    assert_eq!(states[0].transitions, vec![Entity(11), Entity(10)]);
    assert_eq!(states[1].transitions, vec![Entity(10)]);
    assert!(states[2].transitions.is_empty());
    assert!(states[0].hitboxes.is_none());
    let at2 = states[1].hitboxes.as_ref().unwrap().on_frame(2).unwrap();
    assert_eq!(at2.iter().map(|h| h.global_id).collect::<Vec<_>>(), vec![Some(40), Some(41)]);
    let at1 = states[2].hitboxes.as_ref().unwrap().on_frame(1).unwrap();
    assert_eq!((at1[0].id, at1[0].global_id), (Some(0), Some(42)));
    assert_eq!(states[1].duration, Some(10));
}

#[test]
fn later_state_with_same_id_wins() {
    let list = vec![serialized(0, None, vec![]), serialized(0, None, vec![0])];
    let entities = vec![Entity(1), Entity(2)];
    assert_eq!(bevy_fighting_lib::state_list_problem(&list, &entities, 0), None);
    let (map, states, _) = bevy_fighting_lib::populate_entities_with_states(list, &entities, 0);
    assert_eq!(map.get(&0), Some(&Entity(2)));
    assert_eq!(states[1].transitions, vec![Entity(2)]);
}

#[test]
fn bad_state_lists_are_refused() {
    use_error(vec![serialized(0, Some(vec![hitbox(1, 2, 1, OnHit::Launch)]), vec![3])], 0,
        bevy_fighting_lib::PopulateError::UnknownTransition);
    use_error(vec![serialized(1, None, vec![])], 0, bevy_fighting_lib::PopulateError::NoStateZero);
    use_error(
        vec![serialized(0, Some(vec![hitbox(1, 2, 1, OnHit::Launch), hitbox(1, 2, 1, OnHit::Launch)]), vec![])],
        u32::MAX - 1,
        bevy_fighting_lib::PopulateError::TooManyHitboxes,
    );
    let mut no_start = hitbox(1, 2, 1, OnHit::Launch);
    no_start.window.start = None;
    use_error(vec![serialized(5, Some(vec![no_start]), vec![9])], u32::MAX,
        bevy_fighting_lib::PopulateError::HitboxWithoutStart);
}

fn use_error(list: Vec<SerializedState>, first: u32, expected: bevy_fighting_lib::PopulateError) {
    let entities: Vec<Entity> = (0..list.len() as u64).map(Entity).collect();
    assert_eq!(bevy_fighting_lib::state_list_problem(&list, &entities, first), Some(expected));
}

#[test]
fn refused_claims_and_releases_change_nothing() {
    let name = "orb".to_string();
    let mut p = ProjectileReference::new();
    p.insert_ids(name.clone(), vec![(Entity(1), true)]);
    p.insert_amount(name.clone(), 0);
    assert_eq!(p.claim(&name, 5), Err(ProjectileError::AllInUse));
    assert_eq!(p.release(&name, Entity(1)), Err(ProjectileError::NoneInUse));
    assert_eq!(p.claim(&name, 5), Err(ProjectileError::AllInUse));
    assert_eq!(p.release(&name, Entity(7)), Err(ProjectileError::UnknownProjectile));
    let other = "spark".to_string();
    p.insert_amount(other.clone(), 0);
    assert_eq!(p.claim(&other, 5), Err(ProjectileError::UnknownName));
    p.insert_ids(other.clone(), vec![(Entity(3), false)]);
    assert_eq!(p.claim(&other, 5), Ok(Some(Entity(3))));
    assert_eq!(p.claim(&other, 1), Ok(None));
    assert_eq!(p.release(&other, Entity(3)), Ok(()));
    assert_eq!(p.claim(&other, 1), Ok(Some(Entity(3))));
}

#[test]
fn objects_spawn_on_their_frame_and_expire_with_their_life() {
    let data = ProjectileData { name: "ball".to_string(), spawn_frame: 4, life_frames: 30, damage: 5, max: 1 };
    let object = CreateObject(Object::Projectile(data.clone()));
    let mut p = ProjectileReference::new();
    p.insert_ids(data.name.clone(), vec![(Entity(8), false)]);
    p.insert_amount(data.name.clone(), 0);
    assert_eq!(object_system(&object, &StateFrame(3), &mut p), Ok(None));
    assert_eq!(object_system(&object, &StateFrame(4), &mut p), Ok(Some(Entity(8))));
    assert_eq!(object_system(&object, &StateFrame(4), &mut p), Ok(None));
    assert_eq!(projectile_system(&data, &StateFrame(29), Entity(8), &mut p), Ok(false));
    assert_eq!(projectile_system(&data, &StateFrame(30), Entity(8), &mut p), Ok(true));
    assert_eq!(projectile_system(&data, &StateFrame(30), Entity(8), &mut p), Err(ProjectileError::NoneInUse));
    assert_eq!(object_system(&object, &StateFrame(4), &mut p), Ok(Some(Entity(8))));
}

#[test]
fn modifiers_copy_themselves() {
    let t = bevy_fighting_lib::fighter::modifiers::InputTransition(vec![(punch(), 7), (CommandInput::default(), 2)]);
    let c = t.dyn_clone();
    assert_eq!(c.0.iter().map(|(_, id)| *id).collect::<Vec<_>>(), vec![7, 2]);
    let mut b = Buffer::with_capacity(4);
    b.insert(StateInput::lp_bits(true));
    assert_eq!(c.0[0].0.try_compare(&b, Direction::Right), Some(true));
    let w = InputWindowCheck { window: FrameWindow { start: Some(2), end: Some(5) }, command_input: punch() };
    let wc = w.dyn_clone();
    assert_eq!(wc.window, w.window);
    assert_eq!(wc.command_input.try_compare(&b, Direction::Right), Some(true));
    let data = ProjectileData { name: "ball".to_string(), spawn_frame: 4, life_frames: 30, damage: 5, max: 2 };
    let o = CreateObject(Object::Projectile(data)).dyn_clone();
    match &o.0 {
        Object::Projectile(p) => assert_eq!((p.name.as_str(), p.spawn_frame, p.life_frames, p.damage, p.max), ("ball", 4, 30, 5, 2)),
        Object::Nothing => panic!("lost the projectile"),
    }
}
