use vstd::prelude::*;

pub mod battle;
pub mod fighter;
pub mod game;
pub mod input;
pub mod util;

use crate::fighter::hit::components::HitboxData;
use crate::fighter::state::{Entity, SerializedState, State};
use crate::fighter::tables::{grouped, numbered, order_hitboxes, StateMap};

verus! {

pub const FPS: usize = 60;

pub const ROLLBACK_DEFAULT: &'static str = "rollback_default";

/// Whether the game runs in debug mode.
#[derive(Clone, Copy, Debug, PartialEq, Eq, Structural)]
pub struct GameDebug(pub bool);

/// The number of a player.
#[derive(Clone, Copy, Debug, PartialEq, Eq, Structural, Default)]
pub struct Player(pub u8);

/// Frames run since the game started.
#[derive(Clone, Copy, Debug, PartialEq, Eq, Structural, Default, Hash)]
pub struct FrameCount {
    pub frame: u32,
}

/// Counts one more frame.
pub fn increase_frame_system(frame_count: &mut FrameCount)
    requires
        old(frame_count).frame < u32::MAX,
    ensures
        final(frame_count).frame == old(frame_count).frame + 1,
{
    frame_count.frame += 1;
}

/// Why the states of a fighter cannot be built from its state list.
#[derive(Clone, Copy, Debug, PartialEq, Eq, Structural)]
pub enum PopulateError {
    /// A hitbox has no first frame.
    HitboxWithoutStart,
    /// The game-wide hitbox numbers would run past `u32::MAX`.
    TooManyHitboxes,
    /// A transition names a state id that no state has.
    UnknownTransition,
    /// No state has id 0, the state a fighter starts in.
    NoStateZero,
}

/// The hitboxes written in a state; none where it has no list.
pub open spec fn hitboxes_of(s: SerializedState) -> Seq<HitboxData> {
    match s.unsorted_hitboxes {
        Some(v) => v@,
        None => Seq::empty(),
    }
}

/// Every hitbox of every state has a first frame.
pub open spec fn all_hitboxes_start(states: Seq<SerializedState>) -> bool {
    forall|i: int, j: int|
        0 <= i < states.len() && 0 <= j < hitboxes_of(states[i]).len()
            ==> (#[trigger] hitboxes_of(states[i])[j]).window.start is Some
}

/// How many hitboxes the first `n` states hold together.
pub open spec fn hitboxes_before(states: Seq<SerializedState>, n: int) -> nat
    decreases n,
{
    if n <= 0 {
        0
    } else {
        hitboxes_before(states, n - 1) + hitboxes_of(states[n - 1]).len()
    }
}

/// The entity of each state id among the first `n` states, each state paired with the entity at
/// its position; of two states with one id, the later one counts.
pub open spec fn state_entities(states: Seq<SerializedState>, entities: Seq<Entity>, n: int) -> Map<
    u16,
    Entity,
>
    decreases n,
{
    if n <= 0 {
        Map::empty()
    } else {
        state_entities(states, entities, n - 1).insert(states[n - 1].id, entities[n - 1])
    }
}

/// Every transition of every state names a state of `map`.
pub open spec fn transitions_known(states: Seq<SerializedState>, map: Map<u16, Entity>) -> bool {
    forall|i: int, j: int|
        0 <= i < states.len() && 0 <= j < states[i].transitions@.len() ==> map.contains_key(
            #[trigger] states[i].transitions@[j],
        )
}

/// Whether a state list can be built: checked in this order, all hitboxes have a first frame,
/// their numbers fit, every transition leads to a state and there is a state 0.
pub open spec fn populate_outcome(states: Seq<SerializedState>, entities: Seq<Entity>, first_global: u32) -> Option<
    PopulateError,
> {
    let map = state_entities(states, entities, states.len() as int);
    if !all_hitboxes_start(states) {
        Some(PopulateError::HitboxWithoutStart)
    } else if first_global + hitboxes_before(states, states.len() as int) > u32::MAX {
        Some(PopulateError::TooManyHitboxes)
    } else if !transitions_known(states, map) {
        Some(PopulateError::UnknownTransition)
    } else if !map.contains_key(0) {
        Some(PopulateError::NoStateZero)
    } else {
        None
    }
}

/// State `i` of a list as built: its id, duration and triggers as written, its hitboxes numbered
/// after those of the states before it and grouped by first frame, and its transitions turned
/// into the entities of the states they name.
pub open spec fn built_from(
    built: State,
    states: Seq<SerializedState>,
    i: int,
    map: Map<u16, Entity>,
    first_global: u32,
) -> bool {
    &&& built.id == states[i].id
    &&& built.duration == states[i].duration
    &&& built.triggers == states[i].triggers
    &&& (built.hitboxes is Some <==> states[i].unsorted_hitboxes is Some)
    &&& (built.hitboxes matches Some(h) ==> h.contents() == grouped(
        numbered(hitboxes_of(states[i]), (first_global + hitboxes_before(states, i)) as u32),
    ))
    &&& built.transitions@ == states[i].transitions@.map_values(|id: u16| map[id])
}

proof fn lemma_hitboxes_before_grows(states: Seq<SerializedState>, a: int, b: int)
    requires
        0 <= a <= b,
    ensures
        hitboxes_before(states, a) <= hitboxes_before(states, b),
    decreases b,
{
    if a < b {
        lemma_hitboxes_before_grows(states, a, b - 1);
    }
}

/// What stops a state list from being built, checked in the order of `populate_outcome`; `None`
/// when it can be built.
pub fn state_list_problem(serialized: &Vec<SerializedState>, entities: &Vec<Entity>, first_global: u32) -> (r:
    Option<PopulateError>)
    requires
        serialized@.len() == entities@.len(),
    ensures
        r == populate_outcome(serialized@, entities@, first_global),
{
    let ghost ser = serialized@;
    let n = serialized.len();

    let mut i: usize = 0;
    while i < n
        invariant
            n == ser.len(),
            ser == serialized@,
            i <= n,
            forall|a: int, b: int|
                0 <= a < i && 0 <= b < hitboxes_of(ser[a]).len()
                    ==> (#[trigger] hitboxes_of(ser[a])[b]).window.start is Some,
        decreases n - i,
    {
        match &serialized[i].unsorted_hitboxes {
            Some(list) => {
                let mut j: usize = 0;
                while j < list.len()
                    invariant
                        n == ser.len(),
                        ser == serialized@,
                        i < n,
                        list@ == hitboxes_of(ser[i as int]),
                        j <= list@.len(),
                        forall|b: int| 0 <= b < j ==> (#[trigger] list@[b]).window.start is Some,
                    decreases list@.len() - j,
                {
                    if list[j].window.start.is_none() {
                        proof {
                            assert(hitboxes_of(ser[i as int])[j as int].window.start is None);
                        }
                        return Some(PopulateError::HitboxWithoutStart);
                    }
                    j += 1;
                }
            },
            None => {},
        }
        i += 1;
    }
    assert(all_hitboxes_start(ser));

    let mut total: u64 = first_global as u64;
    i = 0;
    while i < n
        invariant
            n == ser.len(),
            ser == serialized@,
            i <= n,
            total == first_global + hitboxes_before(ser, i as int),
            total <= u32::MAX,
            all_hitboxes_start(ser),
        decreases n - i,
    {
        let len: usize = match &serialized[i].unsorted_hitboxes {
            Some(list) => list.len(),
            None => 0,
        };
        assert(len == hitboxes_of(ser[i as int]).len());
        if len as u64 > 0xffff_ffffu64 - total {
            proof {
                lemma_hitboxes_before_grows(ser, i + 1, n as int);
            }
            return Some(PopulateError::TooManyHitboxes);
        }
        total = total + len as u64;
        i += 1;
    }

    let mut map = StateMap::new();
    i = 0;
    while i < n
        invariant
            n == ser.len(),
            ser == serialized@,
            n == entities@.len(),
            i <= n,
            map.contents() == state_entities(ser, entities@, i as int),
            all_hitboxes_start(ser),
            first_global + hitboxes_before(ser, n as int) <= u32::MAX,
        decreases n - i,
    {
        map.add_state(serialized[i].id, entities[i]);
        i += 1;
    }
    let ghost final_map = map.contents();

    i = 0;
    while i < n
        invariant
            n == ser.len(),
            ser == serialized@,
            i <= n,
            map.contents() == final_map,
            final_map == state_entities(ser, entities@, n as int),
            all_hitboxes_start(ser),
            first_global + hitboxes_before(ser, n as int) <= u32::MAX,
            forall|a: int, b: int|
                0 <= a < i && 0 <= b < ser[a].transitions@.len() ==> final_map.contains_key(
                    #[trigger] ser[a].transitions@[b],
                ),
        decreases n - i,
    {
        if map.resolve_transitions(&serialized[i].transitions).is_none() {
            proof {
                let j = choose|j: int|
                    0 <= j < ser[i as int].transitions@.len() && !final_map.contains_key(
                        #[trigger] ser[i as int].transitions@[j],
                    );
                assert(!transitions_known(ser, final_map));
            }
            return Some(PopulateError::UnknownTransition);
        }
        i += 1;
    }
    assert(transitions_known(ser, final_map));

    if map.get(&0).is_none() {
        return Some(PopulateError::NoStateZero);
    }

    None
}

/// Builds the states of a fighter from a state list that `state_list_problem` accepts, state `i`
/// standing for entity `i`: the map from state ids to entities, the states with their hitboxes
/// numbered from `first_global` on and their transitions resolved, and the next unused hitbox
/// number.
pub fn populate_entities_with_states(
    serialized: Vec<SerializedState>,
    entities: &Vec<Entity>,
    first_global: u32,
) -> (r: (StateMap, Vec<State>, u32))
    requires
        serialized@.len() == entities@.len(),
        populate_outcome(serialized@, entities@, first_global) is None,
    ensures
        ({
            let (map, states, next) = r;
            &&& map.contents() == state_entities(serialized@, entities@, serialized@.len() as int)
            &&& states@.len() == serialized@.len()
            &&& forall|i: int|
                0 <= i < serialized@.len() ==> built_from(
                    #[trigger] states@[i],
                    serialized@,
                    i,
                    map.contents(),
                    first_global,
                )
            &&& next == first_global + hitboxes_before(serialized@, serialized@.len() as int)
        }),
{
    let ghost ser = serialized@;
    let n = serialized.len();
    assert(all_hitboxes_start(ser));
    let mut map = StateMap::new();
    let mut i: usize = 0;
    while i < n
        invariant
            n == ser.len(),
            ser == serialized@,
            n == entities@.len(),
            i <= n,
            map.contents() == state_entities(ser, entities@, i as int),
            all_hitboxes_start(ser),
            first_global + hitboxes_before(ser, n as int) <= u32::MAX,
            populate_outcome(ser, entities@, first_global) is None,
        decreases n - i,
    {
        map.add_state(serialized[i].id, entities[i]);
        i += 1;
    }
    let ghost final_map = map.contents();
    assert(transitions_known(ser, final_map));
    let mut rest: Vec<SerializedState> = Vec::new();
    let mut source = serialized;
    while source.len() > 0
        invariant
            source@.len() + rest@.len() == n,
            n == ser.len(),
            forall|j: int| 0 <= j < source@.len() ==> #[trigger] source@[j] == ser[j],
            forall|j: int| 0 <= j < rest@.len() ==> #[trigger] rest@[j] == ser[n - 1 - j],
        decreases source@.len(),
    {
        let s = source.pop().unwrap();
        rest.push(s);
    }

    let mut states: Vec<State> = Vec::new();
    let mut global: u32 = first_global;
    let mut index: usize = 0;
    while index < n
        invariant
            n == ser.len(),
            rest@.len() == n - index,
            forall|j: int| 0 <= j < rest@.len() ==> #[trigger] rest@[j] == ser[n - 1 - j],
            index <= n,
            states@.len() == index,
            map.contents() == final_map,
            all_hitboxes_start(ser),
            transitions_known(ser, final_map),
            global == first_global + hitboxes_before(ser, index as int),
            first_global + hitboxes_before(ser, n as int) <= u32::MAX,
            forall|k: int| 0 <= k < index ==> built_from(#[trigger] states@[k], ser, k, final_map, first_global),
        decreases n - index,
    {
        let s = rest.pop().unwrap();
        assert(s == ser[index as int]);
        let SerializedState { id, debug_name: _, duration, unsorted_hitboxes, unsorted_hurtboxes: _, transitions, triggers } = s;
        let targets = match map.resolve_transitions(&transitions) {
            Some(v) => v,
            None => {
                proof {
                    let j = choose|j: int| 0 <= j < transitions@.len() && !final_map.contains_key(#[trigger] transitions@[j]);
                    assert(ser[index as int].transitions@[j] == transitions@[j]);
                }
                Vec::new()
            },
        };
        proof {
            lemma_hitboxes_before_grows(ser, index + 1, n as int);
        }
        let hitboxes = match unsorted_hitboxes {
            Some(list) => {
                proof {
                    assert forall|j: int| 0 <= j < list@.len() implies (#[trigger] list@[j]).window.start is Some by {
                        assert(hitboxes_of(ser[index as int])[j] == list@[j]);
                    }
                }
                let (schedule, next) = order_hitboxes(list, global);
                global = next;
                Some(schedule)
            },
            None => None,
        };
        let built = State { id, duration, hitboxes, transitions: targets, triggers };
        states.push(built);
        assert(built_from(states@[index as int], ser, index as int, final_map, first_global));
        index += 1;
    }
    (map, states, global)
}


} // verus!
