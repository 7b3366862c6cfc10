use vstd::prelude::*;

use crate::fighter::hit::components::HitboxData;
use crate::input::CommandInput;
use crate::util::Buffer;

pub use crate::fighter::tables::{HitboxSchedule, ProjectileReference, StateMap};

verus! {

/// A count of game frames.
pub type Frame = u16;

/// An entity of the game world, by its 64-bit identifier.
#[derive(Clone, Copy, Debug, PartialEq, Eq, Structural, Hash)]
pub struct Entity(pub u64);

/// The side a fighter faces.
#[derive(Clone, Copy, Debug, PartialEq, Eq, Structural)]
pub enum Direction {
    Left,
    Right,
}

impl Default for Direction {
    fn default() -> (d: Self)
        ensures
            d == Direction::Right,
    {
        Direction::Right
    }
}

#[derive(Clone, Copy, Debug, PartialEq, Eq, Structural)]
pub struct Facing(pub Direction);

impl Default for Facing {
    fn default() -> (f: Self)
        ensures
            f == Facing(Direction::Right),
    {
        Facing(Direction::Right)
    }
}

#[derive(Clone, Copy, Debug, PartialEq, Eq, Structural, Default)]
pub struct Health(pub u16);

#[derive(Clone, Copy, Debug, PartialEq, Eq, Structural, Default)]
pub struct InHitstun(pub u16);

/// The id of the state a fighter is in.
#[derive(Clone, Copy, Debug, PartialEq, Eq, Structural)]
pub struct CurrentState(pub u16);

impl Default for CurrentState {
    fn default() -> (c: Self)
        ensures
            c == CurrentState(1),
    {
        Self(1)
    }
}

/// How many frames a fighter has spent in its current state.
#[derive(Clone, Copy, Debug, PartialEq, Eq, Structural, Default)]
pub struct StateFrame(pub u16);

/// The fighter an entity belongs to.
#[derive(Clone, Copy, Debug, PartialEq, Eq, Structural)]
pub struct Owner(pub Entity);

/// A span of frames; either end may be open.
#[derive(Clone, Copy, Debug, PartialEq, Eq, Structural, Default)]
pub struct FrameWindow {
    pub start: Option<Frame>,
    pub end: Option<Frame>,
}

impl FrameWindow {
    pub fn get_start_frame(&self) -> (f: Frame)
        requires
            self.start is Some,
        ensures
            f == self.start->0,
    {
        match self.start {
            Some(f) => f,
            None => {
                proof {
                    assert(false);
                }
                0
            },
        }
    }

    pub fn get_end_frame(&self) -> (f: Frame)
        requires
            self.end is Some,
        ensures
            f == self.end->0,
    {
        match self.end {
            Some(f) => f,
            None => {
                proof {
                    assert(false);
                }
                0
            },
        }
    }

    /// Whether a frame lies inside the window.
    pub open spec fn holds(self, frame: Frame) -> bool {
        (self.start is None || frame >= self.start->0) && (self.end is None || frame <= self.end->0)
    }
}

/// A test that decides whether a fighter may move into a state.
#[derive(Clone, Debug)]
pub enum Conditions {
    /// The current state is one of these.
    In(Vec<u16>),
    /// The current state is not this one.
    NotIn(u16),
    /// The input buffer holds this command.
    Command(CommandInput),
    /// The current state has run past its duration.
    EndDuration,
    /// The current frame lies between these frames, each bound optional.
    Frame(Option<u16>, Option<u16>),
    /// The fighter is on the ground.
    ReachGround,
}

/// What a fighter's transition checks read about it.
pub struct FighterStatus<'a> {
    pub current: u16,
    pub frame: Frame,
    pub duration: Option<u16>,
    pub buffer: &'a Buffer,
    pub facing: Direction,
    pub airborne: bool,
}

impl<'a> FighterStatus<'a> {
    /// Whether a condition holds; `None` where checking it fails: an end of duration for a
    /// state without one, or a command that cannot be checked against the buffer.
    pub open spec fn check(self, c: Conditions) -> Option<bool> {
        match c {
            Conditions::In(n) => Some(n@.contains(self.current)),
            Conditions::NotIn(n) => Some(n != self.current),
            Conditions::Command(command) => if self.buffer.ring().len() == 0 {
                None
            } else {
                command.outcome(self.buffer.iter_items(), self.facing)
            },
            Conditions::EndDuration => match self.duration {
                Some(d) => Some(self.frame > d),
                None => None,
            },
            Conditions::Frame(start, end) => Some(
                FrameWindow { start, end }.holds(self.frame),
            ),
            Conditions::ReachGround => Some(!self.airborne),
        }
    }

    /// Whether all conditions from `k` on hold, checked in order and stopping at the first
    /// that does not.
    pub open spec fn check_all(self, cs: Seq<Conditions>, k: nat) -> Option<bool>
        decreases cs.len() - k,
    {
        if k >= cs.len() {
            Some(true)
        } else {
            match self.check(cs[k as int]) {
                None => None,
                Some(false) => Some(false),
                Some(true) => self.check_all(cs, k + 1),
            }
        }
    }

    /// Whether one of the condition sets from `i` on holds entirely, checked in order.
    pub open spec fn check_any_set(self, sets: Seq<Vec<Conditions>>, i: nat) -> Option<bool>
        decreases sets.len() - i,
    {
        if i >= sets.len() {
            Some(false)
        } else {
            match self.check_all(sets[i as int]@, 0) {
                None => None,
                Some(true) => Some(true),
                Some(false) => self.check_any_set(sets, i + 1),
            }
        }
    }

    /// Whether a state's triggers let the fighter move into it: every condition of the first
    /// part, and then either no condition sets at all or one set met entirely.
    pub open spec fn admits(self, triggers: (Option<Vec<Conditions>>, Vec<Vec<Conditions>>)) -> Option<
        bool,
    > {
        let sets = match triggers.0 {
            Some(all) => match self.check_all(all@, 0) {
                None => None,
                Some(false) => Some(false),
                Some(true) => Some(true),
            },
            None => Some(true),
        };
        match sets {
            None => None,
            Some(false) => Some(false),
            Some(true) => if triggers.1@.len() == 0 {
                Some(true)
            } else {
                self.check_any_set(triggers.1@, 0)
            },
        }
    }

    /// The first of the states from `i` on that admits the fighter.
    pub open spec fn choose_from(self, targets: Seq<&State>, i: nat) -> Option<Option<u16>>
        decreases targets.len() - i,
    {
        if i >= targets.len() {
            Some(None)
        } else {
            match self.admits(targets[i as int].triggers) {
                None => None,
                Some(true) => Some(Some(targets[i as int].id)),
                Some(false) => self.choose_from(targets, i + 1),
            }
        }
    }
}

impl<'a> FighterStatus<'a> {
    pub fn try_check(&self, c: &Conditions) -> (r: Option<bool>)
        ensures
            r == self.check(*c),
    {
        match c {
            Conditions::In(n) => Some(vec_contains(n, self.current)),
            Conditions::NotIn(n) => Some(*n != self.current),
            Conditions::Command(command) => {
                if self.buffer.ring_len() == 0 {
                    None
                } else {
                    command.try_compare(self.buffer, self.facing)
                }
            },
            Conditions::EndDuration => match self.duration {
                Some(d) => Some(self.frame > d),
                None => None,
            },
            Conditions::Frame(start, end) => {
                let mut ok = true;
                if let Some(start) = start {
                    if self.frame < *start {
                        ok = false;
                    }
                }
                if let Some(end) = end {
                    if self.frame > *end {
                        ok = false;
                    }
                }
                Some(ok)
            },
            Conditions::ReachGround => Some(!self.airborne),
        }
    }

    pub fn try_check_all(&self, cs: &Vec<Conditions>) -> (r: Option<bool>)
        ensures
            r == self.check_all(cs@, 0),
            r == Some(true) <==> forall|k: int| 0 <= k < cs@.len() ==> #[trigger] self.check(cs@[k]) == Some(true),
    {
        proof {
            lemma_conditions_all_must_hold(*self, cs@);
        }
        let mut k: usize = 0;
        while k < cs.len()
            invariant
                self.check_all(cs@, k as nat) == self.check_all(cs@, 0),
                k <= cs.len(),
            decreases cs.len() - k,
        {
            match self.try_check(&cs[k]) {
                None => {
                    return None;
                },
                Some(false) => {
                    return Some(false);
                },
                Some(true) => {},
            }
            k += 1;
        }
        Some(true)
    }

    pub fn try_admits(&self, triggers: &(Option<Vec<Conditions>>, Vec<Vec<Conditions>>)) -> (r: Option<
        bool,
    >)
        ensures
            r == self.admits(*triggers),
    {
        if let Some(all) = &triggers.0 {
            match self.try_check_all(all) {
                None => {
                    return None;
                },
                Some(false) => {
                    return Some(false);
                },
                Some(true) => {},
            }
        }
        let sets = &triggers.1;
        if sets.len() == 0 {
            return Some(true);
        }
        let mut i: usize = 0;
        while i < sets.len()
            invariant
                self.check_any_set(sets@, i as nat) == self.check_any_set(sets@, 0),
                i <= sets.len(),
                sets@ == triggers.1@,
                sets@.len() > 0,
                triggers.0 matches Some(all) ==> self.check_all(all@, 0) == Some(true),
            decreases sets.len() - i,
        {
            match self.try_check_all(&sets[i]) {
                None => {
                    return None;
                },
                Some(true) => {
                    return Some(true);
                },
                Some(false) => {},
            }
            i += 1;
        }
        Some(false)
    }
}

/// A state whose triggers hold no conditions at all admits every fighter.
pub proof fn lemma_no_triggers_admit(status: FighterStatus, sets: Vec<Vec<Conditions>>)
    requires
        sets@.len() == 0,
    ensures
        status.admits((None, sets)) == Some(true),
{
}

/// Every condition of `cs` from `k` on holds.
pub open spec fn all_hold_from(status: FighterStatus, cs: Seq<Conditions>, k: int) -> bool {
    forall|j: int| k <= j < cs.len() ==> #[trigger] status.check(cs[j]) == Some(true)
}

proof fn lemma_check_all_from(status: FighterStatus, cs: Seq<Conditions>, k: nat)
    ensures
        status.check_all(cs, k) == Some(true) ==> all_hold_from(status, cs, k as int),
        all_hold_from(status, cs, k as int) ==> status.check_all(cs, k) == Some(true),
        forall|m: int|
            k <= m < cs.len() && #[trigger] status.check(cs[m]) == Some(false) && (forall|j: int|
                k <= j < m ==> #[trigger] status.check(cs[j]) == Some(true)) ==> status.check_all(cs, k)
                == Some(false),
    decreases cs.len() - k,
{
    if k < cs.len() {
        lemma_check_all_from(status, cs, k + 1);
        assert forall|m: int|
            k <= m < cs.len() && #[trigger] status.check(cs[m]) == Some(false) && (forall|j: int|
                k <= j < m ==> #[trigger] status.check(cs[j]) == Some(true)) implies status.check_all(
            cs,
            k,
        ) == Some(false) by {
            if m > k {
                assert(status.check(cs[k as int]) == Some(true));
                assert(forall|j: int| k + 1 <= j < m ==> #[trigger] status.check(cs[j]) == Some(true));
            }
        }
        if status.check_all(cs, k) == Some(true) {
            assert(status.check(cs[k as int]) == Some(true));
        }
        if all_hold_from(status, cs, k as int) {
            assert(status.check(cs[k as int]) == Some(true));
        }
    }
}

/// A list of conditions holds exactly when every condition in it holds, and a list whose first
/// failing check is a plain `false` (every earlier one holding) does not hold.
pub proof fn lemma_conditions_all_must_hold(status: FighterStatus, cs: Seq<Conditions>)
    ensures
        status.check_all(cs, 0) == Some(true) <==> forall|k: int|
            0 <= k < cs.len() ==> #[trigger] status.check(cs[k]) == Some(true),
        forall|m: int|
            0 <= m < cs.len() && #[trigger] status.check(cs[m]) == Some(false) && (forall|j: int|
                0 <= j < m ==> #[trigger] status.check(cs[j]) == Some(true)) ==> status.check_all(cs, 0)
                == Some(false),
{
    lemma_check_all_from(status, cs, 0);
}

proof fn lemma_check_any_set_from(status: FighterStatus, sets: Seq<Vec<Conditions>>, i: nat)
    ensures
        status.check_any_set(sets, i) == Some(true) ==> exists|s: int|
            i <= s < sets.len() && all_hold_from(status, #[trigger] sets[s]@, 0),
    decreases sets.len() - i,
{
    if i < sets.len() {
        lemma_check_any_set_from(status, sets, i + 1);
        lemma_check_all_from(status, sets[i as int]@, 0);
        if status.check_all(sets[i as int]@, 0) == Some(true) {
            assert(all_hold_from(status, sets[i as int]@, 0));
        }
    }
}

/// A state admits a fighter only when every condition of its first part holds and, if it has
/// condition sets, every condition of one of those sets holds.
pub proof fn lemma_admitted_triggers_hold(
    status: FighterStatus,
    triggers: (Option<Vec<Conditions>>, Vec<Vec<Conditions>>),
)
    ensures
        status.admits(triggers) == Some(true) ==> {
            &&& triggers.0 matches Some(all) ==> forall|k: int|
                0 <= k < all@.len() ==> #[trigger] status.check(all@[k]) == Some(true)
            &&& triggers.1@.len() > 0 ==> exists|s: int|
                0 <= s < triggers.1@.len() && forall|k: int|
                    0 <= k < (#[trigger] triggers.1@[s])@.len() ==> #[trigger] status.check(
                        triggers.1@[s]@[k],
                    ) == Some(true)
        },
{
    if let Some(all) = triggers.0 {
        lemma_check_all_from(status, all@, 0);
    }
    lemma_check_any_set_from(status, triggers.1@, 0);
    if status.admits(triggers) == Some(true) && triggers.1@.len() > 0 {
        let s = choose|s: int| 0 <= s < triggers.1@.len() && all_hold_from(status, #[trigger] triggers.1@[s]@, 0);
        assert(forall|k: int| 0 <= k < triggers.1@[s]@.len() ==> #[trigger] status.check(triggers.1@[s]@[k]) == Some(true));
    }
}

fn vec_contains(v: &Vec<u16>, x: u16) -> (r: bool)
    ensures
        r == v@.contains(x),
{
    let mut i: usize = 0;
    while i < v.len()
        invariant
            forall|j: int| 0 <= j < i ==> v@[j] != x,
            i <= v.len(),
        decreases v.len() - i,
    {
        if v[i] == x {
            return true;
        }
        i += 1;
    }
    false
}

/// A state of a fighter's state machine.
pub struct State {
    pub id: u16,
    pub duration: Option<u16>,
    pub hitboxes: Option<HitboxSchedule>,
    pub transitions: Vec<Entity>,
    pub triggers: (Option<Vec<Conditions>>, Vec<Vec<Conditions>>),
}

impl State {
    pub fn from_serialized(serialized: SerializedState) -> (s: Self)
        ensures
            s.id == serialized.id,
            s.duration == serialized.duration,
            s.hitboxes is None,
            s.transitions@.len() == 0,
            s.triggers == serialized.triggers,
    {
        State {
            id: serialized.id,
            duration: serialized.duration,
            hitboxes: None,
            transitions: Vec::new(),
            triggers: serialized.triggers,
        }
    }

    pub fn add_hitboxes(&mut self, hitboxes: HitboxSchedule)
        ensures
            final(self).hitboxes == Some(hitboxes),
            final(self).id == old(self).id,
            final(self).duration == old(self).duration,
            final(self).transitions == old(self).transitions,
            final(self).triggers == old(self).triggers,
    {
        self.hitboxes = Some(hitboxes);
    }
}

/// A state as read from a state file, before its hitboxes are scheduled and its transitions
/// resolved to entities.
pub struct SerializedState {
    pub id: u16,
    pub debug_name: Option<String>,
    pub duration: Option<u16>,
    pub unsorted_hitboxes: Option<Vec<HitboxData>>,
    pub unsorted_hurtboxes: Option<Vec<HurtboxData>>,
    pub transitions: Vec<u16>,
    pub triggers: (Option<Vec<Conditions>>, Vec<Vec<Conditions>>),
}

impl SerializedState {
    /// A state as reading a state object starts it, before any key: id 0, no name, duration,
    /// hitboxes or hurtboxes, a single transition to state 0, and no triggers.
    pub fn blank() -> (s: Self)
        ensures
            s.id == 0,
            s.debug_name is None,
            s.duration is None,
            s.unsorted_hitboxes is None,
            s.unsorted_hurtboxes is None,
            s.transitions@ == seq![0u16],
            s.triggers.0 is None,
            s.triggers.1@.len() == 0,
    {
        let transitions = vec![0u16];
        assert(transitions@ =~= seq![0u16]);
        SerializedState {
            id: 0,
            debug_name: None,
            duration: None,
            unsorted_hitboxes: None,
            unsorted_hurtboxes: None,
            transitions,
            triggers: (None, Vec::new()),
        }
    }

    /// Records the condition set read under a key that contains "trigger": one more set, after
    /// those read before; nothing else changes.
    pub fn add_trigger_set(&mut self, set: Vec<Conditions>)
        ensures
            final(self).triggers.1@ == old(self).triggers.1@.push(set),
            final(self).triggers.0 == old(self).triggers.0,
            final(self).id == old(self).id,
            final(self).debug_name == old(self).debug_name,
            final(self).duration == old(self).duration,
            final(self).unsorted_hitboxes == old(self).unsorted_hitboxes,
            final(self).unsorted_hurtboxes == old(self).unsorted_hurtboxes,
            final(self).transitions == old(self).transitions,
    {
        self.triggers.1.push(set);
    }
}

/// What a key of a state object in a state file stands for.
#[derive(Clone, Copy, Debug, PartialEq, Eq, Structural)]
pub enum StateFileKey {
    Id,
    DebugName,
    Duration,
    Hitboxes,
    Hurtboxes,
    Modifiers,
    Transitions,
    /// The conditions that must all hold.
    TriggerAll,
    /// One more set of conditions of which one set must hold.
    Trigger,
    /// A key with no meaning, skipped.
    Ignored,
}

/// The letters of the word that marks a condition set.
pub open spec fn trigger_word() -> Seq<char> {
    seq!['t', 'r', 'i', 'g', 'g', 'e', 'r']
}

/// Whether `word` occurs in `s` starting at position `i`.
pub open spec fn occurs_at(s: Seq<char>, word: Seq<char>, i: int) -> bool {
    0 <= i && i + word.len() <= s.len() && s.subrange(i, i + word.len()) == word
}

/// The meaning of a key of a state object: the exact names first, then any other key that
/// contains the word "trigger".
pub open spec fn state_file_key_spec(key: Seq<char>) -> StateFileKey {
    if key == "id"@ {
        StateFileKey::Id
    } else if key == "debug_name"@ {
        StateFileKey::DebugName
    } else if key == "duration"@ {
        StateFileKey::Duration
    } else if key == "hitboxes"@ {
        StateFileKey::Hitboxes
    } else if key == "hurtboxes"@ {
        StateFileKey::Hurtboxes
    } else if key == "modifiers"@ {
        StateFileKey::Modifiers
    } else if key == "transitions"@ {
        StateFileKey::Transitions
    } else if key == "triggerAll"@ {
        StateFileKey::TriggerAll
    } else if exists|i: int| occurs_at(key, trigger_word(), i) {
        StateFileKey::Trigger
    } else {
        StateFileKey::Ignored
    }
}

fn key_is(key: &String, lit: &str) -> (r: bool)
    ensures
        r == (key@ == lit@),
{
    *key == lit.to_owned()
}

/// Whether a string contains the word "trigger".
fn contains_trigger(key: &String) -> (r: bool)
    ensures
        r == exists|i: int| occurs_at(key@, trigger_word(), i),
{
    let s = key.as_str();
    let n = s.unicode_len();
    if n < 7 {
        assert forall|i: int| !occurs_at(key@, trigger_word(), i) by {}
        return false;
    }
    let mut i: usize = 0;
    while i <= n - 7
        invariant
            7 <= n,
            n == key@.len(),
            s@ == key@,
            forall|j: int| 0 <= j < i ==> !occurs_at(key@, trigger_word(), j),
        decreases n - i,
    {
        if s.get_char(i) == 't' && s.get_char(i + 1) == 'r' && s.get_char(i + 2) == 'i' && s.get_char(
            i + 3,
        ) == 'g' && s.get_char(i + 4) == 'g' && s.get_char(i + 5) == 'e' && s.get_char(i + 6) == 'r' {
            assert(key@.subrange(i as int, i + 7) =~= trigger_word());
            assert(occurs_at(key@, trigger_word(), i as int));
            return true;
        }
        assert(!occurs_at(key@, trigger_word(), i as int)) by {
            if occurs_at(key@, trigger_word(), i as int) {
                let sub = key@.subrange(i as int, i + 7);
                assert(sub[0] == key@[i as int]);
                assert(sub[1] == key@[i + 1]);
                assert(sub[2] == key@[i + 2]);
                assert(sub[3] == key@[i + 3]);
                assert(sub[4] == key@[i + 4]);
                assert(sub[5] == key@[i + 5]);
                assert(sub[6] == key@[i + 6]);
            }
        }
        i += 1;
    }
    assert forall|j: int| !occurs_at(key@, trigger_word(), j) by {}
    false
}

/// The meaning of a key of a state object in a state file.
pub fn state_file_key(key: &String) -> (k: StateFileKey)
    ensures
        k == state_file_key_spec(key@),
{
    if key_is(key, "id") {
        StateFileKey::Id
    } else if key_is(key, "debug_name") {
        StateFileKey::DebugName
    } else if key_is(key, "duration") {
        StateFileKey::Duration
    } else if key_is(key, "hitboxes") {
        StateFileKey::Hitboxes
    } else if key_is(key, "hurtboxes") {
        StateFileKey::Hurtboxes
    } else if key_is(key, "modifiers") {
        StateFileKey::Modifiers
    } else if key_is(key, "transitions") {
        StateFileKey::Transitions
    } else if key_is(key, "triggerAll") {
        StateFileKey::TriggerAll
    } else if contains_trigger(key) {
        StateFileKey::Trigger
    } else {
        StateFileKey::Ignored
    }
}

/// An attack or hurt volume with a priority and an index in its state.
pub trait HBox {
    fn get_priority(&self) -> u8;

    fn set_id(&mut self, value: usize);
}

/// A volume where a fighter can be hit.
#[derive(Clone, Copy, Debug, PartialEq, Eq, Structural, Default)]
pub struct HurtboxData {
    pub priority: u8,
    pub id: Option<usize>,
    pub start_frame: Option<u16>,
    pub end_frame: Option<u16>,
}

impl HBox for HurtboxData {
    fn get_priority(&self) -> (p: u8)
        ensures
            p == self.priority,
    {
        self.priority
    }

    fn set_id(&mut self, value: usize)
        ensures
            final(self).id == Some(value),
            final(self).priority == old(self).priority,
            final(self).start_frame == old(self).start_frame,
            final(self).end_frame == old(self).end_frame,
    {
        self.id = Some(value);
    }
}

/// A projectile a state can spawn: when it appears, how long it lives, how many may exist.
#[derive(Clone, Debug)]
pub struct ProjectileData {
    pub name: String,
    pub spawn_frame: u16,
    pub life_frames: u16,
    pub damage: u16,
    pub max: usize,
}

impl ProjectileData {
    pub fn max_default() -> (m: usize)
        ensures
            m == 1,
    {
        1
    }
}

/// Keeps a fighter in hitstun on the ground for this many frames.
#[derive(Clone, Copy, Debug, PartialEq, Eq, Structural)]
pub struct GroundedHitstun(pub Frame);

/// The fighters a hitbox has already hit and may not hit again.
#[derive(Clone, Debug, Default)]
pub struct Exclude(pub Vec<Entity>);

impl Exclude {
    pub fn contains(&self, e: Entity) -> (r: bool)
        ensures
            r == self.0@.contains(e),
    {
        let mut i: usize = 0;
        while i < self.0.len()
            invariant
                forall|j: int| 0 <= j < i ==> self.0@[j] != e,
                i <= self.0.len(),
            decreases self.0.len() - i,
        {
            if self.0[i] == e {
                return true;
            }
            i += 1;
        }
        false
    }

    /// Adds a fighter unless it is already there.
    pub fn insert(&mut self, e: Entity)
        ensures
            final(self).0@.to_set() == old(self).0@.to_set().insert(e),
            old(self).0@.no_duplicates() ==> final(self).0@.no_duplicates(),
    {
        if !self.contains(e) {
            self.0.push(e);
            proof {
                assert(self.0@ == old(self).0@.push(e));
                assert forall|a: Entity| self.0@.contains(a) <==> (old(self).0@.contains(a) || a == e) by {
                    if old(self).0@.contains(a) {
                        let i = choose|i: int| 0 <= i < old(self).0@.len() && old(self).0@[i] == a;
                        assert(self.0@[i] == a);
                    }
                    if a == e {
                        assert(self.0@[self.0@.len() - 1] == e);
                    }
                }
                assert(self.0@.to_set() =~= old(self).0@.to_set().insert(e));
            }
        } else {
            assert(old(self).0@.to_set() =~= old(self).0@.to_set().insert(e));
        }
    }
}

} // verus!
