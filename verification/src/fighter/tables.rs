use vstd::prelude::*;

use crate::fighter::hit::components::HitboxData;
use crate::fighter::state::Entity;

verus! {

/// The hitboxes of a state, grouped by the frame on which they come out.
#[verifier::external_body]
pub struct HitboxSchedule {
    map: hashbrown::HashMap<u16, Vec<HitboxData>>,
}

/// The hitboxes that a schedule holds for each frame.
pub uninterp spec fn schedule_contents(s: HitboxSchedule) -> Map<u16, Seq<HitboxData>>;

/// The entity of each state of a fighter, by state id.
#[verifier::external_body]
pub struct StateMap {
    map: hashbrown::HashMap<u16, Entity>,
}

/// The entity that a state map holds for each state id.
pub uninterp spec fn state_map_contents(m: StateMap) -> Map<u16, Entity>;

/// A map with no states.
pub open spec fn no_states() -> Map<u16, Entity> {
    Map::empty()
}

/// `hashbrown::HashMap::new`: an empty map.
#[verifier::external_body]
fn state_map_new() -> (made: StateMap)
    ensures
        state_map_contents(made) == no_states(),
{
    StateMap { map: hashbrown::HashMap::new() }
}

/// `hashbrown::HashMap::insert`: `id` now maps to `state`; other ids keep their entries.
#[verifier::external_body]
fn state_map_insert(m: &mut StateMap, id: u16, state: Entity)
    ensures
        state_map_contents(*final(m)) == state_map_contents(*old(m)).insert(id, state),
{
    m.map.insert(id, state);
}

/// `hashbrown::HashMap::get`: the entry under `id`, if there is one.
#[verifier::external_body]
fn state_map_get<'a>(m: &'a StateMap, id: &u16) -> (r: Option<&'a Entity>)
    ensures
        r is Some <==> state_map_contents(*m).contains_key(*id),
        r matches Some(e) ==> *e == state_map_contents(*m)[*id],
{
    m.map.get(id)
}

impl StateMap {
    /// The entity of each state id.
    pub open spec fn contents(self) -> Map<u16, Entity> {
        state_map_contents(self)
    }

    pub fn new() -> (m: Self)
        ensures
            m.contents() == no_states(),
    {
        state_map_new()
    }

    pub fn add_state(&mut self, id: u16, state: Entity)
        ensures
            final(self).contents() == old(self).contents().insert(id, state),
    {
        state_map_insert(self, id, state)
    }

    pub fn get<'a>(&'a self, key: &u16) -> (r: Option<&'a Entity>)
        ensures
            r is Some <==> self.contents().contains_key(*key),
            r matches Some(e) ==> *e == self.contents()[*key],
    {
        state_map_get(self, key)
    }

    /// The entities of the states with the given ids, in the same order; `None` if one of the
    /// ids has no state.
    pub fn resolve_transitions(&self, ids: &Vec<u16>) -> (r: Option<Vec<Entity>>)
        ensures
            r is Some <==> (forall|i: int| 0 <= i < ids@.len() ==> self.contents().contains_key(#[trigger] ids@[i])),
            r matches Some(v) ==> v@ == ids@.map_values(|id: u16| self.contents()[id]),
    {
        let mut out: Vec<Entity> = Vec::new();
        let mut i: usize = 0;
        while i < ids.len()
            invariant
                i <= ids.len(),
                out@ == ids@.take(i as int).map_values(|id: u16| self.contents()[id]),
                forall|j: int| 0 <= j < i ==> self.contents().contains_key(#[trigger] ids@[j]),
            decreases ids.len() - i,
        {
            match self.get(&ids[i]) {
                Some(e) => {
                    out.push(*e);
                },
                None => {
                    return None;
                },
            }
            proof {
                assert(ids@.take(i + 1) =~= ids@.take(i as int).push(ids@[i as int]));
            }
            i += 1;
        }
        proof {
            assert(ids@.take(ids@.len() as int) =~= ids@);
        }
        Some(out)
    }
}

/// The projectile entities of a fighter, by projectile name, each with whether it is in play,
/// and how many of each are in play.
#[verifier::external_body]
pub struct ProjectileReference {
    projectile_ids: hashbrown::HashMap<String, Vec<(Entity, bool)>>,
    amount_in_use: hashbrown::HashMap<String, usize>,
}

/// The entities of each projectile name, each with whether it is in play.
pub uninterp spec fn projectile_ids_of(p: ProjectileReference) -> Map<Seq<char>, Seq<(Entity, bool)>>;

/// How many projectiles of each name are in play.
pub uninterp spec fn amounts_of(p: ProjectileReference) -> Map<Seq<char>, usize>;

pub open spec fn no_projectile_ids() -> Map<Seq<char>, Seq<(Entity, bool)>> {
    Map::empty()
}

pub open spec fn no_amounts() -> Map<Seq<char>, usize> {
    Map::empty()
}

/// `hashbrown::HashMap::new`, once for each of the two maps.
#[verifier::external_body]
fn projectile_reference_new() -> (made: ProjectileReference)
    ensures
        projectile_ids_of(made) == no_projectile_ids(),
        amounts_of(made) == no_amounts(),
{
    ProjectileReference {
        projectile_ids: hashbrown::HashMap::new(),
        amount_in_use: hashbrown::HashMap::new(),
    }
}

/// `hashbrown::HashMap::insert` on the entities: `name` now maps to `ids`.
#[verifier::external_body]
fn projectile_ids_insert(p: &mut ProjectileReference, name: String, ids: Vec<(Entity, bool)>)
    ensures
        projectile_ids_of(*final(p)) == projectile_ids_of(*old(p)).insert(name@, ids@),
        amounts_of(*final(p)) == amounts_of(*old(p)),
{
    p.projectile_ids.insert(name, ids);
}

/// `hashbrown::HashMap::insert` on the counts: `name` now maps to `amount`.
#[verifier::external_body]
fn amounts_insert(p: &mut ProjectileReference, name: String, amount: usize)
    ensures
        amounts_of(*final(p)) == amounts_of(*old(p)).insert(name@, amount),
        projectile_ids_of(*final(p)) == projectile_ids_of(*old(p)),
{
    p.amount_in_use.insert(name, amount);
}

/// `hashbrown::HashMap::get_mut` on the entities: the list under `name` to change in place.
#[verifier::external_body]
fn projectile_ids_get_mut<'a>(p: &'a mut ProjectileReference, name: &String) -> (r: Option<
    &'a mut Vec<(Entity, bool)>,
>)
    ensures
        r is Some <==> projectile_ids_of(*old(p)).contains_key(name@),
        r is None ==> *final(p) == *old(p),
        r matches Some(v) ==> v@ == projectile_ids_of(*old(p))[name@] && projectile_ids_of(*final(p))
            == projectile_ids_of(*old(p)).insert(name@, final(v)@) && amounts_of(*final(p))
            == amounts_of(*old(p)),
{
    p.projectile_ids.get_mut(name)
}

/// `hashbrown::HashMap::get_mut` on the counts: the count under `name` to change in place.
#[verifier::external_body]
fn amounts_get_mut<'a>(p: &'a mut ProjectileReference, name: &String) -> (r: Option<&'a mut usize>)
    ensures
        r is Some <==> amounts_of(*old(p)).contains_key(name@),
        r is None ==> *final(p) == *old(p),
        r matches Some(v) ==> *v == amounts_of(*old(p))[name@] && amounts_of(*final(p)) == amounts_of(
            *old(p),
        ).insert(name@, *final(v)) && projectile_ids_of(*final(p)) == projectile_ids_of(*old(p)),
{
    p.amount_in_use.get_mut(name)
}

/// Why a projectile cannot be taken into or out of play.
#[derive(Clone, Copy, Debug, PartialEq, Eq, Structural)]
pub enum ProjectileError {
    /// No projectiles of this name are registered.
    UnknownName,
    /// Every projectile of this name is already in play.
    AllInUse,
    /// The projectile is not one of those registered under its name.
    UnknownProjectile,
    /// The count of projectiles in play is already zero.
    NoneInUse,
}

/// Entry `i` is the first not in play.
pub open spec fn is_first_free(ids: Seq<(Entity, bool)>, i: int) -> bool {
    0 <= i < ids.len() && !ids[i].1 && forall|j: int| 0 <= j < i ==> ids[j].1
}

/// Index of the first entity not in play.
pub open spec fn first_free(ids: Seq<(Entity, bool)>) -> int {
    choose|i: int| is_first_free(ids, i)
}

/// Entry `i` is the first for entity `e`.
pub open spec fn is_first_of(ids: Seq<(Entity, bool)>, e: Entity, i: int) -> bool {
    0 <= i < ids.len() && ids[i].0 == e && forall|j: int| 0 <= j < i ==> ids[j].0 != e
}

/// Index of the first entry for an entity.
pub open spec fn first_of(ids: Seq<(Entity, bool)>, e: Entity) -> int {
    choose|i: int| is_first_of(ids, e, i)
}

proof fn lemma_first_free(ids: Seq<(Entity, bool)>, i: int)
    requires
        is_first_free(ids, i),
    ensures
        first_free(ids) == i,
{
    let k = first_free(ids);
    assert(is_first_free(ids, k));
    if k < i {
        assert(ids[k].1);
    }
    if k > i {
        assert(ids[i].1);
    }
}

proof fn lemma_first_of(ids: Seq<(Entity, bool)>, e: Entity, i: int)
    requires
        is_first_of(ids, e, i),
    ensures
        first_of(ids, e) == i,
{
    let k = first_of(ids, e);
    assert(is_first_of(ids, e, k));
    if k < i {
        assert(ids[k].0 != e);
    }
    if k > i {
        assert(ids[i].0 != e);
    }
}

/// What a claim answers: an unknown name is an error; at `max` in play, nothing is claimed;
/// otherwise the first entity not in play, or an error when all are in play.
pub open spec fn claim_outcome(p: ProjectileReference, name: Seq<char>, max: usize) -> Result<
    Option<Entity>,
    ProjectileError,
> {
    if !p.amounts().contains_key(name) {
        Err(ProjectileError::UnknownName)
    } else if p.amounts()[name] >= max {
        Ok(None)
    } else if !p.ids().contains_key(name) {
        Err(ProjectileError::UnknownName)
    } else if !(exists|i: int| 0 <= i < p.ids()[name].len() && !(#[trigger] p.ids()[name][i]).1) {
        Err(ProjectileError::AllInUse)
    } else {
        Ok(Some(p.ids()[name][first_free(p.ids()[name])].0))
    }
}

/// What a release answers: an error for an unknown name or entity, or when none of the name is
/// in play; otherwise success.
pub open spec fn release_outcome(p: ProjectileReference, name: Seq<char>, e: Entity) -> Result<
    (),
    ProjectileError,
> {
    if !p.ids().contains_key(name) {
        Err(ProjectileError::UnknownName)
    } else if !(exists|i: int| 0 <= i < p.ids()[name].len() && (#[trigger] p.ids()[name][i]).0 == e) {
        Err(ProjectileError::UnknownProjectile)
    } else if !p.amounts().contains_key(name) {
        Err(ProjectileError::UnknownName)
    } else if p.amounts()[name] == 0 {
        Err(ProjectileError::NoneInUse)
    } else {
        Ok(())
    }
}

/// What a claim that gave `e` did: `e` was the first entity of the name not in play, and is now
/// in play and counted.
pub open spec fn claimed(
    before: ProjectileReference,
    after: ProjectileReference,
    name: Seq<char>,
    e: Entity,
) -> bool {
    let ids = before.ids()[name];
    let i = first_free(ids);
    &&& before.ids().contains_key(name)
    &&& before.amounts().contains_key(name)
    &&& before.amounts()[name] < usize::MAX
    &&& is_first_free(ids, i)
    &&& e == ids[i].0
    &&& after.ids() == before.ids().insert(name, ids.update(i, (e, true)))
    &&& after.amounts() == before.amounts().insert(name, (before.amounts()[name] + 1) as usize)
}

/// What a release of `e` did: the first entry for `e` under the name is out of play, and the
/// count is one lower.
pub open spec fn released(
    before: ProjectileReference,
    after: ProjectileReference,
    name: Seq<char>,
    e: Entity,
) -> bool {
    let ids = before.ids()[name];
    let i = first_of(ids, e);
    &&& before.ids().contains_key(name)
    &&& before.amounts().contains_key(name)
    &&& before.amounts()[name] > 0
    &&& is_first_of(ids, e, i)
    &&& after.ids() == before.ids().insert(name, ids.update(i, (e, false)))
    &&& after.amounts() == before.amounts().insert(name, (before.amounts()[name] - 1) as usize)
}

impl ProjectileReference {
    pub open spec fn ids(self) -> Map<Seq<char>, Seq<(Entity, bool)>> {
        projectile_ids_of(self)
    }

    pub open spec fn amounts(self) -> Map<Seq<char>, usize> {
        amounts_of(self)
    }

    pub fn new() -> (p: Self)
        ensures
            p.ids() == no_projectile_ids(),
            p.amounts() == no_amounts(),
    {
        projectile_reference_new()
    }

    pub fn insert_ids(&mut self, name: String, ids: Vec<(Entity, bool)>)
        ensures
            final(self).ids() == old(self).ids().insert(name@, ids@),
            final(self).amounts() == old(self).amounts(),
    {
        projectile_ids_insert(self, name, ids)
    }

    /// Sets how many projectiles of a name are in play.
    pub fn insert_amount(&mut self, name: String, amount: usize)
        ensures
            final(self).amounts() == old(self).amounts().insert(name@, amount),
            final(self).ids() == old(self).ids(),
    {
        amounts_insert(self, name, amount)
    }

    /// Takes a projectile of the name into play when fewer than `max` are: marks the first
    /// entity not in play as in play, counts it, and gives it back. At `max`, changes nothing
    /// and gives `None`. An error changes nothing.
    pub fn claim(&mut self, name: &String, max: usize) -> (r: Result<Option<Entity>, ProjectileError>)
        ensures
            r == claim_outcome(*old(self), name@, max),
            !(r matches Ok(Some(_))) ==> final(self).ids() == old(self).ids() && final(self).amounts()
                == old(self).amounts(),
            r matches Ok(Some(e)) ==> claimed(*old(self), *final(self), name@, e),
    {
        let ghost start = *self;
        let in_play: usize = match amounts_get_mut(self, name) {
            Some(a) => *a,
            None => {
                return Err(ProjectileError::UnknownName);
            },
        };
        assert(self.amounts() =~= start.amounts());
        assert(self.ids() == start.ids());
        if in_play >= max {
            return Ok(None);
        }
        let ghost ids0 = start.ids()[name@];
        let ids = match projectile_ids_get_mut(self, name) {
            Some(ids) => ids,
            None => {
                return Err(ProjectileError::UnknownName);
            },
        };
        assert(ids@ == ids0);
        let mut i: usize = 0;
        while i < ids.len()
            invariant
                i <= ids@.len(),
                ids@ == ids0,
                forall|j: int| 0 <= j < i ==> (#[trigger] ids@[j]).1,
            ensures
                i < ids@.len() ==> !ids@[i as int].1,
            decreases ids@.len() - i,
        {
            if !ids[i].1 {
                break;
            }
            i += 1;
        }
        if i >= ids.len() {
            proof {
                assert(start.ids().insert(name@, ids0) =~= start.ids());
            }
            return Err(ProjectileError::AllInUse);
        }
        let id = ids[i].0;
        proof {
            assert(is_first_free(ids@, i as int));
            lemma_first_free(ids@, i as int);
        }
        ids.set(i, (id, true));
        let ghost marked = ids0.update(i as int, (id, true));
        assert(self.ids() == start.ids().insert(name@, marked));
        assert(self.amounts() == start.amounts());
        match amounts_get_mut(self, name) {
            Some(a) => {
                *a = in_play + 1;
            },
            None => {},
        }
        Ok(Some(id))
    }

    /// Takes a projectile out of play: marks the first entry for it under its name as not in
    /// play and lowers the count of that name. An error changes nothing.
    pub fn release(&mut self, name: &String, projectile: Entity) -> (r: Result<(), ProjectileError>)
        ensures
            r == release_outcome(*old(self), name@, projectile),
            r is Err ==> final(self).ids() == old(self).ids() && final(self).amounts() == old(
                self,
            ).amounts(),
            r is Ok ==> released(*old(self), *final(self), name@, projectile),
    {
        let ghost start = *self;
        let ids = match projectile_ids_get_mut(self, name) {
            Some(ids) => ids,
            None => {
                return Err(ProjectileError::UnknownName);
            },
        };
        let ghost ids0 = ids@;
        assert(ids0 == start.ids()[name@]);
        let mut i: usize = 0;
        while i < ids.len()
            invariant
                i <= ids@.len(),
                ids@ == ids0,
                forall|j: int| 0 <= j < i ==> (#[trigger] ids0[j]).0 != projectile,
            ensures
                i < ids@.len() ==> ids0[i as int].0 == projectile,
            decreases ids@.len() - i,
        {
            if ids[i].0 == projectile {
                break;
            }
            i += 1;
        }
        if i >= ids.len() {
            proof {
                assert(start.ids().insert(name@, ids0) =~= start.ids());
                assert(!(exists|k: int| 0 <= k < ids0.len() && (#[trigger] ids0[k]).0 == projectile));
            }
            return Err(ProjectileError::UnknownProjectile);
        }
        let found = i;
        proof {
            assert(is_first_of(ids0, projectile, found as int));
            lemma_first_of(ids0, projectile, found as int);
            assert(start.ids().insert(name@, ids0) =~= start.ids());
        }
        assert(self.ids() == start.ids());
        assert(self.amounts() == start.amounts());
        let in_play: usize = match amounts_get_mut(self, name) {
            Some(a) => *a,
            None => {
                return Err(ProjectileError::UnknownName);
            },
        };
        assert(self.amounts() =~= start.amounts());
        if in_play == 0 {
            return Err(ProjectileError::NoneInUse);
        }
        match amounts_get_mut(self, name) {
            Some(a) => {
                *a = in_play - 1;
            },
            None => {},
        }
        match projectile_ids_get_mut(self, name) {
            Some(ids) => {
                ids.set(found, (projectile, false));
            },
            None => {},
        }
        Ok(())
    }
}

/// Reading a state id back after adding it gives the entity added; other ids read as before.
pub proof fn lemma_state_map_read_after_add(before: StateMap, after: StateMap, id: u16, state: Entity, other: u16)
    requires
        after.contents() == before.contents().insert(id, state),
    ensures
        after.contents().contains_key(id),
        after.contents()[id] == state,
        other != id ==> (after.contents().contains_key(other) == before.contents().contains_key(other)
            && after.contents()[other] == before.contents()[other]),
{
}

/// Releasing the projectile that a claim took into play gives back the entities and counts from
/// before the claim, when no entity appears twice under the name.
pub proof fn lemma_claim_then_release(
    p0: ProjectileReference,
    p1: ProjectileReference,
    p2: ProjectileReference,
    name: Seq<char>,
    e: Entity,
)
    requires
        claimed(p0, p1, name, e),
        released(p1, p2, name, e),
        forall|i: int, j: int|
            0 <= i < j < p0.ids()[name].len() ==> (#[trigger] p0.ids()[name][i]).0 != (
            #[trigger] p0.ids()[name][j]).0,
    ensures
        p2.ids() == p0.ids(),
        p2.amounts() == p0.amounts(),
{
    let ids = p0.ids()[name];
    let i = first_free(ids);
    let marked = ids.update(i, (e, true));
    assert(p1.ids()[name] == marked);
    assert(is_first_of(marked, e, i));
    lemma_first_of(marked, e, i);
    assert(marked.update(i, (e, false)) =~= ids);
    assert(p2.ids() =~= p0.ids());
    assert(p2.amounts() =~= p0.amounts());
}

/// A schedule with no frames.
pub open spec fn no_hitboxes() -> Map<u16, Seq<HitboxData>> {
    Map::empty()
}

/// `hashbrown::HashMap::new`: an empty map.
#[verifier::external_body]
fn schedule_new() -> (made: HitboxSchedule)
    ensures
        schedule_contents(made) == no_hitboxes(),
{
    HitboxSchedule { map: hashbrown::HashMap::new() }
}

/// `hashbrown::HashMap::get`: the entry under `key`, if there is one.
#[verifier::external_body]
fn schedule_get<'a>(s: &'a HitboxSchedule, key: u16) -> (r: Option<&'a Vec<HitboxData>>)
    ensures
        r is Some <==> schedule_contents(*s).contains_key(key),
        r matches Some(v) ==> v@ == schedule_contents(*s)[key],
{
    s.map.get(&key)
}

/// `hashbrown::HashMap::insert`: `key` now maps to `value`; other keys keep their entries.
#[verifier::external_body]
fn schedule_insert(s: &mut HitboxSchedule, key: u16, value: Vec<HitboxData>)
    ensures
        schedule_contents(*final(s)) == schedule_contents(*old(s)).insert(key, value@),
{
    s.map.insert(key, value);
}

/// `hashbrown::HashMap::get_mut`: the entry under `key` to change in place, if there is one.
#[verifier::external_body]
fn schedule_get_mut<'a>(s: &'a mut HitboxSchedule, key: u16) -> (r: Option<&'a mut Vec<HitboxData>>)
    ensures
        r is Some <==> schedule_contents(*old(s)).contains_key(key),
        r is None ==> schedule_contents(*final(s)) == schedule_contents(*old(s)),
        r matches Some(v) ==> v@ == schedule_contents(*old(s))[key] && schedule_contents(*final(s))
            == schedule_contents(*old(s)).insert(key, final(v)@),
{
    s.map.get_mut(&key)
}

/// `hashbrown::HashMap::contains_key`: whether `key` has an entry.
#[verifier::external_body]
fn schedule_contains_key(s: &HitboxSchedule, key: u16) -> (r: bool)
    ensures
        r == schedule_contents(*s).contains_key(key),
{
    s.map.contains_key(&key)
}

/// The frame on which a hitbox comes out.
pub open spec fn start_of(h: HitboxData) -> u16 {
    h.window.start->0
}

/// Hitbox `i` of a state with its index in the state and its number in the whole game.
pub open spec fn numbered(hitboxes: Seq<HitboxData>, first_global: u32) -> Seq<HitboxData> {
    Seq::new(
        hitboxes.len(),
        |i: int|
            HitboxData { id: Some(i as usize), global_id: Some((first_global + i) as u32), ..hitboxes[i] },
    )
}

/// Hitboxes grouped by the frame on which they come out, each group in the order given.
pub open spec fn grouped(hitboxes: Seq<HitboxData>) -> Map<u16, Seq<HitboxData>> {
    Map::new(
        |f: u16| exists|i: int| 0 <= i < hitboxes.len() && start_of(hitboxes[i]) == f,
        |f: u16| hitboxes.filter(|h: HitboxData| start_of(h) == f),
    )
}

impl HitboxSchedule {
    /// The hitboxes for each frame.
    pub open spec fn contents(self) -> Map<u16, Seq<HitboxData>> {
        schedule_contents(self)
    }

    /// The hitboxes that come out on `frame`, if any do.
    pub fn on_frame(&self, frame: u16) -> (r: Option<&Vec<HitboxData>>)
        ensures
            r is Some <==> self.contents().contains_key(frame),
            r matches Some(v) ==> v@ == self.contents()[frame],
    {
        schedule_get(self, frame)
    }
}

/// Numbers the hitboxes of a state, in order, with their index in the state and with game-wide
/// numbers counting up from `first_global`, and groups them by the frame on which they come out.
/// Also gives the next unused game-wide number.
pub fn order_hitboxes(hitboxes: Vec<HitboxData>, first_global: u32) -> (r: (HitboxSchedule, u32))
    requires
        forall|i: int| 0 <= i < hitboxes@.len() ==> (#[trigger] hitboxes@[i]).window.start is Some,
        first_global + hitboxes@.len() <= u32::MAX,
    ensures
        r.0.contents() == grouped(numbered(hitboxes@, first_global)),
        r.1 == first_global + hitboxes@.len(),
{
    let ghost all = numbered(hitboxes@, first_global);
    let n = hitboxes.len();
    let mut ordered = schedule_new();
    let mut global_hitbox_id = first_global;
    let mut index: usize = 0;
    let mut source = hitboxes;
    let mut rest: Vec<HitboxData> = Vec::new();
    while source.len() > 0
        invariant
            source@.len() + rest@.len() == n,
            n == hitboxes@.len(),
            forall|j: int| 0 <= j < source@.len() ==> #[trigger] source@[j] == hitboxes@[j],
            forall|j: int| 0 <= j < rest@.len() ==> #[trigger] rest@[j] == hitboxes@[n - 1 - j],
        decreases source@.len(),
    {
        let h = source.pop().unwrap();
        rest.push(h);
    }
    while index < n
        invariant
            n == all.len(),
            rest@.len() == n - index,
            forall|j: int| 0 <= j < rest@.len() ==> #[trigger] rest@[j] == hitboxes@[n - 1 - j],
            forall|i: int| 0 <= i < hitboxes@.len() ==> (#[trigger] hitboxes@[i]).window.start is Some,
            all == numbered(hitboxes@, first_global),
            global_hitbox_id == first_global + index,
            first_global + n <= u32::MAX,
            ordered.contents() == grouped(all.take(index as int)),
            index <= n,
        decreases n - index,
    {
        let mut hitbox = rest.pop().unwrap();
        assert(hitbox == hitboxes@[index as int]);
        crate::fighter::state::HBox::set_id(&mut hitbox, index);
        hitbox.set_global_id(global_hitbox_id);
        assert(hitbox == all[index as int]);
        global_hitbox_id += 1;
        let start_frame = hitbox.get_start_frame();
        let ghost before = ordered.contents();
        if schedule_contains_key(&ordered, start_frame) {
            match schedule_get_mut(&mut ordered, start_frame) {
                Some(set) => {
                    set.push(hitbox);
                },
                None => {},
            }
            assert(ordered.contents() == before.insert(start_frame, before[start_frame].push(hitbox)));
        } else {
            let set = vec![hitbox];
            assert(set@ =~= seq![hitbox]);
            schedule_insert(&mut ordered, start_frame, set);
            assert(ordered.contents() == before.insert(start_frame, seq![hitbox]));
        }
        proof {
            lemma_grouped_push(all.take(index as int), all[index as int]);
            assert(all.take(index as int).push(all[index as int]) =~= all.take(index + 1));
        }
        index += 1;
    }
    proof {
        assert(all.take(n as int) =~= all);
    }
    (ordered, global_hitbox_id)
}

proof fn lemma_grouped_push(s: Seq<HitboxData>, h: HitboxData)
    ensures
        grouped(s.push(h)) == if grouped(s).contains_key(start_of(h)) {
            grouped(s).insert(start_of(h), grouped(s)[start_of(h)].push(h))
        } else {
            grouped(s).insert(start_of(h), seq![h])
        },
{
    reveal(Seq::filter);
    let f0 = start_of(h);
    let g = grouped(s);
    let g2 = grouped(s.push(h));
    assert(s.push(h).drop_last() =~= s);
    assert forall|f: u16| #[trigger] g2.contains_key(f) <==> (g.contains_key(f) || f == f0) by {
        if g.contains_key(f) {
            let i = choose|i: int| 0 <= i < s.len() && start_of(s[i]) == f;
            assert(s.push(h)[i] == s[i]);
        }
        if f == f0 {
            assert(s.push(h)[s.len() as int] == h);
        }
        if g2.contains_key(f) && f != f0 {
            let i = choose|i: int| 0 <= i < s.push(h).len() && start_of(s.push(h)[i]) == f;
            assert(i < s.len());
            assert(s[i] == s.push(h)[i]);
        }
    }
    assert forall|f: u16| g2.contains_key(f) implies #[trigger] g2[f] == (if f == f0 {
        if g.contains_key(f0) {
            g[f0].push(h)
        } else {
            seq![h]
        }
    } else {
        g[f]
    }) by {
        if f == f0 && !g.contains_key(f0) {
            assert forall|i: int| 0 <= i < s.len() implies start_of(s[i]) != f0 by {
                if start_of(s[i]) == f0 {
                    assert(g.contains_key(f0));
                }
            }
            lemma_filter_none(s, f0);
        }
    }
    if g.contains_key(f0) {
        assert(g2 =~= g.insert(f0, g[f0].push(h)));
    } else {
        assert(g2 =~= g.insert(f0, seq![h]));
    }
}

proof fn lemma_filter_none(s: Seq<HitboxData>, f: u16)
    requires
        forall|i: int| 0 <= i < s.len() ==> start_of(s[i]) != f,
    ensures
        s.filter(|h: HitboxData| start_of(h) == f) =~= Seq::<HitboxData>::empty(),
    decreases s.len(),
{
    reveal(Seq::filter);
    if s.len() > 0 {
        assert forall|i: int| 0 <= i < s.drop_last().len() implies start_of(s.drop_last()[i]) != f by {
            assert(s.drop_last()[i] == s[i]);
        }
        lemma_filter_none(s.drop_last(), f);
    }
}

} // verus!
