use vstd::prelude::*;

use crate::fighter::event::TransitionEvent;
use crate::fighter::hit::components::{HitboxData, OnHit};
use crate::fighter::modifiers::{CreateObject, InputMet, InputWindowCheck, Object};
use crate::fighter::state::{
    CurrentState, Direction, Entity, Exclude, Facing, FighterStatus, Frame, GroundedHitstun, Health,
    Owner, ProjectileData, State, StateFrame,
};
use crate::fighter::tables::{
    claim_outcome, claimed, release_outcome, released, ProjectileError, ProjectileReference,
};
use crate::game::{Paused, RoundState};
use crate::input::Input;
use crate::util::Buffer;
use crate::Player;

verus! {

/// The input history of a fighter.
pub struct InputBuffer(pub Buffer);

/// Adds the frame's input to the buffer of the first player. Gives `false`, leaving the buffer
/// alone, for any other player: the caller stops at that fighter.
pub fn buffer_insert_system(buffer: &mut InputBuffer, player: &Player, input: Input) -> (go_on: bool)
    requires
        old(buffer).0.ring().len() > 0,
    ensures
        go_on == (player.0 == 1),
        !go_on ==> final(buffer).0 == old(buffer).0,
        go_on ==> final(buffer).0.head_index() == old(buffer).0.next_head()
            && final(buffer).0.ring() == old(buffer).0.ring().update(
            if old(buffer).0.next_head() > old(buffer).0.ring().len() - 1 {
                0
            } else {
                old(buffer).0.next_head()
            },
            input.0,
        ),
        go_on && old(buffer).0.wf() ==> final(buffer).0.wf() && final(buffer).0.newest_first() == seq![
            input.0,
        ] + old(buffer).0.newest_first().drop_last(),
{
    if player.0 != 1 {
        return false;
    }
    buffer.0.insert(input.0);
    true
}

/// The frame count after one more frame: one more, or back to 1 instead of overflowing.
pub fn increment_frame_system(frame: &mut StateFrame)
    ensures
        final(frame).0 == if old(frame).0 < u16::MAX {
            (old(frame).0 + 1) as u16
        } else {
            1
        },
        final(frame).0 >= 1,
{
    frame.0 = frame.0.checked_add(1).unwrap_or(1);
}

/// Which kinds of hitstun a fighter leaves in one frame.
#[derive(Clone, Copy, Debug, PartialEq, Eq, Structural)]
pub struct HitstunExit {
    /// Grounded hitstun is over: its marker goes.
    pub grounded: bool,
    /// The airborne fighter has landed: its marker goes and it stands on the ground.
    pub airborne: bool,
}

/// Ends hitstun. Grounded hitstun ends once the frame passes its length; airborne hitstun ends
/// when the fighter is back on or below the ground after its first frame. Either end returns
/// the fighter to state 0 at frame 1, and its velocity is to be zeroed.
pub fn hitstun_system(
    current: &mut CurrentState,
    frame: &mut StateFrame,
    grounded: Option<GroundedHitstun>,
    airborne: bool,
    on_ground: bool,
) -> (exit: HitstunExit)
    ensures
        exit.grounded == (grounded matches Some(h) && old(frame).0 > h.0),
        exit.airborne == (airborne && on_ground && (if exit.grounded {
            1
        } else {
            old(frame).0
        }) != 1),
        exit.grounded || exit.airborne ==> *final(current) == CurrentState(0) && *final(frame)
            == StateFrame(1),
        !exit.grounded && !exit.airborne ==> *final(current) == *old(current) && *final(frame)
            == *old(frame),
{
    let mut exit = HitstunExit { grounded: false, airborne: false };
    if let Some(hitstun) = grounded {
        if frame.0 > hitstun.0 {
            frame.0 = 1;
            current.0 = 0;
            exit.grounded = true;
        }
    }
    if airborne {
        if on_ground && frame.0 != 1 {
            frame.0 = 1;
            current.0 = 0;
            exit.airborne = true;
        }
    }
    exit
}

/// The state a fighter moves to this frame: the first of the current state's transitions, in
/// order, whose triggers admit the fighter. `Some(None)` when none does; `None` where checking
/// a trigger fails (a duration check in a state without duration, or a command that cannot be
/// checked against the buffer).
pub fn try_process_input_system(status: &FighterStatus, targets: &Vec<&State>) -> (r: Option<
    Option<u16>,
>)
    ensures
        r == status.choose_from(targets@, 0),
{
    let mut i: usize = 0;
    while i < targets.len()
        invariant
            status.choose_from(targets@, i as nat) == status.choose_from(targets@, 0),
            i <= targets.len(),
        decreases targets.len() - i,
    {
        let to_state = targets[i];
        match status.try_admits(&to_state.triggers) {
            None => {
                return None;
            },
            Some(true) => {
                return Some(Some(to_state.id));
            },
            Some(false) => {},
        }
        i += 1;
    }
    Some(None)
}

/// The state a fighter moves to this frame: the first of the current state's transitions, in
/// order, whose triggers admit the fighter, or `None` when none does. Every trigger checked on
/// the way must be checkable (`try_process_input_system` tells).
pub fn process_input_system(status: &FighterStatus, targets: &Vec<&State>) -> (r: Option<u16>)
    requires
        status.choose_from(targets@, 0) is Some,
    ensures
        Some(r) == status.choose_from(targets@, 0),
{
    match try_process_input_system(status, targets) {
        Some(r) => r,
        None => {
            proof {
                assert(false);
            }
            None
        },
    }
}

/// Moves a fighter into the state of a transition event: the new state starts at frame 1, and
/// the leaving state's input check, if it has one, is reset.
pub fn transition_system(
    current: &mut CurrentState,
    frame: &mut StateFrame,
    met: &mut Option<InputMet>,
    event: &TransitionEvent,
)
    ensures
        *final(current) == CurrentState(event.to_id),
        *final(frame) == StateFrame(1),
        *final(met) == match *old(met) {
            Some(_) => Some(InputMet(false)),
            None => None,
        },
{
    if let Some(m) = met {
        m.0 = false;
    }
    current.0 = event.to_id;
    frame.0 = 1;
}

/// How a hit changes the fighter it lands on.
#[derive(Clone, Copy, Debug, PartialEq, Eq, Structural)]
pub enum HitReaction {
    /// Knocked into the air: the fighter gets `AirborneHitstun`.
    Launched,
    /// Knocked back on the ground: the fighter gets `GroundedHitstun` of this many frames.
    Grounded(Frame),
    /// No change of state.
    Stunned,
}

/// Applies a hit of `attacker` on `recipient`: the recipient's health falls by the damage,
/// stopping at zero; a launch or a grounded hit puts it at frame 1 of the given hitstun state;
/// and every hitbox of the attacker excludes the recipient from further hits.
pub fn hit_event_system(
    health: &mut Health,
    frame: &mut StateFrame,
    current: &mut CurrentState,
    attacker_box: &HitboxData,
    air_hitstun_state: u16,
    grounded_hitstun_state: u16,
    attacker: Entity,
    recipient: Entity,
    hitboxes: &mut Vec<(Owner, Exclude)>,
) -> (reaction: HitReaction)
    ensures
        excluded_after_hit(old(hitboxes)@, final(hitboxes)@, attacker, recipient),
        final(health).0 == if old(health).0 >= attacker_box.damage {
            (old(health).0 - attacker_box.damage) as u16
        } else {
            0
        },
        reaction == match attacker_box.on_hit {
            OnHit::Launch => HitReaction::Launched,
            OnHit::Grounded { hitstun } => HitReaction::Grounded(hitstun),
            OnHit::Stun(_) => HitReaction::Stunned,
        },
        reaction is Launched ==> *final(frame) == StateFrame(1) && *final(current) == CurrentState(
            air_hitstun_state,
        ),
        reaction is Grounded ==> *final(frame) == StateFrame(1) && *final(current) == CurrentState(
            grounded_hitstun_state,
        ),
        reaction is Stunned ==> *final(frame) == *old(frame) && *final(current) == *old(current),
{
    exclude_hit(hitboxes, attacker, recipient);
    health.0 = health.0.saturating_sub(attacker_box.damage);
    match attacker_box.on_hit {
        OnHit::Launch => {
            frame.0 = 1;
            current.0 = air_hitstun_state;
            HitReaction::Launched
        },
        OnHit::Grounded { hitstun } => {
            frame.0 = 1;
            current.0 = grounded_hitstun_state;
            HitReaction::Grounded(hitstun)
        },
        OnHit::Stun(_) => HitReaction::Stunned,
    }
}

/// The hitboxes after a hit of `attacker` on `recipient`: the same hitboxes with the same
/// owners; those of the attacker also exclude the recipient (keeping their exclusions free of
/// repeats), the others are unchanged.
pub open spec fn excluded_after_hit(
    before: Seq<(Owner, Exclude)>,
    after: Seq<(Owner, Exclude)>,
    attacker: Entity,
    recipient: Entity,
) -> bool {
    &&& after.len() == before.len()
    &&& forall|i: int|
        0 <= i < before.len() ==> {
            &&& (#[trigger] after[i]).0 == before[i].0
            &&& before[i].0.0 == attacker ==> after[i].1.0@.to_set() == before[i].1.0@.to_set().insert(
                recipient,
            ) && (before[i].1.0@.no_duplicates() ==> after[i].1.0@.no_duplicates())
            &&& before[i].0.0 != attacker ==> after[i].1 == before[i].1
        }
}

/// A copy of an exclusion list that also excludes `e`.
fn excluding_also(ex: &Exclude, e: Entity) -> (r: Exclude)
    ensures
        r.0@.to_set() == ex.0@.to_set().insert(e),
        ex.0@.no_duplicates() ==> r.0@.no_duplicates(),
{
    let mut v: Vec<Entity> = Vec::new();
    let mut i: usize = 0;
    while i < ex.0.len()
        invariant
            i <= ex.0@.len(),
            v@ == ex.0@.take(i as int),
        decreases ex.0@.len() - i,
    {
        v.push(ex.0[i]);
        proof {
            assert(ex.0@.take(i + 1) =~= ex.0@.take(i as int).push(ex.0@[i as int]));
        }
        i += 1;
    }
    proof {
        assert(ex.0@.take(ex.0@.len() as int) =~= ex.0@);
    }
    let mut r = Exclude(v);
    r.insert(e);
    r
}

/// After a hit of `attacker` on `recipient`, every hitbox of the attacker excludes the recipient
/// from further hits.
pub fn exclude_hit(hitboxes: &mut Vec<(Owner, Exclude)>, attacker: Entity, recipient: Entity)
    ensures
        excluded_after_hit(old(hitboxes)@, final(hitboxes)@, attacker, recipient),
{
    let ghost before = hitboxes@;
    let mut i: usize = 0;
    while i < hitboxes.len()
        invariant
            i <= hitboxes@.len(),
            hitboxes@.len() == before.len(),
            forall|j: int| i <= j < before.len() ==> #[trigger] hitboxes@[j] == before[j],
            forall|j: int|
                0 <= j < i ==> {
                    &&& (#[trigger] hitboxes@[j]).0 == before[j].0
                    &&& before[j].0.0 == attacker ==> hitboxes@[j].1.0@.to_set()
                        == before[j].1.0@.to_set().insert(recipient) && (before[j].1.0@.no_duplicates()
                        ==> hitboxes@[j].1.0@.no_duplicates())
                    &&& before[j].0.0 != attacker ==> hitboxes@[j].1 == before[j].1
                },
        decreases hitboxes@.len() - i,
    {
        let owner = hitboxes[i].0;
        if owner.0 == attacker {
            let ex = excluding_also(&hitboxes[i].1, recipient);
            hitboxes.set(i, (owner, ex));
        }
        i += 1;
    }
}

/// After a hit, every hitbox of the attacker excludes the recipient from further hits.
pub fn exclude_after_hit(exclude: &mut Exclude, owner: &Owner, attacker: Entity, recipient: Entity)
    ensures
        owner.0 == attacker ==> final(exclude).0@.to_set() == old(exclude).0@.to_set().insert(
            recipient,
        ),
        owner.0 != attacker ==> *final(exclude) == *old(exclude),
{
    if owner.0 == attacker {
        exclude.insert(recipient);
    }
}

/// Turns the fighters toward each other, each only while its state adjusts facing. With the
/// first fighter to the right of the second, the first faces left and the second right.
pub fn adjust_facing_system(
    adjust1: bool,
    adjust2: bool,
    first_right_of_second: bool,
    facing1: &mut Facing,
    facing2: &mut Facing,
)
    ensures
        *final(facing1) == if adjust1 {
            Facing(if first_right_of_second { Direction::Left } else { Direction::Right })
        } else {
            *old(facing1)
        },
        *final(facing2) == if adjust2 {
            Facing(if first_right_of_second { Direction::Right } else { Direction::Left })
        } else {
            *old(facing2)
        },
{
    if adjust1 {
        facing1.0 = if first_right_of_second {
            Direction::Left
        } else {
            Direction::Right
        };
    }
    if adjust2 {
        facing2.0 = if first_right_of_second {
            Direction::Right
        } else {
            Direction::Left
        }
    }
}

/// A hitbox that may still hit: its owner and the fighters it has already hit.
pub struct HitboxOwnership<'a> {
    pub hitbox: Entity,
    pub owner: Owner,
    pub exclude: &'a Exclude,
}

/// The hitboxes that can hit the other fighter, for each fighter, in the order given: those
/// of the first fighter that have not hit the second, and those of the second that have not
/// hit the first.
pub fn split_hitboxes_by_owner(
    hitboxes: &Vec<HitboxOwnership>,
    player1: Entity,
    player2: Entity,
) -> (r: (Vec<Entity>, Vec<Entity>))
    ensures
        r.0@ == hitboxes@.filter(|h: HitboxOwnership| hits_first(h, player1, player2)).map_values(
            |h: HitboxOwnership| h.hitbox,
        ),
        r.1@ == hitboxes@.filter(|h: HitboxOwnership| hits_second(h, player1, player2)).map_values(
            |h: HitboxOwnership| h.hitbox,
        ),
        forall|j: int|
            0 <= j < r.0@.len() ==> {
                let h = #[trigger] offered_against_second(hitboxes@, player1, player2)[j];
                &&& hitboxes@.contains(h)
                &&& h.hitbox == r.0@[j]
                &&& h.owner.0 == player1
                &&& !h.exclude.0@.contains(player2)
            },
        forall|j: int|
            0 <= j < r.1@.len() ==> {
                let h = #[trigger] offered_against_first(hitboxes@, player1, player2)[j];
                &&& hitboxes@.contains(h)
                &&& h.hitbox == r.1@[j]
                &&& h.owner.0 == player2
                &&& !h.exclude.0@.contains(player1)
            },
        forall|i: int|
            0 <= i < hitboxes@.len() && (#[trigger] hitboxes@[i]).owner.0 == player1
                && !hitboxes@[i].exclude.0@.contains(player2) ==> r.0@.contains(hitboxes@[i].hitbox),
        forall|i: int|
            0 <= i < hitboxes@.len() && (#[trigger] hitboxes@[i]).owner.0 == player2 && player1 != player2
                && !hitboxes@[i].exclude.0@.contains(player1) ==> r.1@.contains(hitboxes@[i].hitbox),
{
    let mut hitboxes_1: Vec<Entity> = Vec::new();
    let mut hitboxes_2: Vec<Entity> = Vec::new();
    let mut i: usize = 0;
    while i < hitboxes.len()
        invariant
            i <= hitboxes.len(),
            hitboxes_1@ == hitboxes@.take(i as int).filter(
                |h: HitboxOwnership| hits_first(h, player1, player2),
            ).map_values(|h: HitboxOwnership| h.hitbox),
            hitboxes_2@ == hitboxes@.take(i as int).filter(
                |h: HitboxOwnership| hits_second(h, player1, player2),
            ).map_values(|h: HitboxOwnership| h.hitbox),
        decreases hitboxes.len() - i,
    {
        let h = &hitboxes[i];
        proof {
            reveal(Seq::filter);
            assert(hitboxes@.take(i + 1).drop_last() =~= hitboxes@.take(i as int));
        }
        if h.owner.0 == player1 && !h.exclude.contains(player2) {
            hitboxes_1.push(h.hitbox);
        } else if h.owner.0 == player2 && !h.exclude.contains(player1) {
            hitboxes_2.push(h.hitbox);
        }
        proof {
            let p1 = |h: HitboxOwnership| hits_first(h, player1, player2);
            let p2 = |h: HitboxOwnership| hits_second(h, player1, player2);
            let t = hitboxes@.take(i + 1);
            assert(t.last() == hitboxes@[i as int]);
            assert(hitboxes_1@ =~= t.filter(p1).map_values(|h: HitboxOwnership| h.hitbox));
            assert(hitboxes_2@ =~= t.filter(p2).map_values(|h: HitboxOwnership| h.hitbox));
        }
        i += 1;
    }
    proof {
        assert(hitboxes@.take(hitboxes@.len() as int) =~= hitboxes@);
        lemma_split_hitboxes(hitboxes@, player1, player2);
        let f1 = offered_against_second(hitboxes@, player1, player2);
        let f2 = offered_against_first(hitboxes@, player1, player2);
        assert(hitboxes_1@ == f1.map_values(|h: HitboxOwnership| h.hitbox));
        assert(hitboxes_2@ == f2.map_values(|h: HitboxOwnership| h.hitbox));
        assert forall|i: int|
            0 <= i < hitboxes@.len() && (#[trigger] hitboxes@[i]).owner.0 == player1
                && !hitboxes@[i].exclude.0@.contains(player2) implies hitboxes_1@.contains(hitboxes@[i].hitbox) by {
            assert(f1.contains(hitboxes@[i]));
            let k = choose|k: int| 0 <= k < f1.len() && f1[k] == hitboxes@[i];
            assert(hitboxes_1@[k] == hitboxes@[i].hitbox);
        }
        assert forall|i: int|
            0 <= i < hitboxes@.len() && (#[trigger] hitboxes@[i]).owner.0 == player2 && player1 != player2
                && !hitboxes@[i].exclude.0@.contains(player1) implies hitboxes_2@.contains(hitboxes@[i].hitbox) by {
            assert(f2.contains(hitboxes@[i]));
            let k = choose|k: int| 0 <= k < f2.len() && f2[k] == hitboxes@[i];
            assert(hitboxes_2@[k] == hitboxes@[i].hitbox);
        }
    }
    (hitboxes_1, hitboxes_2)
}

/// The hitboxes offered against the second fighter: those of the first fighter that have not hit
/// the second yet, in the order given.
pub open spec fn offered_against_second(hitboxes: Seq<HitboxOwnership>, player1: Entity, player2: Entity) -> Seq<
    HitboxOwnership,
> {
    hitboxes.filter(|h: HitboxOwnership| hits_first(h, player1, player2))
}

/// The hitboxes offered against the first fighter: those of the second fighter that have not hit
/// the first yet, in the order given.
pub open spec fn offered_against_first(hitboxes: Seq<HitboxOwnership>, player1: Entity, player2: Entity) -> Seq<
    HitboxOwnership,
> {
    hitboxes.filter(|h: HitboxOwnership| hits_second(h, player1, player2))
}

/// Which hitboxes are offered against each fighter: each one offered against the second fighter
/// is one of the given hitboxes, owned by the first fighter, that has not hit the second yet;
/// each one offered against the first is one owned by the second that has not hit the first
/// yet; and every such hitbox is offered.
pub proof fn lemma_split_hitboxes(hitboxes: Seq<HitboxOwnership>, player1: Entity, player2: Entity)
    ensures
        forall|j: int|
            0 <= j < offered_against_second(hitboxes, player1, player2).len() ==> {
                let h = #[trigger] offered_against_second(hitboxes, player1, player2)[j];
                &&& hitboxes.contains(h)
                &&& h.owner.0 == player1
                &&& !h.exclude.0@.contains(player2)
            },
        forall|j: int|
            0 <= j < offered_against_first(hitboxes, player1, player2).len() ==> {
                let h = #[trigger] offered_against_first(hitboxes, player1, player2)[j];
                &&& hitboxes.contains(h)
                &&& h.owner.0 == player2
                &&& !h.exclude.0@.contains(player1)
            },
        forall|i: int|
            0 <= i < hitboxes.len() && (#[trigger] hitboxes[i]).owner.0 == player1
                && !hitboxes[i].exclude.0@.contains(player2) ==> offered_against_second(
                hitboxes,
                player1,
                player2,
            ).contains(hitboxes[i]),
        forall|i: int|
            0 <= i < hitboxes.len() && (#[trigger] hitboxes[i]).owner.0 == player2 && player1 != player2
                && !hitboxes[i].exclude.0@.contains(player1) ==> offered_against_first(
                hitboxes,
                player1,
                player2,
            ).contains(hitboxes[i]),
{
    let f1 = offered_against_second(hitboxes, player1, player2);
    let f2 = offered_against_first(hitboxes, player1, player2);
    assert forall|j: int| 0 <= j < f1.len() implies hitboxes.contains(#[trigger] f1[j]) && f1[j].owner.0
        == player1 && !f1[j].exclude.0@.contains(player2) by {
        hitboxes.lemma_filter_pred(|h: HitboxOwnership| hits_first(h, player1, player2), j);
        assert(f1.contains(f1[j]));
        hitboxes.lemma_filter_contains_rev(|h: HitboxOwnership| hits_first(h, player1, player2), f1[j]);
    }
    assert forall|j: int| 0 <= j < f2.len() implies hitboxes.contains(#[trigger] f2[j]) && f2[j].owner.0
        == player2 && !f2[j].exclude.0@.contains(player1) by {
        hitboxes.lemma_filter_pred(|h: HitboxOwnership| hits_second(h, player1, player2), j);
        assert(f2.contains(f2[j]));
        hitboxes.lemma_filter_contains_rev(|h: HitboxOwnership| hits_second(h, player1, player2), f2[j]);
    }
    assert forall|i: int|
        0 <= i < hitboxes.len() && (#[trigger] hitboxes[i]).owner.0 == player1
            && !hitboxes[i].exclude.0@.contains(player2) implies f1.contains(hitboxes[i]) by {
        hitboxes.lemma_filter_contains(|h: HitboxOwnership| hits_first(h, player1, player2), i);
    }
    assert forall|i: int|
        0 <= i < hitboxes.len() && (#[trigger] hitboxes[i]).owner.0 == player2 && player1 != player2
            && !hitboxes[i].exclude.0@.contains(player1) implies f2.contains(hitboxes[i]) by {
        hitboxes.lemma_filter_contains(|h: HitboxOwnership| hits_second(h, player1, player2), i);
    }
}

/// A hitbox of the first fighter that has not hit the second.
pub open spec fn hits_first(h: HitboxOwnership, player1: Entity, player2: Entity) -> bool {
    h.owner.0 == player1 && !h.exclude.0@.contains(player2)
}

/// A hitbox of the second fighter (and not the first) that has not hit the first.
pub open spec fn hits_second(h: HitboxOwnership, player1: Entity, player2: Entity) -> bool {
    !hits_first(h, player1, player2) && h.owner.0 == player2 && !h.exclude.0@.contains(player1)
}

/// Whether a hitbox's window has passed at this frame of its owner.
pub fn hitbox_removal_system(data: &HitboxData, owner_frame: &StateFrame) -> (remove: bool)
    requires
        data.window.end is Some,
    ensures
        remove == (owner_frame.0 > data.window.end->0),
{
    owner_frame.0 > data.get_end_frame()
}

/// Debug pausing: space toggles the pause; while paused, the right key steps one frame.
/// Gives the round state and whether every state frame advances by one.
pub fn pause_system(paused: &mut Paused, space_pressed: bool, right_pressed: bool) -> (r: (
    RoundState,
    bool,
))
    ensures
        final(paused).0 == (old(paused).0 != space_pressed),
        final(paused).0 && right_pressed ==> r == (RoundState::AdvanceFrame, true),
        final(paused).0 && !right_pressed ==> r == (RoundState::Paused, false),
        !final(paused).0 ==> r == (RoundState::Round, false),
{
    if space_pressed {
        paused.0 = !paused.0;
    }
    if paused.0 {
        if right_pressed {
            (RoundState::AdvanceFrame, true)
        } else {
            (RoundState::Paused, false)
        }
    } else {
        (RoundState::Round, false)
    }
}

/// One frame step of a state frame while stepping through a paused game.
pub fn advance_paused_frame(frame: &mut StateFrame)
    requires
        old(frame).0 < u16::MAX,
    ensures
        final(frame).0 == old(frame).0 + 1,
{
    frame.0 += 1;
}

/// Keeps the round paused at the end of a debug frame.
pub fn last_debug_system(paused: &Paused, state: &mut RoundState)
    ensures
        *final(state) == if paused.0 {
            RoundState::Paused
        } else {
            *old(state)
        },
{
    if paused.0 {
        *state = RoundState::Paused;
    }
}

/// What an input check becomes this frame, or `None` where checking it fails: a window
/// without the bound that is read, or a command that cannot be checked against the buffer. A
/// met check stays met; otherwise the start is read first, and a frame before it leaves the check
/// alone; then the end, and a frame after it leaves the check alone; inside the window the check
/// is met exactly when the command is in the buffer.
pub open spec fn input_check_outcome(met: InputMet, check: InputWindowCheck, status: FighterStatus) -> Option<
    InputMet,
> {
    if met.0 {
        Some(met)
    } else if check.window.start is None {
        None
    } else if status.frame < check.window.start->0 {
        Some(met)
    } else if check.window.end is None {
        None
    } else if status.frame > check.window.end->0 {
        Some(met)
    } else if status.buffer.ring().len() == 0 {
        None
    } else {
        match check.command_input.outcome(status.buffer.iter_items(), status.facing) {
            None => None,
            Some(b) => Some(InputMet(b)),
        }
    }
}

/// A met input check stays met: once its command was found in its window, no later frame
/// clears it or fails on it, whatever the window, frame or buffer (only a transition resets it).
pub proof fn lemma_met_check_stays_met(met: InputMet, check: InputWindowCheck, status: FighterStatus)
    ensures
        met.0 ==> input_check_outcome(met, check, status) == Some(met),
        input_check_outcome(met, check, status) matches Some(m) ==> (met.0 ==> m.0),
{
}

/// Updates a state's input check for this frame as `input_check_outcome` says; `None`, leaving
/// the check alone, where the check cannot be made.
pub fn try_modifier_input_check(met: &mut InputMet, check: &InputWindowCheck, status: &FighterStatus) -> (r:
    Option<()>)
    ensures
        input_check_outcome(*old(met), *check, *status) is None ==> r is None && *final(met) == *old(met),
        input_check_outcome(*old(met), *check, *status) matches Some(m) ==> r is Some && *final(met) == m,
        old(met).0 ==> r is Some && *final(met) == *old(met),
{
    proof {
        lemma_met_check_stays_met(*old(met), *check, *status);
    }
    if met.0 {
        return Some(());
    }
    if check.window.start.is_none() {
        return None;
    }
    if status.frame < check.window.get_start_frame() {
        return Some(());
    }
    if check.window.end.is_none() {
        return None;
    }
    if status.frame > check.window.get_end_frame() {
        return Some(());
    }
    if status.buffer.ring_len() == 0 {
        return None;
    }
    match check.command_input.try_compare(status.buffer, status.facing) {
        None => None,
        Some(b) => {
            if b {
                met.0 = true;
            }
            Some(())
        },
    }
}

/// Marks a state's input check met once its command is in the buffer while the fighter's frame
/// lies in the check's window, for a check that can be made (`try_modifier_input_check` tells).
pub fn modifier_input_check(met: &mut InputMet, check: &InputWindowCheck, status: &FighterStatus)
    requires
        input_check_outcome(*old(met), *check, *status) is Some,
    ensures
        Some(*final(met)) == input_check_outcome(*old(met), *check, *status),
        old(met).0 ==> *final(met) == *old(met),
{
    proof {
        lemma_met_check_stays_met(*old(met), *check, *status);
    }
    let _ = try_modifier_input_check(met, check, status);
}

/// The hitboxes of a state that come out on this frame.
pub fn hitbox_component_system<'a>(state: &'a State, frame: &StateFrame) -> (r: Option<&'a Vec<HitboxData>>)
    ensures
        state.hitboxes is None ==> r is None,
        state.hitboxes matches Some(s) ==> (r is Some <==> s.contents().contains_key(frame.0)) && (r matches Some(v) ==> v@ == s.contents()[frame.0]),
{
    match &state.hitboxes {
        Some(hitboxes) => hitboxes.on_frame(frame.0),
        None => None,
    }
}

/// Brings a state's projectile into play on its spawn frame, claiming one of the fighter's
/// projectiles of that name; on any other frame nothing happens.
pub fn object_system(object: &CreateObject, frame: &StateFrame, projectiles: &mut ProjectileReference) -> (r:
    Result<Option<Entity>, ProjectileError>)
    requires
        object.0 is Projectile,
    ensures
        (object.0->Projectile_0).spawn_frame != frame.0 ==> r == Ok::<Option<Entity>, ProjectileError>(
            None,
        ),
        (object.0->Projectile_0).spawn_frame == frame.0 ==> r == claim_outcome(
            *old(projectiles),
            (object.0->Projectile_0).name@,
            (object.0->Projectile_0).max,
        ),
        r matches Ok(Some(e)) ==> claimed(
            *old(projectiles),
            *final(projectiles),
            (object.0->Projectile_0).name@,
            e,
        ),
        !(r matches Ok(Some(_))) ==> final(projectiles).ids() == old(projectiles).ids()
            && final(projectiles).amounts() == old(projectiles).amounts(),
{
    match &object.0 {
        Object::Projectile(p) => {
            if p.spawn_frame != frame.0 {
                return Ok(None);
            }
            projectiles.claim(&p.name, p.max)
        },
        Object::Nothing => {
            proof {
                assert(false);
            }
            Ok(None)
        },
    }
}

/// Takes a projectile out of play on the frame its life ends; on any other frame it stays.
/// Gives whether it left play.
pub fn projectile_system(
    data: &ProjectileData,
    frame: &StateFrame,
    projectile: Entity,
    projectiles: &mut ProjectileReference,
) -> (r: Result<bool, ProjectileError>)
    ensures
        frame.0 != data.life_frames ==> r == Ok::<bool, ProjectileError>(false),
        frame.0 == data.life_frames ==> r == match release_outcome(
            *old(projectiles),
            data.name@,
            projectile,
        ) {
            Ok(_) => Ok::<bool, ProjectileError>(true),
            Err(e) => Err(e),
        },
        r == Ok::<bool, ProjectileError>(true) ==> released(
            *old(projectiles),
            *final(projectiles),
            data.name@,
            projectile,
        ),
        r != Ok::<bool, ProjectileError>(true) ==> final(projectiles).ids() == old(projectiles).ids()
            && final(projectiles).amounts() == old(projectiles).amounts(),
{
    if frame.0 != data.life_frames {
        return Ok(false);
    }
    match projectiles.release(&data.name, projectile) {
        Ok(()) => Ok(true),
        Err(e) => Err(e),
    }
}

} // verus!
