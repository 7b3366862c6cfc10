use vstd::prelude::*;

use crate::fighter::state::{Entity, Frame, FrameWindow, HBox};

verus! {

/// An attack volume of a state: what it does on contact and when it is out.
#[derive(Clone, Debug, Default)]
pub struct HitboxData {
    pub priority: u8,
    pub id: Option<usize>,
    pub global_id: Option<u32>,
    pub bone: String,
    pub bone_entity: Option<Entity>,
    pub damage: u16,
    pub on_hit: OnHit,
    pub on_air_hit: OnHit,
    pub blockstun: Frame,
    pub window: FrameWindow,
    pub rehit: Option<u16>,
}

impl HitboxData {
    pub fn get_end_frame(&self) -> (f: Frame)
        requires
            self.window.end is Some,
        ensures
            f == self.window.end->0,
    {
        self.window.get_end_frame()
    }

    pub fn get_start_frame(&self) -> (f: Frame)
        requires
            self.window.start is Some,
        ensures
            f == self.window.start->0,
    {
        self.window.get_start_frame()
    }

    pub fn on_air_hit_default() -> (o: OnHit)
        ensures
            o == OnHit::Launch,
    {
        OnHit::Launch
    }

    pub fn set_global_id(&mut self, global_id: u32)
        ensures
            final(self).global_id == Some(global_id),
            final(self).priority == old(self).priority,
            final(self).id == old(self).id,
            final(self).bone == old(self).bone,
            final(self).bone_entity == old(self).bone_entity,
            final(self).damage == old(self).damage,
            final(self).on_hit == old(self).on_hit,
            final(self).on_air_hit == old(self).on_air_hit,
            final(self).blockstun == old(self).blockstun,
            final(self).window == old(self).window,
            final(self).rehit == old(self).rehit,
    {
        self.global_id = Some(global_id);
    }
}

impl HBox for HitboxData {
    fn get_priority(&self) -> (p: u8)
        ensures
            p == self.priority,
    {
        self.priority
    }

    fn set_id(&mut self, value: usize)
        ensures
            final(self).id == Some(value),
            final(self).priority == old(self).priority,
            final(self).global_id == old(self).global_id,
            final(self).bone == old(self).bone,
            final(self).bone_entity == old(self).bone_entity,
            final(self).damage == old(self).damage,
            final(self).on_hit == old(self).on_hit,
            final(self).on_air_hit == old(self).on_air_hit,
            final(self).blockstun == old(self).blockstun,
            final(self).window == old(self).window,
            final(self).rehit == old(self).rehit,
    {
        self.id = Some(value);
    }
}

/// What a hit does to the fighter it lands on. The knockback of `Launch` and `Grounded` is
/// carried beside the hitbox by the game, not here.
#[derive(Clone, Copy, Debug, PartialEq, Eq, Structural)]
pub enum OnHit {
    Launch,
    Grounded { hitstun: Frame },
    Stun(Frame),
}

impl Default for OnHit {
    fn default() -> (o: Self)
        ensures
            o == (OnHit::Grounded { hitstun: 1 }),
    {
        Self::Grounded { hitstun: 1 }
    }
}

/// Marks a fighter knocked into the air until it lands.
#[derive(Clone, Copy, Debug, PartialEq, Eq, Structural, Default)]
pub struct AirborneHitstun;

} // verus!
