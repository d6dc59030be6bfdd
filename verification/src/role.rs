use vstd::prelude::*;

use crate::bullet::Bullet;
use crate::skill_e::{is_e_bullet, SkillEModel, SkillEStatus};
use crate::skill_q::{is_q_bullet, SkillQModel, SkillQStatus};
use crate::skill_r::{is_r_bullet, SkillRModel, SkillRStatus};
use crate::utils::Skill;

verus! {

/// The player character's skill state. It is held by value: a copy is
/// independent of the value it was copied from.
#[derive(Debug, Clone, Copy)]
pub struct Role {
    pub skill_e: SkillEStatus,
    pub skill_q: SkillQStatus,
    pub skill_r: SkillRStatus,
}

/// `after` and `r` are what casting `skill` on `before` gives, where `reach`
/// tells whether an E target was found and is within reach.
pub open spec fn cast_post(before: Role, after: Role, skill: Skill, reach: Option<bool>, r: Option<Bullet>) -> bool {
    match skill {
        Skill::Q => {
            &&& r is Some <==> before.skill_q@.ready()
            &&& r is None ==> after == before
            &&& r matches Some(b) ==> {
                &&& after.skill_q@ == before.skill_q@.with_cooldown().after_advance()
                &&& is_q_bullet(b@, before.skill_q@.empowered())
            }
            &&& after.skill_e == before.skill_e
            &&& after.skill_r == before.skill_r
        },
        Skill::E => {
            &&& r is Some <==> before.skill_e@.ready() && reach == Some(true)
            &&& r is None ==> after == before
            &&& r matches Some(b) ==> after.skill_e@ == before.skill_e@.with_cooldown() && is_e_bullet(b@)
            &&& after.skill_q == before.skill_q
            &&& after.skill_r == before.skill_r
        },
        Skill::R => {
            &&& r is Some <==> before.skill_r@.ready()
            &&& r is None ==> after == before
            &&& r matches Some(b) ==> after.skill_r@ == (SkillRModel {
                using: true,
                ..before.skill_r@.with_cooldown()
            }) && is_r_bullet(b@)
            &&& after.skill_q == before.skill_q
            &&& after.skill_e == before.skill_e
        },
        Skill::W => r is None && after == before,
    }
}

impl Role {
    pub fn new() -> (r: Self)
        ensures
            r.skill_q@ == (SkillQModel { cd: 0, stacks: 0, stacks_time: 0 }),
            r.skill_e@ == (SkillEModel { cd: 0 }),
            r.skill_r@ == (SkillRModel { using: false, cd: 0 }),
    {
        Self { skill_q: SkillQStatus::new(), skill_e: SkillEStatus::new(), skill_r: SkillRStatus::new() }
    }

    /// Lets `delta` milliseconds pass on every skill.
    pub fn skill_cd(&mut self, delta: usize)
        ensures
            final(self).skill_q@ == old(self).skill_q@.elapse(delta as nat),
            final(self).skill_e@ == old(self).skill_e@.elapse(delta as nat),
            final(self).skill_r@ == old(self).skill_r@.elapse(delta as nat),
    {
        self.skill_q.cd(delta);
        self.skill_e.cd(delta);
        self.skill_r.cd(delta);
    }

    /// Casts `skill`; W has no effect. See [`Role::skill_q`], [`Role::skill_e`]
    /// and [`Role::skill_r`].
    pub fn cast(&mut self, skill: Skill, reach: Option<bool>) -> (r: Option<Bullet>)
        ensures
            cast_post(*old(self), *final(self), skill, reach, r),
    {
        match skill {
            Skill::Q => self.skill_q(),
            Skill::E => self.skill_e(reach),
            Skill::R => self.skill_r(),
            Skill::W => None,
        }
    }

    /// The character follows the movement keys unless it is channelling R.
    pub fn can_move(&self) -> (r: bool)
        ensures
            r == !self.skill_r@.using,
    {
        !self.skill_r.is_using()
    }
}

} // verus!
