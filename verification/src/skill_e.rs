use vstd::prelude::*;
use vstd::string::StringExecFns;

use crate::bullet::{
    any_arm, any_destroy, framed, ids_in_group, in_group, outcomes, run, Bullet, BulletEvent, BulletModel,
    Contact, NextOutcome, ViewBox,
};
use crate::bullet::ViewEffect;
use crate::role::Role;
use crate::utils::{lemma_total_step, sat_sub, total};

verus! {

/// Cooldown of the E skill after a cast, in milliseconds.
pub const E_COOLDOWN: usize = 200;

/// Abstract state of the E skill: its remaining cooldown.
pub struct SkillEModel {
    pub cd: nat,
}

impl SkillEModel {
    pub open spec fn ready(self) -> bool {
        self.cd == 0
    }

    pub open spec fn elapse(self, delta: nat) -> SkillEModel {
        SkillEModel { cd: sat_sub(self.cd, delta) }
    }

    pub open spec fn with_cooldown(self) -> SkillEModel {
        SkillEModel { cd: E_COOLDOWN as nat }
    }
}

/// Cooldown of the E skill.
#[derive(Debug, Clone, Copy)]
pub struct SkillEStatus {
    cd: usize,
}

impl View for SkillEStatus {
    type V = SkillEModel;

    closed spec fn view(&self) -> SkillEModel {
        SkillEModel { cd: self.cd as nat }
    }
}

impl SkillEStatus {
    pub fn new() -> (s: Self)
        ensures
            s@ == (SkillEModel { cd: 0 }),
    {
        Self { cd: 0 }
    }

    pub fn reset_cd(&mut self)
        ensures
            final(self)@ == old(self)@.with_cooldown(),
    {
        self.cd = E_COOLDOWN;
    }

    pub fn cd(&mut self, delta: usize)
        ensures
            final(self)@ == old(self)@.elapse(delta as nat),
    {
        self.cd = self.cd.saturating_sub(delta);
    }

    pub fn ready(&self) -> (r: bool)
        ensures
            r == self@.ready(),
    {
        self.cd == 0
    }
}

/// The projectile of an E cast.
pub open spec fn is_e_bullet(b: BulletModel) -> bool {
    &&& b.name == "skill.e"@
    &&& b.target == "enemy"@
    &&& b.width == 200
    &&& b.height == 50
    &&& b.color == "#2e2e364d"@
    &&& b.speed == 0
    &&& !b.moving
    &&& !b.attackable
    &&& !b.striking
    &&& !b.destroyed
    &&& b.events.len() == 2
    &&& b.events[0] == BulletEvent::EAttack(SkillEAttack {})
    &&& b.events[1] matches BulletEvent::ENext(e) && e@ == (ENextModel { lifetime: E_LIFETIME as nat })
}

/// The first of `contacts` that is an enemy: the target of an E cast.
pub fn pick_target(contacts: &Vec<Contact>) -> (r: Option<u128>)
    ensures
        r is None <==> forall|i: int| 0 <= i < contacts@.len() ==> !in_group(#[trigger] contacts@[i], "enemy"@),
        r matches Some(id) ==> exists|i: int|
            0 <= i < contacts@.len() && in_group(#[trigger] contacts@[i], "enemy"@) && contacts@[i].id == id
                && forall|j: int| 0 <= j < i ==> !in_group(#[trigger] contacts@[j], "enemy"@),
{
    let enemy = String::from_str("enemy");
    let n = contacts.len();
    let mut i: usize = 0;
    while i < n
        invariant
            n == contacts@.len(),
            i <= n,
            enemy@ == "enemy"@,
            forall|j: int| 0 <= j < i ==> !in_group(#[trigger] contacts@[j], "enemy"@),
        decreases n - i,
    {
        if contacts[i].has_group(&enemy) {
            return Some(contacts[i].id);
        }
        i += 1;
    }
    None
}

impl Role {
    /// Casts E at the enemy under the cursor. `reach` is `None` when there is
    /// no enemy there, else whether it is within dashing distance. The cast
    /// happens only when E is ready and the enemy is within reach: it starts
    /// the cooldown and returns the slash, which the caster dashes through.
    pub fn skill_e(&mut self, reach: Option<bool>) -> (r: Option<Bullet>)
        ensures
            r is Some <==> old(self).skill_e@.ready() && reach == Some(true),
            r is None ==> *final(self) == *old(self),
            r matches Some(b) ==> final(self).skill_e@ == old(self).skill_e@.with_cooldown() && is_e_bullet(b@),
            final(self).skill_q == old(self).skill_q,
            final(self).skill_r == old(self).skill_r,
    {
        if !self.skill_e.ready() {
            return None;
        }
        let within = match reach {
            Some(within) => within,
            None => {
                return None;
            },
        };
        if !within {
            return None;
        }
        self.skill_e.reset_cd();
        let viewbox = ViewBox { width: 200, height: 50, color: String::from_str("#2e2e364d") };
        let mut bullet = Bullet::new("skill.e", "enemy", viewbox, 0);
        bullet.add(BulletEvent::EAttack(SkillEAttack::new()));
        bullet.add(BulletEvent::ENext(SkillENext::new()));
        Some(bullet)
    }
}

/// A fresh E slash hits and is used up together, in the first frame in
/// which its whole lifetime has passed.
pub proof fn lemma_e_slash_strikes_at_end(b: BulletModel, d: nat)
    requires
        is_e_bullet(b),
    ensures
        any_arm(outcomes(b.events, d)) <==> d >= E_LIFETIME,
        any_destroy(outcomes(b.events, d)) <==> d >= E_LIFETIME,
{
    let outs = outcomes(b.events, d);
    assert(outs[0] == NextOutcome::quiet());
    if d >= E_LIFETIME {
        assert(outs[1].arm && outs[1].destroy);
    }
}

/// An E slash after `t` milliseconds of frames.
pub open spec fn e_slash_after(b: BulletModel, t: nat) -> bool {
    &&& b.target == "enemy"@
    &&& !b.attackable
    &&& !b.striking
    &&& b.destroyed == (t >= E_LIFETIME)
    &&& b.events.len() == 2
    &&& b.events[0] == BulletEvent::EAttack(SkillEAttack {})
    &&& b.events[1] matches BulletEvent::ENext(e) && e@ == (ENextModel {
        lifetime: sat_sub(E_LIFETIME as nat, t),
    })
}

/// One frame of an E slash.
proof fn lemma_e_slash_frame(
    b: BulletModel,
    b2: BulletModel,
    r: Role,
    r2: Role,
    t: nat,
    d: nat,
    c: Seq<Contact>,
    h: Seq<u128>,
)
    requires
        e_slash_after(b, t),
        framed(b, b2, r, r2, d, c, h),
    ensures
        e_slash_after(b2, t + d),
        h == if t + d >= E_LIFETIME {
            ids_in_group(c, "enemy"@)
        } else {
            seq![]
        },
{
    let (mid, rm, effects, strike, destroyed) = choose|
        mid: BulletModel,
        rm: Role,
        effects: Seq<ViewEffect>,
        strike: bool,
        destroyed: bool,
    |
        #[trigger] crate::bullet::triggered(b, mid, r, rm, d, effects, strike, destroyed) && crate::bullet::attacked(
            mid,
            b2,
            rm,
            r2,
            c,
            h,
        );
    let outs = outcomes(b.events, d);
    assert(outs[0] == NextOutcome::quiet());
    assert(outs[1].arm == (t + d >= E_LIFETIME));
    assert(outs[1].destroy == (t + d >= E_LIFETIME));
    assert(any_arm(outs) == outs[1].arm) by {
        if any_arm(outs) {
            let k = choose|k: int| 0 <= k < outs.len() && #[trigger] outs[k].arm;
            assert(k == 1);
        }
    }
    assert(any_destroy(outs) == outs[1].destroy) by {
        if any_destroy(outs) {
            let k = choose|k: int| 0 <= k < outs.len() && #[trigger] outs[k].destroy;
            assert(k == 1);
        }
    }
    assert(b.events[0].stepped_to(mid.events[0], d));
    assert(b.events[1].stepped_to(mid.events[1], d));
    if strike {
        assert(mid.events[0].is_attack());
        assert(crate::bullet::has_attack(mid.events));
        assert(mid.events[0].hit_to(b2.events[0]));
        assert(mid.events[1].hit_to(b2.events[1]));
        assert(b2.events =~= mid.events);
    }
}

/// An E slash that keeps running: it is used up exactly once the frames add
/// up to its lifetime, and it destroys the enemies it overlaps in exactly the
/// frames that end at or after that point (before it, it hits nothing).
pub proof fn lemma_e_slash_run(
    bullets: Seq<BulletModel>,
    roles: Seq<Role>,
    deltas: Seq<nat>,
    contacts: Seq<Seq<Contact>>,
    hits: Seq<Seq<u128>>,
)
    requires
        run(bullets, roles, deltas, contacts, hits),
        is_e_bullet(bullets[0]),
    ensures
        forall|k: int|
            0 <= k <= deltas.len() ==> (#[trigger] bullets[k]).destroyed == (total(deltas.take(k))
                >= E_LIFETIME),
        forall|i: int|
            0 <= i < deltas.len() ==> #[trigger] hits[i] == if total(deltas.take(i + 1)) >= E_LIFETIME {
                ids_in_group(contacts[i], "enemy"@)
            } else {
                seq![]
            },
{
    assert forall|k: int| 0 <= k <= deltas.len() implies e_slash_after(
        #[trigger] bullets[k],
        total(deltas.take(k)),
    ) by {
        lemma_e_slash_prefix(bullets, roles, deltas, contacts, hits, k);
    }
    assert forall|i: int| 0 <= i < deltas.len() implies #[trigger] hits[i] == if total(deltas.take(i + 1))
        >= E_LIFETIME {
        ids_in_group(contacts[i], "enemy"@)
    } else {
        seq![]
    } by {
        lemma_e_slash_prefix(bullets, roles, deltas, contacts, hits, i);
        lemma_total_step(deltas, i);
        assert(framed(bullets[i], bullets[i + 1], roles[i], roles[i + 1], deltas[i], contacts[i], hits[i]));
        lemma_e_slash_frame(
            bullets[i],
            bullets[i + 1],
            roles[i],
            roles[i + 1],
            total(deltas.take(i)),
            deltas[i],
            contacts[i],
            hits[i],
        );
    }
}

proof fn lemma_e_slash_prefix(
    bullets: Seq<BulletModel>,
    roles: Seq<Role>,
    deltas: Seq<nat>,
    contacts: Seq<Seq<Contact>>,
    hits: Seq<Seq<u128>>,
    k: int,
)
    requires
        run(bullets, roles, deltas, contacts, hits),
        is_e_bullet(bullets[0]),
        0 <= k <= deltas.len(),
    ensures
        e_slash_after(bullets[k], total(deltas.take(k))),
    decreases k,
{
    if k == 0 {
        assert(deltas.take(0) =~= Seq::<nat>::empty());
    } else {
        lemma_e_slash_prefix(bullets, roles, deltas, contacts, hits, k - 1);
        lemma_total_step(deltas, k - 1);
        assert(framed(
            bullets[k - 1],
            bullets[k],
            roles[k - 1],
            roles[k],
            deltas[k - 1],
            contacts[k - 1],
            hits[k - 1],
        ));
        lemma_e_slash_frame(
            bullets[k - 1],
            bullets[k],
            roles[k - 1],
            roles[k],
            total(deltas.take(k - 1)),
            deltas[k - 1],
            contacts[k - 1],
            hits[k - 1],
        );
    }
}

/// An E slash's timer never changes the slash's look or area, and never ends
/// a channelling: it only arms the slash and uses it up, together, once its
/// lifetime has run out.
pub proof fn lemma_e_timer_keeps_look(m: ENextModel, d: nat)
    ensures
        !m.outcome(d).grow,
        !m.outcome(d).warn,
        !m.outcome(d).strike,
        !m.outcome(d).release,
        m.outcome(d).arm == (d >= m.lifetime),
        m.outcome(d).destroy == (d >= m.lifetime),
{
}

/// A fresh E slash asks its host for no look change, whatever the frame.
pub proof fn lemma_e_slash_no_effects(b: BulletModel, d: nat)
    requires
        is_e_bullet(b),
    ensures
        crate::bullet::effects_of(outcomes(b.events, d)) == Seq::<ViewEffect>::empty(),
{
    let outs = outcomes(b.events, d);
    assert(outs[0] == NextOutcome::quiet());
    assert(outs.drop_last().drop_last() =~= Seq::<NextOutcome>::empty());
    assert(outs.drop_last().last() == outs[0]);
    assert(outs[0].effects() =~= Seq::<ViewEffect>::empty());
    assert(outs[1].effects() =~= Seq::<ViewEffect>::empty());
    assert(crate::bullet::effects_of(outs.drop_last().drop_last()) == Seq::<ViewEffect>::empty());
    assert(crate::bullet::effects_of(outs.drop_last()) == crate::bullet::effects_of(
        outs.drop_last().drop_last(),
    ) + outs.drop_last().last().effects());
    assert(crate::bullet::effects_of(outs.drop_last()) =~= Seq::<ViewEffect>::empty());
    assert(crate::bullet::effects_of(outs) == crate::bullet::effects_of(outs.drop_last())
        + outs.last().effects());
    assert(outs.last() == outs[1]);
}

/// After a cast, the E skill is ready again exactly once its whole cooldown has elapsed.
pub proof fn lemma_e_cooldown_recovers(m: SkillEModel, d: nat)
    ensures
        !m.with_cooldown().ready(),
        m.with_cooldown().elapse(d).ready() <==> d >= E_COOLDOWN,
{
}

/// Letting time pass in two steps is the same as letting it pass at once.
pub proof fn lemma_e_elapse_additive(m: SkillEModel, a: nat, b: nat)
    ensures
        m.elapse(a).elapse(b) == m.elapse(a + b),
{
}

/// Lifetime of an E slash, in milliseconds.
pub const E_LIFETIME: usize = 160;

/// Hit handler of an E slash: it only destroys what it hits, which the caller does.
#[derive(Debug, Clone, Copy, PartialEq, Eq, Structural)]
pub struct SkillEAttack {}

impl SkillEAttack {
    pub fn new() -> (s: Self)
        ensures
            s == (SkillEAttack {}),
    {
        Self {}
    }
}

/// Abstract state of an E slash's timer.
pub struct ENextModel {
    pub lifetime: nat,
}

impl ENextModel {
    pub open spec fn step(self, delta: nat) -> ENextModel {
        ENextModel { lifetime: sat_sub(self.lifetime, delta) }
    }

    pub open spec fn outcome(self, delta: nat) -> NextOutcome {
        let expired = sat_sub(self.lifetime, delta) == 0;
        NextOutcome {
            arm: expired,
            grow: false,
            warn: false,
            strike: false,
            release: false,
            destroy: expired,
        }
    }
}

/// Timer of an E slash: it hits once, when it expires.
#[derive(Debug, Clone, Copy)]
pub struct SkillENext {
    lifttime: usize,
}

impl View for SkillENext {
    type V = ENextModel;

    closed spec fn view(&self) -> ENextModel {
        ENextModel { lifetime: self.lifttime as nat }
    }
}

impl SkillENext {
    pub fn new() -> (s: Self)
        ensures
            s@ == (ENextModel { lifetime: E_LIFETIME as nat }),
    {
        Self { lifttime: E_LIFETIME }
    }

    pub fn next(&mut self, delta: usize) -> (o: NextOutcome)
        ensures
            final(self)@ == old(self)@.step(delta as nat),
            o == old(self)@.outcome(delta as nat),
    {
        let before = self.lifttime;
        self.lifttime = before.saturating_sub(delta);
        let expired = self.lifttime == 0;
        NextOutcome {
            arm: expired,
            grow: false,
            warn: false,
            strike: false,
            release: false,
            destroy: expired,
        }
    }
}

/// An E slash hits exactly once, in the tick in which its lifetime runs out.
pub proof fn lemma_e_hits_on_expiry(m: ENextModel, a: nat, b: nat)
    ensures
        m.outcome(a).arm == m.outcome(a).destroy,
        m.outcome(a).arm <==> a >= m.lifetime,
        m.step(a).step(b) == m.step(a + b),
{
}

} // verus!
