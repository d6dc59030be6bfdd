use vstd::prelude::*;
use vstd::string::StringExecFns;

use crate::bullet::{
    any_destroy, any_release, framed, outcomes, run, Bullet, BulletEvent, BulletModel, NextOutcome, ViewBox, ViewEffect,
};
use crate::role::Role;
use crate::utils::{lemma_total_step, passes_multiple, sat_sub, total};

verus! {

/// Cooldown of the R skill after a cast, in milliseconds.
pub const R_COOLDOWN: usize = 5000;

/// Abstract state of the R skill: whether it is being channelled, and its
/// remaining cooldown.
pub struct SkillRModel {
    pub using: bool,
    pub cd: nat,
}

impl SkillRModel {
    pub open spec fn ready(self) -> bool {
        self.cd == 0
    }

    pub open spec fn elapse(self, delta: nat) -> SkillRModel {
        SkillRModel { cd: sat_sub(self.cd, delta), ..self }
    }

    pub open spec fn with_cooldown(self) -> SkillRModel {
        SkillRModel { cd: R_COOLDOWN as nat, ..self }
    }
}

/// Cooldown and channelling flag of the R skill.
#[derive(Debug, Clone, Copy)]
pub struct SkillRStatus {
    pub using: bool,
    cd: usize,
}

impl View for SkillRStatus {
    type V = SkillRModel;

    closed spec fn view(&self) -> SkillRModel {
        SkillRModel { using: self.using, cd: self.cd as nat }
    }
}

impl SkillRStatus {
    pub fn new() -> (s: Self)
        ensures
            s@ == (SkillRModel { using: false, cd: 0 }),
    {
        Self { cd: 0, using: false }
    }

    pub fn reset_cd(&mut self)
        ensures
            final(self)@ == old(self)@.with_cooldown(),
    {
        self.cd = R_COOLDOWN;
    }

    pub fn cd(&mut self, delta: usize)
        ensures
            final(self)@ == old(self)@.elapse(delta as nat),
    {
        self.cd = self.cd.saturating_sub(delta);
    }

    pub fn ready(&self) -> (r: bool)
        ensures
            r == self@.ready(),
    {
        self.cd == 0
    }

    /// Whether the R skill is being channelled.
    pub fn is_using(&self) -> (r: bool)
        ensures
            r == self@.using,
    {
        self.using
    }
}

/// The field of an R cast.
pub open spec fn is_r_bullet(b: BulletModel) -> bool {
    &&& b.name == "skill.r"@
    &&& b.target == "enemy"@
    &&& b.width == 800
    &&& b.height == 500
    &&& b.color == "#2e2e364d"@
    &&& b.speed == 0
    &&& !b.moving
    &&& !b.attackable
    &&& !b.striking
    &&& !b.destroyed
    &&& b.events.len() == 2
    &&& b.events[0] == BulletEvent::RAttack(SkillRAttack {})
    &&& b.events[1] matches BulletEvent::RNext(e) && e@ == (RNextModel { lifetime: R_LIFETIME as nat })
}

impl Role {
    /// Casts R if it is ready: starts its cooldown, starts channelling (the
    /// caster drifts instead of following the movement keys) and places the
    /// field at the cursor.
    pub fn skill_r(&mut self) -> (r: Option<Bullet>)
        ensures
            r is Some <==> old(self).skill_r@.ready(),
            r is None ==> *final(self) == *old(self),
            r matches Some(b) ==> final(self).skill_r@ == (SkillRModel {
                using: true,
                ..old(self).skill_r@.with_cooldown()
            }) && is_r_bullet(b@),
            final(self).skill_q == old(self).skill_q,
            final(self).skill_e == old(self).skill_e,
    {
        if !self.skill_r.ready() {
            return None;
        }
        self.skill_r.reset_cd();
        self.skill_r.using = true;
        let viewbox = ViewBox { width: 800, height: 500, color: String::from_str("#2e2e364d") };
        let mut bullet = Bullet::new("skill.r", "enemy", viewbox, 0);
        bullet.add(BulletEvent::RAttack(SkillRAttack::new()));
        bullet.add(BulletEvent::RNext(SkillRNext::new()));
        Some(bullet)
    }
}

/// The field of a fresh R cast ends the channelling, and is used up, in the
/// first frame in which its whole lifetime has passed.
pub proof fn lemma_r_field_ends_channel(b: BulletModel, d: nat)
    requires
        is_r_bullet(b),
    ensures
        any_release(outcomes(b.events, d)) <==> d >= R_LIFETIME,
        any_destroy(outcomes(b.events, d)) <==> d >= R_LIFETIME,
{
    let outs = outcomes(b.events, d);
    assert(outs[0] == NextOutcome::quiet());
    if d >= R_LIFETIME {
        assert(outs[1].release && outs[1].destroy);
    }
}

/// Whether an R field that has lived `t` milliseconds strikes in a frame of
/// `d` milliseconds: the remaining lifetime, taken modulo the period, plus the
/// frame reaches the period.
pub open spec fn r_strike_due(t: nat, d: nat) -> bool {
    sat_sub(sat_sub(R_LIFETIME as nat, t), d) % (R_PERIOD as nat) + d >= R_PERIOD
}

/// In the frame in which the field expires (the frame is longer than what is
/// left of it), it strikes only if the frame lasts a whole period or more;
/// the channelling ends and the field is used up.
pub proof fn lemma_r_expiring_frame(m: RNextModel, d: nat)
    requires
        d > m.lifetime,
    ensures
        m.outcome(d).strike <==> d >= R_PERIOD,
        m.outcome(d).arm <==> d >= R_PERIOD,
        m.outcome(d).warn <==> d >= R_WARN_AT,
        m.outcome(d).release,
        m.outcome(d).destroy,
        !m.outcome(d).grow,
{
    assert(sat_sub(m.lifetime, d) == 0);
    assert(0nat % (R_PERIOD as nat) == 0);
}

/// The field's timer never changes the field's area, arms the field exactly
/// when it strikes, and ends the channelling and uses the field up exactly in
/// the frame that reaches its lifetime.
pub proof fn lemma_r_never_grows(m: RNextModel, d: nat)
    ensures
        !m.outcome(d).grow,
        m.outcome(d).arm == m.outcome(d).strike,
        m.outcome(d).release == (d >= m.lifetime),
        m.outcome(d).destroy == (d >= m.lifetime),
{
}

/// An R field after `t` milliseconds of frames, with the caster's R state
/// `role` that was `start` when the field was cast.
pub open spec fn r_field_after(b: BulletModel, role: Role, t: nat, start: SkillRModel) -> bool {
    &&& b.target == "enemy"@
    &&& !b.attackable
    &&& !b.striking
    &&& b.destroyed == (t >= R_LIFETIME)
    &&& b.events.len() == 2
    &&& b.events[0] == BulletEvent::RAttack(SkillRAttack {})
    &&& b.events[1] matches BulletEvent::RNext(e) && e@ == (RNextModel {
        lifetime: sat_sub(R_LIFETIME as nat, t),
    })
    &&& role.skill_r@ == if t >= R_LIFETIME {
        SkillRModel { using: false, ..start }
    } else {
        start
    }
}

/// One frame of an R field.
proof fn lemma_r_field_frame(
    b: BulletModel,
    b2: BulletModel,
    r: Role,
    r2: Role,
    t: nat,
    d: nat,
    c: Seq<crate::bullet::Contact>,
    h: Seq<u128>,
    start: SkillRModel,
)
    requires
        r_field_after(b, r, t, start),
        framed(b, b2, r, r2, d, c, h),
    ensures
        r_field_after(b2, r2, t + d, start),
        h == if r_strike_due(t, d) {
            crate::bullet::ids_in_group(c, "enemy"@)
        } else {
            seq![]
        },
{
    let (mid, rm, effects, strike, destroyed) = choose|
        mid: BulletModel,
        rm: Role,
        effects: Seq<ViewEffect>,
        strike: bool,
        destroyed: bool,
    |
        #[trigger] crate::bullet::triggered(b, mid, r, rm, d, effects, strike, destroyed) && crate::bullet::attacked(
            mid,
            b2,
            rm,
            r2,
            c,
            h,
        );
    let outs = outcomes(b.events, d);
    assert(outs[0] == NextOutcome::quiet());
    assert(outs[1].release == (t + d >= R_LIFETIME));
    assert(outs[1].destroy == (t + d >= R_LIFETIME));
    assert(outs[1].arm == r_strike_due(t, d));
    assert(crate::bullet::any_arm(outs) == outs[1].arm) by {
        if crate::bullet::any_arm(outs) {
            let k = choose|k: int| 0 <= k < outs.len() && #[trigger] outs[k].arm;
            assert(k == 1);
        }
    }
    assert(any_release(outs) == outs[1].release) by {
        if any_release(outs) {
            let k = choose|k: int| 0 <= k < outs.len() && #[trigger] outs[k].release;
            assert(k == 1);
        }
    }
    assert(any_destroy(outs) == outs[1].destroy) by {
        if any_destroy(outs) {
            let k = choose|k: int| 0 <= k < outs.len() && #[trigger] outs[k].destroy;
            assert(k == 1);
        }
    }
    assert(b.events[0].stepped_to(mid.events[0], d));
    assert(b.events[1].stepped_to(mid.events[1], d));
    if mid.striking {
        assert(mid.events[0].is_attack());
        assert(crate::bullet::has_attack(mid.events));
        assert(mid.events[0].hit_to(b2.events[0]));
        assert(mid.events[1].hit_to(b2.events[1]));
        assert(b2.events =~= mid.events);
    }
}

/// An R field that keeps running: the caster channels (and cannot follow the
/// movement keys) until the frames add up to the field's lifetime, and in
/// exactly that frame the channelling ends and the field is used up; nothing
/// else about the caster's R state changes. In every frame in which it
/// strikes, it destroys all the enemies it overlaps; in the others, none.
pub proof fn lemma_r_field_run(
    bullets: Seq<BulletModel>,
    roles: Seq<Role>,
    deltas: Seq<nat>,
    contacts: Seq<Seq<crate::bullet::Contact>>,
    hits: Seq<Seq<u128>>,
)
    requires
        run(bullets, roles, deltas, contacts, hits),
        is_r_bullet(bullets[0]),
    ensures
        forall|k: int|
            0 <= k <= deltas.len() ==> (#[trigger] bullets[k]).destroyed == (total(deltas.take(k))
                >= R_LIFETIME),
        forall|k: int|
            0 <= k <= deltas.len() ==> (#[trigger] roles[k]).skill_r@ == if total(deltas.take(k))
                >= R_LIFETIME {
                SkillRModel { using: false, ..roles[0].skill_r@ }
            } else {
                roles[0].skill_r@
            },
        forall|i: int|
            0 <= i < deltas.len() ==> #[trigger] hits[i] == if r_strike_due(total(deltas.take(i)), deltas[i]) {
                crate::bullet::ids_in_group(contacts[i], "enemy"@)
            } else {
                seq![]
            },
{
    assert forall|i: int| 0 <= i < deltas.len() implies #[trigger] hits[i] == if r_strike_due(
        total(deltas.take(i)),
        deltas[i],
    ) {
        crate::bullet::ids_in_group(contacts[i], "enemy"@)
    } else {
        seq![]
    } by {
        lemma_r_field_prefix(bullets, roles, deltas, contacts, hits, i);
        assert(framed(bullets[i], bullets[i + 1], roles[i], roles[i + 1], deltas[i], contacts[i], hits[i]));
        lemma_r_field_frame(
            bullets[i],
            bullets[i + 1],
            roles[i],
            roles[i + 1],
            total(deltas.take(i)),
            deltas[i],
            contacts[i],
            hits[i],
            roles[0].skill_r@,
        );
    }
    assert forall|k: int| 0 <= k <= deltas.len() implies r_field_after(
        #[trigger] bullets[k],
        roles[k],
        total(deltas.take(k)),
        roles[0].skill_r@,
    ) by {
        lemma_r_field_prefix(bullets, roles, deltas, contacts, hits, k);
    }
    assert forall|k: int| 0 <= k <= deltas.len() implies r_field_after(
        bullets[k],
        #[trigger] roles[k],
        total(deltas.take(k)),
        roles[0].skill_r@,
    ) by {
        lemma_r_field_prefix(bullets, roles, deltas, contacts, hits, k);
    }
}

proof fn lemma_r_field_prefix(
    bullets: Seq<BulletModel>,
    roles: Seq<Role>,
    deltas: Seq<nat>,
    contacts: Seq<Seq<crate::bullet::Contact>>,
    hits: Seq<Seq<u128>>,
    k: int,
)
    requires
        run(bullets, roles, deltas, contacts, hits),
        is_r_bullet(bullets[0]),
        0 <= k <= deltas.len(),
    ensures
        r_field_after(bullets[k], roles[k], total(deltas.take(k)), roles[0].skill_r@),
    decreases k,
{
    if k == 0 {
        assert(deltas.take(0) =~= Seq::<nat>::empty());
    } else {
        lemma_r_field_prefix(bullets, roles, deltas, contacts, hits, k - 1);
        lemma_total_step(deltas, k - 1);
        assert(framed(
            bullets[k - 1],
            bullets[k],
            roles[k - 1],
            roles[k],
            deltas[k - 1],
            contacts[k - 1],
            hits[k - 1],
        ));
        lemma_r_field_frame(
            bullets[k - 1],
            bullets[k],
            roles[k - 1],
            roles[k],
            total(deltas.take(k - 1)),
            deltas[k - 1],
            contacts[k - 1],
            hits[k - 1],
            roles[0].skill_r@,
        );
    }
}

/// After a cast, the R skill is ready again exactly once its whole cooldown has elapsed.
pub proof fn lemma_r_cooldown_recovers(m: SkillRModel, d: nat)
    ensures
        !m.with_cooldown().ready(),
        m.with_cooldown().elapse(d).ready() <==> d >= R_COOLDOWN,
{
}

/// Letting time pass in two steps is the same as letting it pass at once.
pub proof fn lemma_r_elapse_additive(m: SkillRModel, a: nat, b: nat)
    ensures
        m.elapse(a).elapse(b) == m.elapse(a + b),
{
}

/// Lifetime of the R field, in milliseconds.
pub const R_LIFETIME: usize = 1000;

/// The R field strikes each time this many milliseconds pass.
pub const R_PERIOD: usize = 400;

/// The R field warns of the next strike when this many milliseconds of the
/// current period are left.
pub const R_WARN_AT: usize = 300;

/// Hit handler of the R field: it only destroys what it hits, which the caller does.
#[derive(Debug, Clone, Copy, PartialEq, Eq, Structural)]
pub struct SkillRAttack {}

impl SkillRAttack {
    pub fn new() -> (s: Self)
        ensures
            s == (SkillRAttack {}),
    {
        Self {}
    }
}

/// Abstract state of the R field's timer.
pub struct RNextModel {
    pub lifetime: nat,
}

impl RNextModel {
    pub open spec fn step(self, delta: nat) -> RNextModel {
        RNextModel { lifetime: sat_sub(self.lifetime, delta) }
    }

    pub open spec fn outcome(self, delta: nat) -> NextOutcome {
        let after = sat_sub(self.lifetime, delta);
        let tick = after % (R_PERIOD as nat);
        NextOutcome {
            arm: tick + delta >= R_PERIOD,
            grow: false,
            warn: tick + delta >= R_WARN_AT && tick <= R_WARN_AT,
            strike: tick + delta >= R_PERIOD,
            release: after == 0,
            destroy: after == 0,
        }
    }
}

/// Timer of the R field: it warns, then strikes, once per period, and when it
/// expires it ends the caster's channelling.
#[derive(Debug, Clone, Copy)]
pub struct SkillRNext {
    lifttime: usize,
}

impl View for SkillRNext {
    type V = RNextModel;

    closed spec fn view(&self) -> RNextModel {
        RNextModel { lifetime: self.lifttime as nat }
    }
}

impl SkillRNext {
    pub fn new() -> (s: Self)
        ensures
            s@ == (RNextModel { lifetime: R_LIFETIME as nat }),
    {
        Self { lifttime: R_LIFETIME }
    }

    pub fn next(&mut self, delta: usize, status: &mut SkillRStatus) -> (o: NextOutcome)
        ensures
            final(self)@ == old(self)@.step(delta as nat),
            o == old(self)@.outcome(delta as nat),
            final(status)@ == if o.release {
                SkillRModel { using: false, ..old(status)@ }
            } else {
                old(status)@
            },
    {
        let before = self.lifttime;
        self.lifttime = before.saturating_sub(delta);
        let tick = self.lifttime % R_PERIOD;
        // `tick + delta` compared without forming the sum, which could overflow.
        let warn = tick <= R_WARN_AT && delta >= R_WARN_AT - tick;
        let strike = delta >= R_PERIOD - tick;
        let expired = self.lifttime == 0;
        if expired {
            status.using = false;
        }
        NextOutcome { arm: strike, grow: false, warn, strike, release: expired, destroy: expired }
    }
}

/// While the field lives on, it strikes exactly in the ticks in which its
/// remaining lifetime passes a multiple of the period.
pub proof fn lemma_r_strikes_each_period(m: RNextModel, delta: nat)
    requires
        delta <= m.lifetime,
    ensures
        m.outcome(delta).strike <==> passes_multiple(sat_sub(m.lifetime, delta), m.lifetime, R_PERIOD as nat),
        m.outcome(delta).arm == m.outcome(delta).strike,
{
    let after = sat_sub(m.lifetime, delta);
    let p = R_PERIOD as nat;
    crate::utils::lemma_passes_multiple(after, m.lifetime, p);
    vstd::arithmetic::div_mod::lemma_fundamental_div_mod(after as int, p as int);
    vstd::arithmetic::div_mod::lemma_fundamental_div_mod(m.lifetime as int, p as int);
    let q = after / p;
    let t = after % p;
    assert(m.lifetime == after + delta);
    if t + delta >= p {
        // the quotient grows by at least one
        assert(m.lifetime / p > q) by (nonlinear_arith)
            requires
                after == p * q + t,
                m.lifetime == after + delta,
                t + delta >= p,
                p > 0,
                m.lifetime == p * (m.lifetime / p) + m.lifetime % p,
                m.lifetime % p < p,
        ;
    } else {
        assert(m.lifetime / p == q) by (nonlinear_arith)
            requires
                after == p * q + t,
                m.lifetime == after + delta,
                t + delta < p,
                0 <= t,
                p > 0,
                m.lifetime == p * (m.lifetime / p) + m.lifetime % p,
                0 <= m.lifetime % p < p,
        ;
    }
}

/// The field releases the caster's channelling and is used up in the same tick,
/// the one in which its lifetime runs out.
pub proof fn lemma_r_release_on_expiry(m: RNextModel, a: nat, b: nat)
    ensures
        m.outcome(a).release == m.outcome(a).destroy,
        m.outcome(a).destroy <==> a >= m.lifetime,
        m.step(a).step(b) == m.step(a + b),
{
}

} // verus!
