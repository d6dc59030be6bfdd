use vstd::prelude::*;
use vstd::string::StringExecFns;

use crate::bullet::{
    any_arm, any_destroy, charging, framed, ids_in_group, outcomes, run, Bullet, BulletEvent, BulletModel, Contact,
    NextOutcome, ViewBox, ViewEffect,
};
use crate::role::Role;
use crate::utils::{lemma_total_step, passes_multiple, sat_sub, total};

verus! {

/// Cooldown of the Q skill after a cast, in milliseconds.
pub const Q_COOLDOWN: usize = 500;

/// How long a charge stack stays alive after the last normal hit, in milliseconds.
pub const Q_STACK_DURATION: usize = 4000;

/// Number of charge stacks that empower the next Q cast.
pub const Q_STACKS_TO_EMPOWER: usize = 2;

/// Abstract state of the Q skill: remaining cooldown, stored charge stacks
/// and the remaining lifetime of those stacks.
pub struct SkillQModel {
    pub cd: nat,
    pub stacks: nat,
    pub stacks_time: nat,
}

impl SkillQModel {
    /// The charge stacks that count: none once their lifetime ran out.
    pub open spec fn stack(self) -> nat {
        if self.stacks_time == 0 {
            0
        } else {
            self.stacks
        }
    }

    pub open spec fn ready(self) -> bool {
        self.cd == 0
    }

    /// State after `delta` milliseconds: cooldown and stack lifetime run down.
    pub open spec fn elapse(self, delta: nat) -> SkillQModel {
        SkillQModel {
            cd: sat_sub(self.cd, delta),
            stacks: self.stacks,
            stacks_time: sat_sub(self.stacks_time, delta),
        }
    }

    pub open spec fn with_cooldown(self) -> SkillQModel {
        SkillQModel { cd: Q_COOLDOWN as nat, ..self }
    }

    /// State after a normal Q hit: one more stack, lifetime refreshed.
    pub open spec fn with_new_stack(self) -> SkillQModel {
        SkillQModel { stacks: self.stack() + 1, stacks_time: Q_STACK_DURATION as nat, ..self }
    }

    pub open spec fn without_stacks(self) -> SkillQModel {
        SkillQModel { stacks: 0, stacks_time: 0, ..self }
    }

    /// State after `n` normal hits in a row.
    pub open spec fn with_new_stacks(self, n: nat) -> SkillQModel
        decreases n,
    {
        if n == 0 {
            self
        } else {
            self.with_new_stacks((n - 1) as nat).with_new_stack()
        }
    }

    /// Whether the next cast is empowered.
    pub open spec fn empowered(self) -> bool {
        self.stack() == Q_STACKS_TO_EMPOWER
    }

    /// State after a cast decides on empowerment: an empowered cast uses up the stacks.
    pub open spec fn after_advance(self) -> SkillQModel {
        if self.empowered() {
            self.without_stacks()
        } else {
            self
        }
    }
}

/// Cooldown and charge stacks of the Q skill.
#[derive(Debug, Clone, Copy)]
pub struct SkillQStatus {
    cd: usize,
    stacks: usize,
    stacks_time: usize,
}

impl View for SkillQStatus {
    type V = SkillQModel;

    closed spec fn view(&self) -> SkillQModel {
        SkillQModel { cd: self.cd as nat, stacks: self.stacks as nat, stacks_time: self.stacks_time as nat }
    }
}

impl SkillQStatus {
    pub fn new() -> (s: Self)
        ensures
            s@ == (SkillQModel { cd: 0, stacks: 0, stacks_time: 0 }),
    {
        Self { cd: 0, stacks: 0, stacks_time: 0 }
    }

    pub fn reset_cd(&mut self)
        ensures
            final(self)@ == old(self)@.with_cooldown(),
    {
        self.cd = Q_COOLDOWN;
    }

    pub fn cd(&mut self, delta: usize)
        ensures
            final(self)@ == old(self)@.elapse(delta as nat),
    {
        self.cd = self.cd.saturating_sub(delta);
        self.stacks_time = self.stacks_time.saturating_sub(delta);
    }

    pub fn get_stack(&self) -> (r: usize)
        ensures
            r == self@.stack(),
    {
        if self.stacks_time == 0 {
            0
        } else {
            self.stacks
        }
    }

    pub fn try_advanced(&mut self) -> (advanced: bool)
        ensures
            advanced == old(self)@.empowered(),
            final(self)@ == old(self)@.after_advance(),
    {
        let advanced = self.get_stack() == Q_STACKS_TO_EMPOWER;
        if advanced {
            self.reset_stack()
        }
        advanced
    }

    pub fn update_stack(&mut self)
        requires
            old(self)@.stack() < usize::MAX,
        ensures
            final(self)@ == old(self)@.with_new_stack(),
    {
        self.stacks = self.get_stack() + 1;
        self.stacks_time = Q_STACK_DURATION;
    }

    pub fn reset_stack(&mut self)
        ensures
            final(self)@ == old(self)@.without_stacks(),
    {
        self.stacks = 0;
        self.stacks_time = 0;
    }

    pub fn ready(&self) -> (r: bool)
        ensures
            r == self@.ready(),
    {
        self.cd == 0
    }
}

/// Speed of a Q projectile.
pub const Q_SPEED: u32 = 400;

/// The projectile of a Q cast, empowered or not.
pub open spec fn is_q_bullet(b: BulletModel, advanced: bool) -> bool {
    &&& b.name == "skill.q"@
    &&& b.target == "enemy"@
    &&& b.width == 120
    &&& b.height == if advanced {
        120u32
    } else {
        30u32
    }
    &&& b.color == "#2e2e364d"@
    &&& b.speed == Q_SPEED
    &&& b.moving == advanced
    &&& !b.attackable
    &&& !b.striking
    &&& !b.destroyed
    &&& b.events.len() == 2
    &&& b.events[0] matches BulletEvent::QAttack(a) && a@ == (QAttackModel { advanced, attacked: false })
    &&& b.events[1] matches BulletEvent::QNext(e) && e@ == (QNextModel {
        lifetime: if advanced {
            Q_ADVANCED_LIFETIME as nat
        } else {
            Q_LIFETIME as nat
        },
        advanced,
    })
}

impl Role {
    /// Casts Q if it is ready: starts its cooldown and fires a projectile,
    /// empowered (larger, travelling, using up the stacks) when two charge
    /// stacks are held.
    pub fn skill_q(&mut self) -> (r: Option<Bullet>)
        ensures
            r is Some <==> old(self).skill_q@.ready(),
            r is None ==> *final(self) == *old(self),
            r matches Some(b) ==> {
                &&& final(self).skill_q@ == old(self).skill_q@.with_cooldown().after_advance()
                &&& is_q_bullet(b@, old(self).skill_q@.empowered())
            },
            final(self).skill_e == old(self).skill_e,
            final(self).skill_r == old(self).skill_r,
    {
        if !self.skill_q.ready() {
            return None;
        }
        self.skill_q.reset_cd();
        let advanced = self.skill_q.try_advanced();
        let viewbox = if advanced {
            ViewBox { width: 120, height: 120, color: String::from_str("#2e2e364d") }
        } else {
            ViewBox { width: 120, height: 30, color: String::from_str("#2e2e364d") }
        };
        let mut bullet = Bullet::new("skill.q", "enemy", viewbox, Q_SPEED);
        bullet.add(BulletEvent::QAttack(SkillQAttack::new(advanced)));
        bullet.add(BulletEvent::QNext(SkillQNext::new(advanced)));
        if advanced {
            bullet.launch();
        }
        Some(bullet)
    }
}

/// A fresh normal Q projectile is armed and used up together, in the first
/// frame in which its whole lifetime has passed.
pub proof fn lemma_q_normal_bullet_strikes_at_end(b: BulletModel, d: nat)
    requires
        is_q_bullet(b, false),
    ensures
        any_arm(outcomes(b.events, d)) <==> d >= Q_LIFETIME,
        any_destroy(outcomes(b.events, d)) <==> d >= Q_LIFETIME,
{
    let outs = outcomes(b.events, d);
    assert(outs[0] == NextOutcome::quiet());
    if d >= Q_LIFETIME {
        assert(outs[1].arm && outs[1].destroy);
    }
}

/// Whether a normal Q projectile has landed a hit within the first `k` frames
/// of lengths `deltas`: in a frame that ends at or after its lifetime, it
/// overlapped an enemy.
pub open spec fn q_charged(deltas: Seq<nat>, contacts: Seq<Seq<Contact>>, k: int) -> bool
    decreases k,
{
    if k <= 0 {
        false
    } else {
        q_charged(deltas, contacts, k - 1) || (total(deltas.take(k)) >= Q_LIFETIME && ids_in_group(
            contacts[k - 1],
            "enemy"@,
        ).len() > 0)
    }
}

/// A normal Q projectile after `t` milliseconds of frames, having landed a
/// hit (`charged`) or not, with the caster's Q state `role` that was `start`
/// when the projectile was cast.
pub open spec fn q_normal_after(b: BulletModel, role: Role, t: nat, charged: bool, start: SkillQModel) -> bool {
    &&& b.target == "enemy"@
    &&& !b.attackable
    &&& !b.striking
    &&& b.destroyed == (t >= Q_LIFETIME)
    &&& b.events.len() == 2
    &&& b.events[0] matches BulletEvent::QAttack(a) && a@ == (QAttackModel { advanced: false, attacked: charged })
    &&& b.events[1] matches BulletEvent::QNext(e) && e@ == (QNextModel {
        lifetime: sat_sub(Q_LIFETIME as nat, t),
        advanced: false,
    })
    &&& role.skill_q@ == if charged {
        start.with_new_stack()
    } else {
        start
    }
}

/// One frame of a normal Q projectile.
proof fn lemma_q_normal_frame(
    b: BulletModel,
    b2: BulletModel,
    r: Role,
    r2: Role,
    t: nat,
    d: nat,
    c: Seq<Contact>,
    h: Seq<u128>,
    charged: bool,
    start: SkillQModel,
)
    requires
        q_normal_after(b, r, t, charged, start),
        framed(b, b2, r, r2, d, c, h),
    ensures
        q_normal_after(
            b2,
            r2,
            t + d,
            charged || (t + d >= Q_LIFETIME && ids_in_group(c, "enemy"@).len() > 0),
            start,
        ),
{
    let (mid, rm, effects, strike, destroyed) = choose|
        mid: BulletModel,
        rm: Role,
        effects: Seq<ViewEffect>,
        strike: bool,
        destroyed: bool,
    |
        #[trigger] crate::bullet::triggered(b, mid, r, rm, d, effects, strike, destroyed) && crate::bullet::attacked(
            mid,
            b2,
            rm,
            r2,
            c,
            h,
        );
    let outs = outcomes(b.events, d);
    assert(outs[0] == NextOutcome::quiet());
    assert(outs[1].arm == (t + d >= Q_LIFETIME));
    assert(outs[1].destroy == (t + d >= Q_LIFETIME));
    assert(any_arm(outs) == outs[1].arm) by {
        if any_arm(outs) {
            let k = choose|k: int| 0 <= k < outs.len() && #[trigger] outs[k].arm;
            assert(k == 1);
        }
    }
    assert(any_destroy(outs) == outs[1].destroy) by {
        if any_destroy(outs) {
            let k = choose|k: int| 0 <= k < outs.len() && #[trigger] outs[k].destroy;
            assert(k == 1);
        }
    }
    assert(b.events[0].stepped_to(mid.events[0], d));
    assert(b.events[1].stepped_to(mid.events[1], d));
    assert(mid.events[0] == b.events[0]);
    if strike && ids_in_group(c, "enemy"@).len() > 0 {
        assert(mid.events[0].hit_to(b2.events[0]));
        assert(mid.events[1].hit_to(b2.events[1]));
        let ev = mid.events;
        assert(ev.drop_last().drop_last() =~= Seq::<BulletEvent>::empty());
        assert(ev.drop_last().last() == ev[0]);
        assert(ev.last() == ev[1]);
        assert(charging(ev.drop_last().drop_last()) == 0);
        assert(ev[0].charges() == !charged);
        assert(!ev[1].charges());
        assert(charging(ev.drop_last()) == charging(ev.drop_last().drop_last()) + if ev.drop_last().last().charges() {
            1nat
        } else {
            0nat
        });
        assert(charging(ev) == if charged {
            0nat
        } else {
            1nat
        });
        assert(rm.skill_q@.with_new_stacks(0) == rm.skill_q@);
        assert(rm.skill_q@.with_new_stacks(1) == rm.skill_q@.with_new_stack()) by {
            assert(rm.skill_q@.with_new_stacks(0) == rm.skill_q@);
        }
    } else if strike {
        assert(mid.events[0].hit_to(b2.events[0]) || b2.events[0] == mid.events[0]);
        assert(b2.events =~= mid.events);
    }
}

/// A normal Q projectile that keeps running: over any run of frames it adds
/// a charge stack to the caster at most once, exactly when it first lands a
/// hit (in a frame that ends at or after its lifetime, overlapping an
/// enemy), and it is used up exactly once the frames add up to its lifetime.
pub proof fn lemma_q_normal_run(
    bullets: Seq<BulletModel>,
    roles: Seq<Role>,
    deltas: Seq<nat>,
    contacts: Seq<Seq<Contact>>,
    hits: Seq<Seq<u128>>,
)
    requires
        run(bullets, roles, deltas, contacts, hits),
        is_q_bullet(bullets[0], false),
    ensures
        forall|k: int|
            0 <= k <= deltas.len() ==> (#[trigger] bullets[k]).destroyed == (total(deltas.take(k))
                >= Q_LIFETIME),
        forall|k: int|
            0 <= k <= deltas.len() ==> (#[trigger] roles[k]).skill_q@ == if q_charged(deltas, contacts, k) {
                roles[0].skill_q@.with_new_stack()
            } else {
                roles[0].skill_q@
            },
{
    assert forall|k: int| 0 <= k <= deltas.len() implies q_normal_after(
        #[trigger] bullets[k],
        roles[k],
        total(deltas.take(k)),
        q_charged(deltas, contacts, k),
        roles[0].skill_q@,
    ) by {
        lemma_q_normal_prefix(bullets, roles, deltas, contacts, hits, k);
    }
    assert forall|k: int| 0 <= k <= deltas.len() implies q_normal_after(
        bullets[k],
        #[trigger] roles[k],
        total(deltas.take(k)),
        q_charged(deltas, contacts, k),
        roles[0].skill_q@,
    ) by {
        lemma_q_normal_prefix(bullets, roles, deltas, contacts, hits, k);
    }
}

proof fn lemma_q_normal_prefix(
    bullets: Seq<BulletModel>,
    roles: Seq<Role>,
    deltas: Seq<nat>,
    contacts: Seq<Seq<Contact>>,
    hits: Seq<Seq<u128>>,
    k: int,
)
    requires
        run(bullets, roles, deltas, contacts, hits),
        is_q_bullet(bullets[0], false),
        0 <= k <= deltas.len(),
    ensures
        q_normal_after(
            bullets[k],
            roles[k],
            total(deltas.take(k)),
            q_charged(deltas, contacts, k),
            roles[0].skill_q@,
        ),
    decreases k,
{
    if k == 0 {
        assert(deltas.take(0) =~= Seq::<nat>::empty());
    } else {
        lemma_q_normal_prefix(bullets, roles, deltas, contacts, hits, k - 1);
        lemma_total_step(deltas, k - 1);
        assert(framed(
            bullets[k - 1],
            bullets[k],
            roles[k - 1],
            roles[k],
            deltas[k - 1],
            contacts[k - 1],
            hits[k - 1],
        ));
        lemma_q_normal_frame(
            bullets[k - 1],
            bullets[k],
            roles[k - 1],
            roles[k],
            total(deltas.take(k - 1)),
            deltas[k - 1],
            contacts[k - 1],
            hits[k - 1],
            q_charged(deltas, contacts, k - 1),
            roles[0].skill_q@,
        );
    }
}

/// After a cast, the Q skill is ready again exactly once its whole cooldown has elapsed.
pub proof fn lemma_q_cooldown_recovers(m: SkillQModel, d: nat)
    ensures
        !m.with_cooldown().ready(),
        m.with_cooldown().elapse(d).ready() <==> d >= Q_COOLDOWN,
{
}

/// Letting time pass in two steps is the same as letting it pass at once.
pub proof fn lemma_q_elapse_additive(m: SkillQModel, a: nat, b: nat)
    ensures
        m.elapse(a).elapse(b) == m.elapse(a + b),
{
}

/// A charge stack gained on a hit stays for exactly its lifetime, then all stacks are lost.
pub proof fn lemma_q_stack_lifetime(m: SkillQModel, d: nat)
    ensures
        m.with_new_stack().elapse(d).stack() == if d < Q_STACK_DURATION {
            m.stack() + 1
        } else {
            0
        },
{
}

/// Two normal hits, each landing while the previous stack is still alive, empower
/// the next cast; that cast uses the stacks up, so the one after is normal again.
pub proof fn lemma_q_two_hits_empower(m: SkillQModel, d: nat)
    requires
        m.stack() == 0,
        d < Q_STACK_DURATION,
    ensures
        m.with_new_stack().elapse(d).with_new_stack().empowered(),
        m.with_new_stack().elapse(d).with_new_stack().after_advance().stack() == 0,
        !m.with_new_stack().elapse(d).with_new_stack().after_advance().empowered(),
{
}

/// `n` hits in a row add `n` charge stacks.
pub proof fn lemma_q_stacks_add_up(m: SkillQModel, n: nat)
    ensures
        m.with_new_stacks(n).stack() == m.stack() + n,
        m.with_new_stacks(n).cd == m.cd,
    decreases n,
{
    if n > 0 {
        lemma_q_stacks_add_up(m, (n - 1) as nat);
    }
}

/// With no stacks at first, if the first two casts both hit, the third cast
/// (each cast waiting out the cooldown, each hit landing while the stacks
/// live) is empowered; the first two are not.
pub proof fn lemma_q_third_cast_empowered(m: SkillQModel, d1: nat, d2: nat)
    requires
        m.stack() == 0,
        m.ready(),
        Q_COOLDOWN <= d1 < Q_STACK_DURATION,
        Q_COOLDOWN <= d2 < Q_STACK_DURATION,
    ensures
        ({
            let first = m.with_cooldown().after_advance().with_new_stack().elapse(d1);
            let second = first.with_cooldown().after_advance().with_new_stack().elapse(d2);
            &&& !m.empowered()
            &&& first.ready() && !first.empowered()
            &&& second.ready() && second.empowered()
        }),
{
}

/// A cast changes only the cooldown: the stacks and the time they have left
/// stay as they were.
pub proof fn lemma_q_cast_changes_only_cooldown(m: SkillQModel)
    ensures
        m.with_cooldown().cd == Q_COOLDOWN,
        m.with_cooldown().stacks == m.stacks,
        m.with_cooldown().stacks_time == m.stacks_time,
{
}

/// A stack gained on a hit is gone once its lifetime has passed since that
/// hit, whatever casts come in between.
pub proof fn lemma_q_stack_expires_through_casts(m: SkillQModel, a: nat, b: nat)
    requires
        a + b >= Q_STACK_DURATION,
    ensures
        m.with_new_stack().elapse(a).with_cooldown().elapse(b).stack() == 0,
        m.with_new_stack().elapse(a).after_advance().with_cooldown().elapse(b).stack() == 0,
{
}

/// Casting (which starts the cooldown) never touches the charge stacks.
pub proof fn lemma_q_cooldown_keeps_stacks(m: SkillQModel)
    ensures
        m.with_cooldown().stack() == m.stack(),
        m.with_cooldown().empowered() == m.empowered(),
{
}

/// Lifetime of a normal Q projectile, in milliseconds.
pub const Q_LIFETIME: usize = 40;

/// Lifetime of an empowered Q projectile, in milliseconds.
pub const Q_ADVANCED_LIFETIME: usize = 1000;

/// An empowered Q projectile hits again each time this many milliseconds pass.
pub const Q_PULSE: usize = 200;

/// Abstract state of a Q projectile's hit handler.
pub struct QAttackModel {
    pub advanced: bool,
    pub attacked: bool,
}

/// Hit handler of a Q projectile: the first hit of a normal projectile adds a
/// charge stack to the caster's Q skill.
#[derive(Debug, Clone, Copy)]
pub struct SkillQAttack {
    advanced: bool,
    attacked: bool,
}

impl View for SkillQAttack {
    type V = QAttackModel;

    closed spec fn view(&self) -> QAttackModel {
        QAttackModel { advanced: self.advanced, attacked: self.attacked }
    }
}

impl QAttackModel {
    /// Whether the next hit adds a charge stack.
    pub open spec fn charges(self) -> bool {
        !self.advanced && !self.attacked
    }

    pub open spec fn after_hit(self) -> QAttackModel {
        if self.charges() {
            QAttackModel { attacked: true, ..self }
        } else {
            self
        }
    }
}

impl SkillQAttack {
    pub fn new(advanced: bool) -> (s: Self)
        ensures
            s@ == (QAttackModel { advanced, attacked: false }),
    {
        Self { advanced, attacked: false }
    }

    /// Handles a hit on an enemy; the enemy itself is destroyed by the caller.
    pub fn hit(&mut self, status: &mut SkillQStatus)
        requires
            old(self)@.charges() ==> old(status)@.stack() < usize::MAX,
        ensures
            final(self)@ == old(self)@.after_hit(),
            final(status)@ == if old(self)@.charges() {
                old(status)@.with_new_stack()
            } else {
                old(status)@
            },
    {
        if !self.advanced {
            if !self.attacked {
                status.update_stack();
                self.attacked = true;
            }
        }
    }
}

/// Abstract state of a Q projectile's timer.
pub struct QNextModel {
    pub lifetime: nat,
    pub advanced: bool,
}

impl QNextModel {
    pub open spec fn step(self, delta: nat) -> QNextModel {
        QNextModel { lifetime: sat_sub(self.lifetime, delta), ..self }
    }

    /// Whether the timer passed a pulse boundary during this tick.
    pub open spec fn pulsed(self, delta: nat) -> bool {
        self.lifetime / (Q_PULSE as nat) != sat_sub(self.lifetime, delta) / (Q_PULSE as nat)
    }

    pub open spec fn outcome(self, delta: nat) -> NextOutcome {
        let after = sat_sub(self.lifetime, delta);
        NextOutcome {
            arm: if self.advanced {
                self.pulsed(delta)
            } else {
                after == 0
            },
            grow: self.advanced && self.pulsed(delta),
            warn: false,
            strike: false,
            release: false,
            destroy: after == 0,
        }
    }
}

/// Timer of a Q projectile: a normal one hits once when it expires; an
/// empowered one grows and hits at every pulse until it expires.
#[derive(Debug, Clone, Copy)]
pub struct SkillQNext {
    lifttime: usize,
    advanced: bool,
}

impl View for SkillQNext {
    type V = QNextModel;

    closed spec fn view(&self) -> QNextModel {
        QNextModel { lifetime: self.lifttime as nat, advanced: self.advanced }
    }
}

impl SkillQNext {
    pub fn new(advanced: bool) -> (s: Self)
        ensures
            s@ == (QNextModel {
                lifetime: if advanced {
                    Q_ADVANCED_LIFETIME as nat
                } else {
                    Q_LIFETIME as nat
                },
                advanced,
            }),
    {
        let lifttime = if advanced {
            Q_ADVANCED_LIFETIME
        } else {
            Q_LIFETIME
        };
        Self { advanced, lifttime }
    }

    pub fn next(&mut self, delta: usize) -> (o: NextOutcome)
        ensures
            final(self)@ == old(self)@.step(delta as nat),
            o == old(self)@.outcome(delta as nat),
    {
        let before = self.lifttime;
        self.lifttime = before.saturating_sub(delta);
        let mut o = NextOutcome {
            arm: false,
            grow: false,
            warn: false,
            strike: false,
            release: false,
            destroy: false,
        };
        if self.advanced {
            let (before_tick, now_tick) = (before / Q_PULSE, self.lifttime / Q_PULSE);
            if before_tick - now_tick != 0 {
                o.grow = true;
                o.arm = true;
            }
        } else {
            if self.lifttime == 0 {
                o.arm = true;
            }
        }
        if self.lifttime == 0 {
            o.destroy = true;
        }
        o
    }
}

/// A normal Q projectile hits exactly once, in the tick in which it expires.
pub proof fn lemma_q_normal_hits_on_expiry(m: QNextModel, delta: nat)
    requires
        !m.advanced,
    ensures
        m.outcome(delta).arm == m.outcome(delta).destroy,
        !m.outcome(delta).grow,
{
}

/// An empowered Q projectile hits (and grows) exactly in the ticks in which its
/// remaining lifetime passes a multiple of the pulse length.
pub proof fn lemma_q_advanced_pulses(m: QNextModel, delta: nat)
    requires
        m.advanced,
    ensures
        m.outcome(delta).arm <==> passes_multiple(sat_sub(m.lifetime, delta), m.lifetime, Q_PULSE as nat),
        m.outcome(delta).grow == m.outcome(delta).arm,
{
    crate::utils::lemma_passes_multiple(sat_sub(m.lifetime, delta), m.lifetime, Q_PULSE as nat);
}

/// A Q projectile's timer runs down additively and is used up exactly when it reaches zero.
pub proof fn lemma_q_timer(m: QNextModel, a: nat, b: nat)
    ensures
        m.step(a).step(b) == m.step(a + b),
        m.outcome(a).destroy <==> a >= m.lifetime,
{
}

} // verus!
