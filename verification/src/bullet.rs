use vstd::prelude::*;
use vstd::string::StringExecFns;

use crate::role::Role;
use crate::skill_e::{SkillEAttack, SkillENext};
use crate::skill_q::{SkillQAttack, SkillQModel, SkillQNext};
use crate::skill_r::{SkillRAttack, SkillRModel, SkillRNext};

verus! {

/// What one tick of a projectile's timer asks for.
#[derive(Debug, Clone, Copy, PartialEq, Eq, Structural)]
pub struct NextOutcome {
    /// The projectile should hit what it overlaps this frame.
    pub arm: bool,
    /// The projectile's area should grow by twice the elapsed time.
    pub grow: bool,
    /// The projectile should show its warning colour.
    pub warn: bool,
    /// The projectile should show its striking colour.
    pub strike: bool,
    /// The caster's channelling ends.
    pub release: bool,
    /// The projectile is used up.
    pub destroy: bool,
}

/// A change to a projectile's look that the host applies.
#[derive(Debug, Clone, Copy, PartialEq, Eq, Structural)]
pub enum ViewEffect {
    /// Grow the area by twice the elapsed milliseconds.
    Grow,
    /// Show the warning colour.
    Warn,
    /// Show the striking colour.
    Strike,
}

impl NextOutcome {
    /// An outcome that asks for nothing.
    pub open spec fn quiet() -> NextOutcome {
        NextOutcome { arm: false, grow: false, warn: false, strike: false, release: false, destroy: false }
    }

    pub fn idle() -> (o: NextOutcome)
        ensures
            o == NextOutcome::quiet(),
    {
        NextOutcome { arm: false, grow: false, warn: false, strike: false, release: false, destroy: false }
    }

    /// The look changes asked for, in the order in which they are applied.
    pub open spec fn effects(self) -> Seq<ViewEffect> {
        (if self.grow {
            seq![ViewEffect::Grow]
        } else {
            seq![]
        }) + (if self.warn {
            seq![ViewEffect::Warn]
        } else {
            seq![]
        }) + (if self.strike {
            seq![ViewEffect::Strike]
        } else {
            seq![]
        })
    }
}

/// The look changes of a sequence of outcomes, in order.
pub open spec fn effects_of(outs: Seq<NextOutcome>) -> Seq<ViewEffect>
    decreases outs.len(),
{
    if outs.len() == 0 {
        seq![]
    } else {
        effects_of(outs.drop_last()) + outs.last().effects()
    }
}

/// What a projectile's timers asked for in one frame.
#[derive(Debug, Clone)]
pub struct Tick {
    /// Look changes, in the order to apply them.
    pub effects: Vec<ViewEffect>,
    /// Whether the projectile hits what it overlaps now.
    pub strike: bool,
    /// Whether the projectile is used up.
    pub destroyed: bool,
}

/// `after` and `role_after` are `before` and `role_before` once the timers of
/// `before` ran for `delta` milliseconds and the projectile was disarmed; the
/// projectile asked for the look changes `effects`, and `strike` tells whether
/// it was armed (it then strikes once, at the next [`Bullet::attack`]),
/// `destroyed` whether it is used up.
pub open spec fn triggered(
    before: BulletModel,
    after: BulletModel,
    role_before: Role,
    role_after: Role,
    delta: nat,
    effects: Seq<ViewEffect>,
    strike: bool,
    destroyed: bool,
) -> bool {
    let outs = outcomes(before.events, delta);
    &&& after.events.len() == before.events.len()
    &&& forall|i: int|
        0 <= i < before.events.len() ==> (#[trigger] before.events[i]).stepped_to(after.events[i], delta)
    &&& effects == effects_of(outs)
    &&& strike == (before.attackable || any_arm(outs))
    &&& destroyed == after.destroyed
    &&& after == (BulletModel {
        events: after.events,
        attackable: false,
        striking: strike,
        destroyed: before.destroyed || any_destroy(outs),
        ..before
    })
    &&& role_after.skill_q == role_before.skill_q
    &&& role_after.skill_e == role_before.skill_e
    &&& role_after.skill_r@ == if any_release(outs) {
        SkillRModel { using: false, ..role_before.skill_r@ }
    } else {
        role_before.skill_r@
    }
}

/// Hitting `contacts` cannot overflow the caster's charge stacks.
pub open spec fn may_attack(before: BulletModel, role: Role, contacts: Seq<Contact>) -> bool {
    before.striking && ids_in_group(contacts, before.target).len() > 0 ==> role.skill_q@.stack()
        + charging(before.events) <= usize::MAX
}

/// `after` and `role_after` are `before` and `role_before` once the projectile
/// struck: if a strike is pending, it hits those of `contacts` in its target
/// group, and `hits` are the ids of the contacts it destroys (all of them, in
/// order, if it has a hit handler); the strike is then used up. Without a
/// pending strike nothing happens and nothing is hit.
pub open spec fn attacked(
    before: BulletModel,
    after: BulletModel,
    role_before: Role,
    role_after: Role,
    contacts: Seq<Contact>,
    hits: Seq<u128>,
) -> bool {
    if !before.striking {
        &&& hits == Seq::<u128>::empty()
        &&& after == before
        &&& role_after == role_before
    } else {
        struck_by(before, after, role_before, role_after, contacts, hits)
    }
}

/// The effect of a pending strike of `before` on `contacts`.
pub open spec fn struck_by(
    before: BulletModel,
    after: BulletModel,
    role_before: Role,
    role_after: Role,
    contacts: Seq<Contact>,
    hits: Seq<u128>,
) -> bool {
    let struck = ids_in_group(contacts, before.target).len() > 0;
    &&& hits == if has_attack(before.events) {
        ids_in_group(contacts, before.target)
    } else {
        seq![]
    }
    &&& after.events.len() == before.events.len()
    &&& forall|i: int|
        0 <= i < before.events.len() ==> if struck {
            (#[trigger] before.events[i]).hit_to(after.events[i])
        } else {
            after.events[i] == before.events[i]
        }
    &&& after == (BulletModel { events: after.events, striking: false, ..before })
    &&& role_after.skill_q@ == if struck {
        role_before.skill_q@.with_new_stacks(charging(before.events))
    } else {
        role_before.skill_q@
    }
    &&& role_after.skill_e == role_before.skill_e
    &&& role_after.skill_r == role_before.skill_r
}

/// One frame of a projectile: its timers run for `delta` milliseconds (see
/// [`Bullet::trigger`]), then a pending strike is used up on `contacts`,
/// destroying `hits` (see [`Bullet::attack`]).
pub open spec fn framed(
    before: BulletModel,
    after: BulletModel,
    role_before: Role,
    role_after: Role,
    delta: nat,
    contacts: Seq<Contact>,
    hits: Seq<u128>,
) -> bool {
    exists|mid: BulletModel, role_mid: Role, effects: Seq<ViewEffect>, strike: bool, destroyed: bool|
        #[trigger] triggered(before, mid, role_before, role_mid, delta, effects, strike, destroyed)
            && attacked(mid, after, role_mid, role_after, contacts, hits)
}

/// A run of frames of one projectile: `bullets[i]` and `roles[i]` are the
/// states before frame `i`, which lasts `deltas[i]` milliseconds, meets
/// `contacts[i]` and destroys `hits[i]`.
pub open spec fn run(
    bullets: Seq<BulletModel>,
    roles: Seq<Role>,
    deltas: Seq<nat>,
    contacts: Seq<Seq<Contact>>,
    hits: Seq<Seq<u128>>,
) -> bool {
    &&& bullets.len() == deltas.len() + 1
    &&& roles.len() == deltas.len() + 1
    &&& contacts.len() == deltas.len()
    &&& hits.len() == deltas.len()
    &&& forall|i: int|
        0 <= i < deltas.len() ==> #[trigger] framed(
            bullets[i],
            bullets[i + 1],
            roles[i],
            roles[i + 1],
            deltas[i],
            contacts[i],
            hits[i],
        )
}

/// Shape and colour of a projectile, in whole pixels.
#[derive(Debug, Clone)]
pub struct ViewBox {
    pub width: u32,
    pub height: u32,
    pub color: String,
}

/// A handler attached to a projectile: the hit handlers react to enemies the
/// projectile hits, the timers to the passing of time.
#[derive(Debug, Clone, Copy)]
pub enum BulletEvent {
    QAttack(SkillQAttack),
    QNext(SkillQNext),
    EAttack(SkillEAttack),
    ENext(SkillENext),
    RAttack(SkillRAttack),
    RNext(SkillRNext),
}

impl BulletEvent {
    pub open spec fn is_attack(self) -> bool {
        self is QAttack || self is EAttack || self is RAttack
    }

    /// What this handler asks for when `delta` milliseconds pass.
    pub open spec fn next_outcome(self, delta: nat) -> NextOutcome {
        match self {
            BulletEvent::QNext(e) => e@.outcome(delta),
            BulletEvent::ENext(e) => e@.outcome(delta),
            BulletEvent::RNext(e) => e@.outcome(delta),
            _ => NextOutcome::quiet(),
        }
    }

    /// `next` is this handler after `delta` milliseconds.
    pub open spec fn stepped_to(self, next: BulletEvent, delta: nat) -> bool {
        match self {
            BulletEvent::QNext(a) => next matches BulletEvent::QNext(b) && b@ == a@.step(delta),
            BulletEvent::ENext(a) => next matches BulletEvent::ENext(b) && b@ == a@.step(delta),
            BulletEvent::RNext(a) => next matches BulletEvent::RNext(b) && b@ == a@.step(delta),
            _ => next == self,
        }
    }

    /// Whether handling a hit adds a charge stack to the Q skill.
    pub open spec fn charges(self) -> bool {
        match self {
            BulletEvent::QAttack(a) => a@.charges(),
            _ => false,
        }
    }

    /// `next` is this handler after it handled a hit.
    pub open spec fn hit_to(self, next: BulletEvent) -> bool {
        match self {
            BulletEvent::QAttack(a) => next matches BulletEvent::QAttack(b) && b@ == a@.after_hit(),
            _ => next == self,
        }
    }
}

/// The outcomes of the handlers of a projectile when `delta` milliseconds pass.
pub open spec fn outcomes(events: Seq<BulletEvent>, delta: nat) -> Seq<NextOutcome> {
    Seq::new(events.len(), |i: int| events[i].next_outcome(delta))
}

pub open spec fn any_arm(outs: Seq<NextOutcome>) -> bool {
    exists|i: int| 0 <= i < outs.len() && #[trigger] outs[i].arm
}

pub open spec fn any_destroy(outs: Seq<NextOutcome>) -> bool {
    exists|i: int| 0 <= i < outs.len() && #[trigger] outs[i].destroy
}

pub open spec fn any_release(outs: Seq<NextOutcome>) -> bool {
    exists|i: int| 0 <= i < outs.len() && #[trigger] outs[i].release
}

pub open spec fn has_attack(events: Seq<BulletEvent>) -> bool {
    exists|i: int| 0 <= i < events.len() && #[trigger] events[i].is_attack()
}

/// Number of handlers that add a charge stack on their next hit.
pub open spec fn charging(events: Seq<BulletEvent>) -> nat
    decreases events.len(),
{
    if events.len() == 0 {
        0
    } else {
        charging(events.drop_last()) + if events.last().charges() {
            1nat
        } else {
            0nat
        }
    }
}

/// An entity that overlaps a projectile, with the groups it belongs to.
#[derive(Debug, Clone)]
pub struct Contact {
    pub id: u128,
    pub groups: Vec<String>,
}

pub open spec fn in_group(c: Contact, group: Seq<char>) -> bool {
    exists|j: int| 0 <= j < c.groups@.len() && #[trigger] c.groups@[j]@ == group
}

/// Ids of the contacts in `group`, in order.
pub open spec fn ids_in_group(cs: Seq<Contact>, group: Seq<char>) -> Seq<u128>
    decreases cs.len(),
{
    if cs.len() == 0 {
        seq![]
    } else {
        ids_in_group(cs.drop_last(), group) + if in_group(cs.last(), group) {
            seq![cs.last().id]
        } else {
            seq![]
        }
    }
}

/// The contacts in `group` among the first `i` are among the contacts in `group`.
pub proof fn lemma_ids_in_group_prefix(cs: Seq<Contact>, group: Seq<char>, i: int)
    requires
        0 <= i <= cs.len(),
    ensures
        ids_in_group(cs.take(i), group).len() <= ids_in_group(cs, group).len(),
    decreases cs.len() - i,
{
    if i < cs.len() {
        lemma_ids_in_group_prefix(cs, group, i + 1);
        assert(cs.take(i + 1).drop_last() == cs.take(i));
    } else {
        assert(cs.take(i) == cs);
    }
}

/// The handlers among the first `k` add at most as many stacks as all of them.
pub proof fn lemma_charging_prefix(events: Seq<BulletEvent>, k: int)
    requires
        0 <= k <= events.len(),
    ensures
        charging(events.take(k)) <= charging(events),
    decreases events.len() - k,
{
    if k < events.len() {
        lemma_charging_prefix(events, k + 1);
        assert(events.take(k + 1).drop_last() == events.take(k));
    } else {
        assert(events.take(k) == events);
    }
}

/// Handlers that all handled a hit add no more charge stacks.
pub proof fn lemma_no_charging(events: Seq<BulletEvent>)
    requires
        forall|j: int| 0 <= j < events.len() ==> !(#[trigger] events[j]).charges(),
    ensures
        charging(events) == 0,
    decreases events.len(),
{
    if events.len() > 0 {
        lemma_no_charging(events.drop_last());
    }
}

impl Contact {
    pub fn has_group(&self, group: &String) -> (r: bool)
        ensures
            r == in_group(*self, group@),
    {
        let n = self.groups.len();
        let mut j: usize = 0;
        while j < n
            invariant
                n == self.groups@.len(),
                j <= n,
                forall|k: int| 0 <= k < j ==> self.groups@[k]@ != group@,
            decreases n - j,
        {
            if self.groups[j] == *group {
                return true;
            }
            j += 1;
        }
        false
    }
}

impl ViewEffect {
    /// The look that a colour change puts on the projectile; `None` for
    /// growth, which the host applies to the current look.
    pub fn viewbox(self) -> (r: Option<ViewBox>)
        ensures
            match self {
                ViewEffect::Grow => r is None,
                ViewEffect::Warn => r matches Some(v) && v.width == 750 && v.height == 450 && v.color@
                    == "#ff505011"@,
                ViewEffect::Strike => r matches Some(v) && v.width == 750 && v.height == 450 && v.color@
                    == "#ff505033"@,
            },
    {
        match self {
            ViewEffect::Grow => None,
            ViewEffect::Warn => Some(ViewBox { width: 750, height: 450, color: String::from_str("#ff505011") }),
            ViewEffect::Strike => Some(ViewBox { width: 750, height: 450, color: String::from_str("#ff505033") }),
        }
    }
}

/// Abstract state of a projectile.
pub struct BulletModel {
    pub name: Seq<char>,
    /// The group of entities the projectile hits.
    pub target: Seq<char>,
    pub width: u32,
    pub height: u32,
    pub color: Seq<char>,
    pub speed: u32,
    /// Whether the projectile travels towards where it was aimed.
    pub moving: bool,
    /// Whether the projectile's timers are to arm it (set by them or by
    /// [`set_attackable`]; read and cleared by [`Bullet::trigger`]).
    pub attackable: bool,
    /// Whether a strike is pending: set by [`Bullet::trigger`] when the
    /// projectile was armed, used up by [`Bullet::attack`].
    pub striking: bool,
    pub destroyed: bool,
    pub events: Seq<BulletEvent>,
}

/// A skill projectile: what it hits, its look, and the handlers that drive it.
#[derive(Debug, Clone)]
pub struct Bullet {
    name: String,
    target: String,
    viewbox: ViewBox,
    speed: u32,
    moving: bool,
    attackable: bool,
    striking: bool,
    destroyed: bool,
    events: Vec<BulletEvent>,
}

impl View for Bullet {
    type V = BulletModel;

    closed spec fn view(&self) -> BulletModel {
        BulletModel {
            name: self.name@,
            target: self.target@,
            width: self.viewbox.width,
            height: self.viewbox.height,
            color: self.viewbox.color@,
            speed: self.speed,
            moving: self.moving,
            attackable: self.attackable,
            striking: self.striking,
            destroyed: self.destroyed,
            events: self.events@,
        }
    }
}

/// Arms or disarms a projectile.
pub fn set_attackable(bullet: &mut Bullet, active: bool)
    ensures
        final(bullet)@ == (BulletModel { attackable: active, ..old(bullet)@ }),
{
    bullet.attackable = active;
}

/// Whether a projectile is armed.
pub fn attackable(bullet: &Bullet) -> (r: bool)
    ensures
        r == bullet@.attackable,
{
    bullet.attackable
}

impl Bullet {
    pub fn new(name: &str, target: &str, viewbox: ViewBox, speed: u32) -> (b: Self)
        ensures
            b@ == (BulletModel {
                name: name@,
                target: target@,
                width: viewbox.width,
                height: viewbox.height,
                color: viewbox.color@,
                speed,
                moving: false,
                attackable: false,
                striking: false,
                destroyed: false,
                events: seq![],
            }),
    {
        Bullet {
            name: String::from_str(name),
            target: String::from_str(target),
            viewbox,
            speed,
            moving: false,
            attackable: false,
            striking: false,
            destroyed: false,
            events: Vec::new(),
        }
    }

    /// Attaches a handler.
    pub fn add(&mut self, event: BulletEvent)
        ensures
            final(self)@ == (BulletModel { events: old(self)@.events.push(event), ..old(self)@ }),
    {
        self.events.push(event);
    }

    /// Makes the projectile travel towards where it was aimed.
    pub fn launch(&mut self)
        ensures
            final(self)@ == (BulletModel { moving: true, ..old(self)@ }),
    {
        self.moving = true;
    }

    pub fn name(&self) -> (r: &String)
        ensures
            r@ == self@.name,
    {
        &self.name
    }

    pub fn target(&self) -> (r: &String)
        ensures
            r@ == self@.target,
    {
        &self.target
    }

    pub fn viewbox(&self) -> (r: &ViewBox)
        ensures
            r.width == self@.width,
            r.height == self@.height,
            r.color@ == self@.color,
    {
        &self.viewbox
    }

    pub fn speed(&self) -> (r: u32)
        ensures
            r == self@.speed,
    {
        self.speed
    }

    pub fn is_moving(&self) -> (r: bool)
        ensures
            r == self@.moving,
    {
        self.moving
    }

    pub fn is_destroy(&self) -> (r: bool)
        ensures
            r == self@.destroyed,
    {
        self.destroyed
    }

    /// Lets `delta` milliseconds pass on the projectile's timers, then disarms
    /// it. Returns the look changes the timers asked for and whether the
    /// projectile was armed, that is, whether it hits what it overlaps now
    /// (see [`Bullet::attack`]). A timer that ends the R channelling ends it
    /// on `role`.
    pub fn trigger(&mut self, delta: usize, role: &mut Role) -> (tick: Tick)
        ensures
            triggered(
                old(self)@,
                final(self)@,
                *old(role),
                *final(role),
                delta as nat,
                tick.effects@,
                tick.strike,
                tick.destroyed,
            ),
    {
        let ghost start = self@;
        let ghost r_start = role.skill_r@;
        let ghost outs = outcomes(start.events, delta as nat);
        let mut effects: Vec<ViewEffect> = Vec::new();
        let n = self.events.len();
        let mut i: usize = 0;
        while i < n
            invariant
                n == start.events.len(),
                i <= n,
                outs == outcomes(start.events, delta as nat),
                self.events@.len() == n,
                forall|j: int| 0 <= j < i ==> (#[trigger] start.events[j]).stepped_to(self.events@[j], delta as nat),
                forall|j: int| i <= j < n ==> self.events@[j] == #[trigger] start.events[j],
                effects@ == effects_of(outs.take(i as int)),
                self.attackable == (start.attackable || any_arm(outs.take(i as int))),
                self.destroyed == (start.destroyed || any_destroy(outs.take(i as int))),
                role.skill_r@ == if any_release(outs.take(i as int)) {
                    SkillRModel { using: false, ..r_start }
                } else {
                    r_start
                },
                role.skill_q == old(role).skill_q,
                role.skill_e == old(role).skill_e,
                r_start == old(role).skill_r@,
                self@ == (BulletModel {
                    events: self@.events,
                    attackable: self@.attackable,
                    destroyed: self@.destroyed,
                    ..start
                }),
            decreases n - i,
        {
            let ev = self.events[i];
            let o = match ev {
                BulletEvent::QNext(e) => {
                    let mut e = e;
                    let o = e.next(delta);
                    self.events.set(i, BulletEvent::QNext(e));
                    o
                },
                BulletEvent::ENext(e) => {
                    let mut e = e;
                    let o = e.next(delta);
                    self.events.set(i, BulletEvent::ENext(e));
                    o
                },
                BulletEvent::RNext(e) => {
                    let mut e = e;
                    let o = e.next(delta, &mut role.skill_r);
                    self.events.set(i, BulletEvent::RNext(e));
                    o
                },
                _ => NextOutcome::idle(),
            };
            assert(o == outs[i as int]);
            if o.grow {
                effects.push(ViewEffect::Grow);
            }
            if o.warn {
                effects.push(ViewEffect::Warn);
            }
            if o.strike {
                effects.push(ViewEffect::Strike);
            }
            if o.arm {
                self.attackable = true;
            }
            if o.destroy {
                self.destroyed = true;
            }
            proof {
                let t = outs.take(i as int);
                let t1 = outs.take(i + 1);
                assert(t1.drop_last() == t);
                assert(t1.last() == o);
                assert(any_arm(t1) == (any_arm(t) || o.arm)) by {
                    if o.arm {
                        assert(t1[i as int].arm);
                    }
                    if any_arm(t1) && !o.arm {
                        let k = choose|k: int| 0 <= k < t1.len() && #[trigger] t1[k].arm;
                        assert(t[k].arm);
                    }
                };
                assert(any_destroy(t1) == (any_destroy(t) || o.destroy)) by {
                    if o.destroy {
                        assert(t1[i as int].destroy);
                    }
                    if any_destroy(t1) && !o.destroy {
                        let k = choose|k: int| 0 <= k < t1.len() && #[trigger] t1[k].destroy;
                        assert(t[k].destroy);
                    }
                };
                assert(any_release(t1) == (any_release(t) || o.release)) by {
                    if o.release {
                        assert(t1[i as int].release);
                    }
                    if any_release(t1) && !o.release {
                        let k = choose|k: int| 0 <= k < t1.len() && #[trigger] t1[k].release;
                        assert(t[k].release);
                    }
                };
            }
            i += 1;
        }
        proof {
            assert(outs.take(n as int) == outs);
        }
        let strike = self.attackable;
        self.attackable = false;
        self.striking = strike;
        Tick { effects, strike, destroyed: self.destroyed }
    }

    /// Uses up a pending strike (see [`Bullet::trigger`]): hits the contacts
    /// that belong to the projectile's target group, every hit handler
    /// handling each of them, in order. Returns the ids of the hit contacts,
    /// which the caller destroys; none if no strike is pending or the
    /// projectile has no hit handler.
    pub fn attack(&mut self, contacts: &Vec<Contact>, role: &mut Role) -> (hits: Vec<u128>)
        requires
            may_attack(old(self)@, *old(role), contacts@),
        ensures
            attacked(old(self)@, final(self)@, *old(role), *final(role), contacts@, hits@),
    {
        if !self.striking {
            return Vec::new();
        }
        self.striking = false;
        let ghost start = self@;
        let ghost q_start = role.skill_q@;
        let ghost target = start.target;
        let n = self.events.len();
        let mut any_attack = false;
        let mut k: usize = 0;
        while k < n
            invariant
                n == self.events@.len(),
                self@ == start,
                k <= n,
                any_attack == exists|j: int| 0 <= j < k && #[trigger] start.events[j].is_attack(),
            decreases n - k,
        {
            let is_attack = match self.events[k] {
                BulletEvent::QAttack(_) => true,
                BulletEvent::EAttack(_) => true,
                BulletEvent::RAttack(_) => true,
                _ => false,
            };
            assert(is_attack == start.events[k as int].is_attack());
            if is_attack {
                any_attack = true;
            }
            k += 1;
        }
        assert(any_attack == has_attack(start.events));
        let mut hits: Vec<u128> = Vec::new();
        let m = contacts.len();
        let mut ci: usize = 0;
        while ci < m
            invariant
                m == contacts@.len(),
                ci <= m,
                n == self.events@.len(),
                n == start.events.len(),
                any_attack == has_attack(start.events),
                target == start.target,
                self@ == (BulletModel { events: self@.events, ..start }),
                ids_in_group(contacts@, target).len() > 0 ==> q_start.stack() + charging(start.events)
                    <= usize::MAX,
                hits@ == if any_attack {
                    ids_in_group(contacts@.take(ci as int), target)
                } else {
                    seq![]
                },
                forall|j: int|
                    0 <= j < n ==> if ids_in_group(contacts@.take(ci as int), target).len() > 0 {
                        (#[trigger] start.events[j]).hit_to(self.events@[j])
                    } else {
                        self.events@[j] == start.events[j]
                    },
                ids_in_group(contacts@.take(ci as int), target).len() > 0 ==> forall|j: int|
                    0 <= j < n ==> !(#[trigger] self.events@[j]).charges(),
                role.skill_q@ == if ids_in_group(contacts@.take(ci as int), target).len() > 0 {
                    q_start.with_new_stacks(charging(start.events))
                } else {
                    q_start
                },
                role.skill_e == old(role).skill_e,
                role.skill_r == old(role).skill_r,
                q_start == old(role).skill_q@,
            decreases m - ci,
        {
            let ghost seen = ids_in_group(contacts@.take(ci as int), target).len() > 0;
            let ghost mid = self.events@;
            let ghost q_mid = role.skill_q@;
            proof {
                let t1 = contacts@.take(ci + 1);
                assert(t1.drop_last() == contacts@.take(ci as int));
                assert(t1.last() == contacts@[ci as int]);
            }
            if contacts[ci].has_group(&self.target) {
                proof {
                    let t1 = contacts@.take(ci + 1);
                    assert(ids_in_group(t1, target).len() > 0);
                    lemma_ids_in_group_prefix(contacts@, target, ci + 1);
                    if seen {
                        lemma_no_charging(mid);
                        crate::skill_q::lemma_q_stacks_add_up(q_start, charging(start.events));
                    } else {
                        assert forall|j: int| 0 <= j < n implies mid[j] == start.events[j] by {
                            assert(self.events@[j] == start.events[j]);
                        }
                        assert(mid =~= start.events);
                    }
                }
                let mut k: usize = 0;
                while k < n
                    invariant
                        n == self.events@.len(),
                        n == mid.len(),
                        k <= n,
                        self@ == (BulletModel { events: self@.events, ..start }),
                        q_mid.stack() + charging(mid) <= usize::MAX,
                        forall|j: int| 0 <= j < k ==> (#[trigger] mid[j]).hit_to(self.events@[j]),
                        forall|j: int| 0 <= j < k ==> !(#[trigger] self.events@[j]).charges(),
                        forall|j: int| k <= j < n ==> self.events@[j] == #[trigger] mid[j],
                        role.skill_q@ == q_mid.with_new_stacks(charging(mid.take(k as int))),
                        role.skill_e == old(role).skill_e,
                        role.skill_r == old(role).skill_r,
                    decreases n - k,
                {
                    let ghost tk = mid.take(k as int);
                    proof {
                        let tk1 = mid.take(k + 1);
                        assert(tk1.drop_last() == tk);
                        assert(tk1.last() == mid[k as int]);
                        lemma_charging_prefix(mid, k + 1);
                        crate::skill_q::lemma_q_stacks_add_up(q_mid, charging(tk));
                    }
                    match self.events[k] {
                        BulletEvent::QAttack(a) => {
                            let mut a = a;
                            a.hit(&mut role.skill_q);
                            self.events.set(k, BulletEvent::QAttack(a));
                        },
                        _ => {},
                    }
                    k += 1;
                }
                proof {
                    assert(mid.take(n as int) == mid);
                    if seen {
                        assert(charging(mid) == 0);
                        assert(q_mid.with_new_stacks(0) == q_mid);
                    }
                }
                if any_attack {
                    hits.push(contacts[ci].id);
                }
            }
            ci += 1;
        }
        proof {
            assert(contacts@.take(m as int) == contacts@);
        }
        hits
    }
}

} // verus!
