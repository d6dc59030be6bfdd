//! Game rules of a small top-down action game: skill cooldowns and charge
//! stacks, the life cycle of skill projectiles, and the frame bookkeeping of
//! the game loop (pause, enemy waves, projectile sweep).
//!
//! Rendering, input capture and all geometry stay with the host that embeds
//! this library; the library decides what happens and reports it back as
//! plain values.

pub mod bullet;
pub mod role;
pub mod skill_e;
pub mod skill_q;
pub mod skill_r;
pub mod utils;

use vstd::prelude::*;
use vstd::string::StringExecFns;

use crate::bullet::{attacked, may_attack, triggered, Bullet, Contact, Tick};
use crate::role::{cast_post, Role};
use crate::utils::{passes_multiple, Skill};

verus! {

/// Milliseconds between two enemy waves.
pub const WAVE_PERIOD: usize = 1000;

/// A key event of the frame: the key's code (such as `"KeyQ"`) and whether it
/// is an auto-repeat of a held key.
#[derive(Debug, Clone)]
pub struct KeyInput {
    pub code: String,
    pub repeat: bool,
}

/// A fresh press of Escape toggles the pause.
pub open spec fn toggles_pause(keys: Seq<KeyInput>) -> bool {
    exists|i: int| 0 <= i < keys.len() && (#[trigger] keys[i]).code@ == "Escape"@ && !keys[i].repeat
}

/// The skill a key casts, if any.
pub open spec fn skill_of(key: KeyInput) -> Option<Skill> {
    if key.code@ == "KeyQ"@ {
        Some(Skill::Q)
    } else if key.code@ == "KeyE"@ {
        Some(Skill::E)
    } else if key.code@ == "KeyR"@ {
        Some(Skill::R)
    } else {
        None
    }
}

/// The skills the keys cast, in order.
pub open spec fn skills_of(keys: Seq<KeyInput>) -> Seq<Skill>
    decreases keys.len(),
{
    if keys.len() == 0 {
        seq![]
    } else {
        skills_of(keys.drop_last()) + match skill_of(keys.last()) {
            Some(s) => seq![s],
            None => seq![],
        }
    }
}

/// The skills cast by the keys of a frame, in order. Held keys cast too.
pub fn pressed_skills(keys: &Vec<KeyInput>) -> (r: Vec<Skill>)
    ensures
        r@ == skills_of(keys@),
{
    let key_q = String::from_str("KeyQ");
    let key_e = String::from_str("KeyE");
    let key_r = String::from_str("KeyR");
    let mut r: Vec<Skill> = Vec::new();
    let n = keys.len();
    let mut i: usize = 0;
    while i < n
        invariant
            n == keys@.len(),
            i <= n,
            key_q@ == "KeyQ"@,
            key_e@ == "KeyE"@,
            key_r@ == "KeyR"@,
            r@ == skills_of(keys@.take(i as int)),
        decreases n - i,
    {
        proof {
            assert(keys@.take(i + 1).drop_last() == keys@.take(i as int));
            assert(keys@.take(i + 1).last() == keys@[i as int]);
        }
        let key = &keys[i];
        if key.code == key_q {
            r.push(Skill::Q);
        } else if key.code == key_e {
            r.push(Skill::E);
        } else if key.code == key_r {
            r.push(Skill::R);
        }
        i += 1;
    }
    proof {
        assert(keys@.take(n as int) == keys@);
    }
    r
}

/// Where the enemies of the opening stand around the character: a 3 by 3
/// grid, 300 pixels apart, without its centre.
pub open spec fn initial_offset(k: int) -> (int, int) {
    let i = if k < 4 {
        k
    } else {
        k + 1
    };
    ((i / 3 - 1) * 300, (i % 3 - 1) * 300)
}

pub fn initial_enemy_offsets() -> (r: Vec<(i32, i32)>)
    ensures
        r@.len() == 8,
        forall|k: int| 0 <= k < 8 ==> (#[trigger] r@[k]).0 == initial_offset(k).0 && r@[k].1 == initial_offset(k).1,
{
    let mut r: Vec<(i32, i32)> = Vec::new();
    let mut i: i32 = 0;
    while i < 9
        invariant
            0 <= i <= 9,
            r@.len() == if i <= 4 {
                i as int
            } else {
                i - 1
            },
            forall|k: int| 0 <= k < r@.len() ==> (#[trigger] r@[k]).0 == initial_offset(k).0 && r@[k].1 == initial_offset(k).1,
        decreases 9 - i,
    {
        if i != 4 {
            r.push(((i / 3 - 1) * 300, (i % 3 - 1) * 300));
        }
        i += 1;
    }
    r
}

/// Where the 25 enemies of a wave stand around the wave's centre: a 5 by 5
/// grid, 50 pixels apart.
pub open spec fn wave_offset(k: int) -> (int, int) {
    ((k / 5 - 2) * 50, (k % 5 - 2) * 50)
}

pub fn wave_offsets() -> (r: Vec<(i32, i32)>)
    ensures
        r@.len() == 25,
        forall|k: int| 0 <= k < 25 ==> (#[trigger] r@[k]).0 == wave_offset(k).0 && r@[k].1 == wave_offset(k).1,
{
    let mut r: Vec<(i32, i32)> = Vec::new();
    let mut i: i32 = 0;
    while i < 25
        invariant
            0 <= i <= 25,
            r@.len() == i,
            forall|k: int| 0 <= k < i ==> (#[trigger] r@[k]).0 == wave_offset(k).0 && r@[k].1 == wave_offset(k).1,
        decreases 25 - i,
    {
        r.push(((i / 5 - 2) * 50, (i % 5 - 2) * 50));
        i += 1;
    }
    r
}

/// Abstract state of the game: the character, the live projectiles by id,
/// the pause flag and the game time in milliseconds.
pub struct GameModel {
    pub role: Role,
    pub bullets: Seq<(u128, Bullet)>,
    pub paused: bool,
    pub time: nat,
}

pub open spec fn holds_id(bullets: Seq<(u128, Bullet)>, id: u128) -> bool {
    exists|i: int| 0 <= i < bullets.len() && (#[trigger] bullets[i]).0 == id
}

/// `i` is the first position of `id`.
pub open spec fn first_at(bullets: Seq<(u128, Bullet)>, id: u128, i: int) -> bool {
    &&& 0 <= i < bullets.len()
    &&& bullets[i].0 == id
    &&& forall|j: int| 0 <= j < i ==> (#[trigger] bullets[j]).0 != id
}

/// No two projectiles share an id.
pub open spec fn ids_unique(bullets: Seq<(u128, Bullet)>) -> bool {
    forall|i: int, j: int|
        0 <= i < bullets.len() && 0 <= j < bullets.len() && i != j ==> (#[trigger] bullets[i]).0 != (
        #[trigger] bullets[j]).0
}

/// The projectiles after adding `bullet` under `id`: it replaces the
/// projectile with that id, or else comes last.
pub open spec fn inserted(bullets: Seq<(u128, Bullet)>, id: u128, bullet: Bullet) -> Seq<(u128, Bullet)> {
    if holds_id(bullets, id) {
        bullets.update(choose|i: int| first_at(bullets, id, i), (id, bullet))
    } else {
        bullets.push((id, bullet))
    }
}

/// The projectiles after removing the one at `i`, the last taking its place.
pub open spec fn swept(bullets: Seq<(u128, Bullet)>, i: int) -> Seq<(u128, Bullet)> {
    bullets.update(i, bullets.last()).drop_last()
}

/// The first position of an id is unique.
pub proof fn lemma_first_at_unique(bullets: Seq<(u128, Bullet)>, id: u128, i: int)
    requires
        first_at(bullets, id, i),
    ensures
        forall|k: int| first_at(bullets, id, k) ==> k == i,
        (choose|k: int| first_at(bullets, id, k)) == i,
{
    assert forall|k: int| first_at(bullets, id, k) implies k == i by {
        if k < i {
            assert(bullets[k].0 != id);
        }
        if k > i {
            assert(bullets[i].0 != id);
        }
    }
}

/// The frame state of the game that the rules decide on. It is held by
/// value: a clone is independent of the value it was cloned from.
#[derive(Debug, Clone)]
pub struct GameCore {
    role: Role,
    bullets: Vec<(u128, Bullet)>,
    paused: bool,
    time: usize,
}

impl View for GameCore {
    type V = GameModel;

    closed spec fn view(&self) -> GameModel {
        GameModel { role: self.role, bullets: self.bullets@, paused: self.paused, time: self.time as nat }
    }
}

impl GameCore {
    pub fn new() -> (g: Self)
        ensures
            g@.role.skill_q@ == (crate::skill_q::SkillQModel { cd: 0, stacks: 0, stacks_time: 0 }),
            g@.role.skill_e@ == (crate::skill_e::SkillEModel { cd: 0 }),
            g@.role.skill_r@ == (crate::skill_r::SkillRModel { using: false, cd: 0 }),
            g@.bullets == Seq::<(u128, Bullet)>::empty(),
            !g@.paused,
            g@.time == 0,
    {
        GameCore { role: Role::new(), bullets: Vec::new(), paused: false, time: 0 }
    }

    pub fn role(&self) -> (r: &Role)
        ensures
            *r == self@.role,
    {
        &self.role
    }

    pub fn is_paused(&self) -> (r: bool)
        ensures
            r == self@.paused,
    {
        self.paused
    }

    pub fn time(&self) -> (r: usize)
        ensures
            r == self@.time,
    {
        self.time
    }

    /// Starts a frame: a fresh Escape press toggles the pause; if the game
    /// runs, `delta` milliseconds pass on the skills. Returns whether the game
    /// runs this frame.
    pub fn begin_frame(&mut self, keys: &Vec<KeyInput>, delta: usize) -> (running: bool)
        ensures
            final(self)@.paused == (old(self)@.paused != toggles_pause(keys@)),
            running == !final(self)@.paused,
            running ==> {
                &&& final(self)@.role.skill_q@ == old(self)@.role.skill_q@.elapse(delta as nat)
                &&& final(self)@.role.skill_e@ == old(self)@.role.skill_e@.elapse(delta as nat)
                &&& final(self)@.role.skill_r@ == old(self)@.role.skill_r@.elapse(delta as nat)
            },
            !running ==> final(self)@.role == old(self)@.role,
            final(self)@.bullets == old(self)@.bullets,
            final(self)@.time == old(self)@.time,
    {
        let escape = String::from_str("Escape");
        let mut toggle = false;
        let n = keys.len();
        let mut i: usize = 0;
        while i < n
            invariant
                n == keys@.len(),
                i <= n,
                escape@ == "Escape"@,
                toggle == exists|j: int| 0 <= j < i && (#[trigger] keys@[j]).code@ == "Escape"@ && !keys@[j].repeat,
            decreases n - i,
        {
            if keys[i].code == escape && !keys[i].repeat {
                toggle = true;
            }
            i += 1;
        }
        if toggle {
            self.paused = !self.paused;
        }
        if !self.paused {
            self.role.skill_cd(delta);
        }
        !self.paused
    }

    /// Casts `skill` for the character; see [`Role::cast`].
    pub fn cast(&mut self, skill: Skill, reach: Option<bool>) -> (r: Option<Bullet>)
        ensures
            cast_post(old(self)@.role, final(self)@.role, skill, reach, r),
            final(self)@ == (GameModel { role: final(self)@.role, ..old(self)@ }),
    {
        self.role.cast(skill, reach)
    }

    /// Whether a wave of enemies spawns this frame, `delta` milliseconds
    /// before the game time advances.
    pub fn wave_due(&self, delta: usize) -> (r: bool)
        ensures
            r == (self@.time % (WAVE_PERIOD as nat) + delta >= WAVE_PERIOD),
    {
        // `time % WAVE_PERIOD + delta` compared without forming the sum.
        delta >= WAVE_PERIOD - self.time % WAVE_PERIOD
    }

    /// The first position of the projectile `id`.
    fn find(&self, id: u128) -> (r: Option<usize>)
        ensures
            r is None <==> !holds_id(self@.bullets, id),
            r matches Some(i) ==> first_at(self@.bullets, id, i as int),
    {
        let n = self.bullets.len();
        let mut i: usize = 0;
        while i < n
            invariant
                n == self.bullets@.len(),
                i <= n,
                forall|j: int| 0 <= j < i ==> (#[trigger] self.bullets@[j]).0 != id,
            decreases n - i,
        {
            if self.bullets[i].0 == id {
                return Some(i);
            }
            i += 1;
        }
        None
    }

    /// Adds the projectile `id`, replacing the one that has that id already.
    pub fn insert_bullet(&mut self, id: u128, bullet: Bullet)
        ensures
            final(self)@ == (GameModel { bullets: inserted(old(self)@.bullets, id, bullet), ..old(self)@ }),
    {
        match self.find(id) {
            Some(i) => {
                proof {
                    lemma_first_at_unique(self@.bullets, id, i as int);
                }
                self.bullets.set(i, (id, bullet));
            },
            None => {
                self.bullets.push((id, bullet));
            },
        }
    }

    /// The ids of the live projectiles, in order.
    pub fn bullet_ids(&self) -> (r: Vec<u128>)
        ensures
            r@ == self@.bullets.map_values(|e: (u128, Bullet)| e.0),
    {
        let mut r: Vec<u128> = Vec::new();
        let n = self.bullets.len();
        let mut i: usize = 0;
        while i < n
            invariant
                n == self.bullets@.len(),
                i <= n,
                r@ == self.bullets@.take(i as int).map_values(|e: (u128, Bullet)| e.0),
            decreases n - i,
        {
            r.push(self.bullets[i].0);
            proof {
                assert(self.bullets@.take(i + 1).map_values(|e: (u128, Bullet)| e.0) =~= self.bullets@.take(
                    i as int,
                ).map_values(|e: (u128, Bullet)| e.0).push(self.bullets@[i as int].0));
            }
            i += 1;
        }
        proof {
            assert(self.bullets@.take(n as int) == self.bullets@);
        }
        r
    }

    /// Lets `delta` milliseconds pass on the timers of the projectile `id`;
    /// see [`Bullet::trigger`]. `None` if there is no such projectile.
    pub fn trigger_bullet(&mut self, id: u128, delta: usize) -> (r: Option<Tick>)
        ensures
            r is None <==> !holds_id(old(self)@.bullets, id),
            r is None ==> final(self)@ == old(self)@,
            r matches Some(tick) ==> exists|i: int|
                first_at(old(self)@.bullets, id, i) && {
                    let after = final(self)@.bullets[i].1;
                    &&& final(self)@ == (GameModel {
                        role: final(self)@.role,
                        bullets: old(self)@.bullets.update(i, (id, after)),
                        ..old(self)@
                    })
                    &&& triggered(
                        old(self)@.bullets[i].1@,
                        after@,
                        old(self)@.role,
                        final(self)@.role,
                        delta as nat,
                        tick.effects@,
                        tick.strike,
                        tick.destroyed,
                    )
                },
    {
        match self.find(id) {
            None => None,
            Some(i) => {
                let ghost before = self@.bullets;
                let (bid, mut bullet) = self.bullets.remove(i);
                let tick = bullet.trigger(delta, &mut self.role);
                self.bullets.insert(i, (bid, bullet));
                proof {
                    assert(self@.bullets =~= before.update(i as int, (id, bullet)));
                }
                Some(tick)
            },
        }
    }

    /// Makes the projectile `id` hit the `contacts` it overlaps; see
    /// [`Bullet::attack`]. `None` if there is no such projectile.
    pub fn attack_bullet(&mut self, id: u128, contacts: &Vec<Contact>) -> (r: Option<Vec<u128>>)
        requires
            forall|i: int|
                first_at(old(self)@.bullets, id, i) ==> may_attack(
                    old(self)@.bullets[i].1@,
                    old(self)@.role,
                    contacts@,
                ),
        ensures
            r is None <==> !holds_id(old(self)@.bullets, id),
            r is None ==> final(self)@ == old(self)@,
            r matches Some(hits) ==> exists|i: int|
                first_at(old(self)@.bullets, id, i) && {
                    let after = final(self)@.bullets[i].1;
                    &&& final(self)@ == (GameModel {
                        role: final(self)@.role,
                        bullets: old(self)@.bullets.update(i, (id, after)),
                        ..old(self)@
                    })
                    &&& attacked(
                        old(self)@.bullets[i].1@,
                        after@,
                        old(self)@.role,
                        final(self)@.role,
                        contacts@,
                        hits@,
                    )
                },
    {
        match self.find(id) {
            None => None,
            Some(i) => {
                let ghost before = self@.bullets;
                let (bid, mut bullet) = self.bullets.remove(i);
                let hits = bullet.attack(contacts, &mut self.role);
                self.bullets.insert(i, (bid, bullet));
                proof {
                    assert(self@.bullets =~= before.update(i as int, (id, bullet)));
                }
                Some(hits)
            },
        }
    }

    /// Removes the projectile `id` if it is used up; the last projectile takes
    /// its place. Returns whether it was removed.
    pub fn sweep_bullet(&mut self, id: u128) -> (removed: bool)
        ensures
            removed == exists|i: int| first_at(old(self)@.bullets, id, i) && old(self)@.bullets[i].1@.destroyed,
            removed ==> exists|i: int|
                first_at(old(self)@.bullets, id, i) && final(self)@ == (GameModel {
                    bullets: swept(old(self)@.bullets, i),
                    ..old(self)@
                }),
            !removed ==> final(self)@ == old(self)@,
    {
        match self.find(id) {
            None => false,
            Some(i) => {
                proof {
                    lemma_first_at_unique(self@.bullets, id, i as int);
                }
                if self.bullets[i].1.is_destroy() {
                    self.bullets.swap_remove(i);
                    true
                } else {
                    false
                }
            },
        }
    }

    /// Ends a frame: the game time advances by `delta`, unless the game is
    /// paused.
    pub fn end_frame(&mut self, delta: usize)
        requires
            !old(self)@.paused ==> old(self)@.time + delta <= usize::MAX,
        ensures
            final(self)@ == (GameModel {
                time: if old(self)@.paused {
                    old(self)@.time
                } else {
                    old(self)@.time + delta as nat
                },
                ..old(self)@
            }),
    {
        if !self.paused {
            self.time = self.time + delta;
        }
    }
}

/// Adding a projectile keeps ids unique, and the projectile is then found
/// under its id.
pub proof fn lemma_insert_keeps_ids_unique(bullets: Seq<(u128, Bullet)>, id: u128, bullet: Bullet)
    requires
        ids_unique(bullets),
    ensures
        ids_unique(inserted(bullets, id, bullet)),
        holds_id(inserted(bullets, id, bullet), id),
{
    let r = inserted(bullets, id, bullet);
    if holds_id(bullets, id) {
        let w = choose|i: int| 0 <= i < bullets.len() && (#[trigger] bullets[i]).0 == id;
        assert(first_at(bullets, id, w)) by {
            assert forall|j: int| 0 <= j < w implies (#[trigger] bullets[j]).0 != id by {
                if bullets[j].0 == id {
                    assert(bullets[j].0 == bullets[w].0);
                }
            }
        }
        lemma_first_at_unique(bullets, id, w);
        assert(r == bullets.update(w, (id, bullet)));
        assert(r[w].0 == id);
    } else {
        assert(r[bullets.len() as int].0 == id);
    }
}

/// Removing a projectile keeps ids unique, and it is then gone.
pub proof fn lemma_sweep_keeps_ids_unique(bullets: Seq<(u128, Bullet)>, id: u128, i: int)
    requires
        ids_unique(bullets),
        first_at(bullets, id, i),
    ensures
        ids_unique(swept(bullets, i)),
        !holds_id(swept(bullets, i), id),
{
    let r = swept(bullets, i);
    let last = bullets.len() - 1;
    assert forall|a: int, b: int| 0 <= a < r.len() && 0 <= b < r.len() && a != b implies (#[trigger] r[a]).0
        != (#[trigger] r[b]).0 by {
        let sa = if a == i {
            last
        } else {
            a
        };
        let sb = if b == i {
            last
        } else {
            b
        };
        assert(r[a] == bullets[sa]);
        assert(r[b] == bullets[sb]);
    }
    if holds_id(r, id) {
        let k = choose|k: int| 0 <= k < r.len() && (#[trigger] r[k]).0 == id;
        let sk = if k == i {
            last
        } else {
            k
        };
        assert(r[k] == bullets[sk]);
        assert(bullets[i].0 == id);
    }
}

/// A fresh Escape press toggles the pause wherever it stands among the frame's
/// keys, and only a fresh Escape press does.
pub proof fn lemma_escape_anywhere_toggles(keys: Seq<KeyInput>, i: int)
    ensures
        0 <= i < keys.len() && keys[i].code@ == "Escape"@ && !keys[i].repeat ==> toggles_pause(keys),
        toggles_pause(keys) ==> exists|j: int|
            0 <= j < keys.len() && (#[trigger] keys[j]).code@ == "Escape"@ && !keys[j].repeat,
{
}

/// Whether the keys of a frame toggle the pause does not depend on their
/// order: keys split into two parts toggle iff either part does.
pub proof fn lemma_pause_toggle_split(first: Seq<KeyInput>, second: Seq<KeyInput>)
    ensures
        toggles_pause(first + second) == (toggles_pause(first) || toggles_pause(second)),
        toggles_pause(first + second) == toggles_pause(second + first),
{
    let a = first + second;
    let b = second + first;
    if toggles_pause(first) {
        let j = choose|j: int| 0 <= j < first.len() && (#[trigger] first[j]).code@ == "Escape"@ && !first[j].repeat;
        assert(a[j] == first[j]);
        assert(b[second.len() + j] == first[j]);
    }
    if toggles_pause(second) {
        let j = choose|j: int| 0 <= j < second.len() && (#[trigger] second[j]).code@ == "Escape"@ && !second[j].repeat;
        assert(a[first.len() + j] == second[j]);
        assert(b[j] == second[j]);
    }
    if toggles_pause(a) {
        let j = choose|j: int| 0 <= j < a.len() && (#[trigger] a[j]).code@ == "Escape"@ && !a[j].repeat;
        if j < first.len() {
            assert(first[j] == a[j]);
        } else {
            assert(second[j - first.len()] == a[j]);
        }
    }
    if toggles_pause(b) {
        let j = choose|j: int| 0 <= j < b.len() && (#[trigger] b[j]).code@ == "Escape"@ && !b[j].repeat;
        if j < second.len() {
            assert(second[j] == b[j]);
        } else {
            assert(first[j - second.len()] == b[j]);
        }
    }
}

/// Two fresh Escape presses in a row return the game to where it was.
pub proof fn lemma_pause_toggles_back(paused: bool, first: Seq<KeyInput>, second: Seq<KeyInput>)
    requires
        toggles_pause(first),
        toggles_pause(second),
    ensures
        ((paused != toggles_pause(first)) != toggles_pause(second)) == paused,
{
}

/// Enemy waves come once per period of game time: a frame spawns one exactly
/// when the game time passes a multiple of the period during it.
pub proof fn lemma_wave_each_period(time: nat, delta: nat)
    ensures
        (time % (WAVE_PERIOD as nat) + delta >= WAVE_PERIOD) <==> passes_multiple(
            time,
            time + delta,
            WAVE_PERIOD as nat,
        ),
{
    let p = WAVE_PERIOD as nat;
    crate::utils::lemma_passes_multiple(time, time + delta, p);
    vstd::arithmetic::div_mod::lemma_fundamental_div_mod(time as int, p as int);
    vstd::arithmetic::div_mod::lemma_fundamental_div_mod((time + delta) as int, p as int);
    let q = time / p;
    let t = time % p;
    if t + delta >= p {
        assert((time + delta) / p > q) by (nonlinear_arith)
            requires
                time == p * q + t,
                t + delta >= p,
                p > 0,
                time + delta == p * ((time + delta) / p) + (time + delta) % p,
                (time + delta) % p < p,
        ;
    } else {
        assert((time + delta) / p == q) by (nonlinear_arith)
            requires
                time == p * q + t,
                t + delta < p,
                0 <= t,
                p > 0,
                time + delta == p * ((time + delta) / p) + (time + delta) % p,
                0 <= (time + delta) % p < p,
        ;
    }
}

} // verus!
