use butterfly_game::bullet::{attackable, set_attackable, Bullet, BulletEvent, Contact, ViewBox, ViewEffect};
use butterfly_game::role::Role;
use butterfly_game::skill_e::{pick_target, SkillEAttack, SkillENext};
use butterfly_game::skill_q::{SkillQAttack, SkillQNext, SkillQStatus};
use butterfly_game::utils::attack::Group;
use butterfly_game::utils::Skill;
use butterfly_game::{initial_enemy_offsets, pressed_skills, wave_offsets, GameCore, KeyInput};

fn key(code: &str, repeat: bool) -> KeyInput {
    KeyInput { code: code.to_string(), repeat }
}

fn contact(id: u128, groups: &[&str]) -> Contact {
    Contact { id, groups: groups.iter().map(|g| g.to_string()).collect() }
}

fn plain_bullet() -> Bullet {
    Bullet::new("b", "enemy", ViewBox { width: 1, height: 2, color: "#000".to_string() }, 3)
}

#[test]
fn bullet_new_and_add() {
    let mut b = plain_bullet();
    assert_eq!(b.name(), "b");
    assert_eq!(b.target(), "enemy");
    assert_eq!(b.viewbox().width, 1);
    assert_eq!(b.viewbox().height, 2);
    assert_eq!(b.speed(), 3);
    assert!(!attackable(&b));
    assert!(!b.is_destroy());
    b.add(BulletEvent::ENext(SkillENext::new()));
    let mut role = Role::new();
    let t = b.trigger(160, &mut role);
    assert!(t.strike);
    assert!(b.is_destroy());
}

#[test]
fn set_attackable_arms_and_disarms() {
    let mut b = plain_bullet();
    set_attackable(&mut b, true);
    assert!(attackable(&b));
    set_attackable(&mut b, false);
    assert!(!attackable(&b));
}

#[test]
fn armed_bullet_strikes_once() {
    let mut b = plain_bullet();
    let mut role = Role::new();
    set_attackable(&mut b, true);
    let t = b.trigger(10, &mut role);
    assert!(t.strike);
    assert!(t.effects.is_empty());
    assert!(!attackable(&b));
    let t = b.trigger(10, &mut role);
    assert!(!t.strike);
}

#[test]
fn q_projectile_hits_only_enemies_and_charges_once() {
    let mut role = Role::new();
    let mut b = role.skill_q().unwrap();
    let t = b.trigger(39, &mut role);
    assert!(!t.strike);
    let t = b.trigger(1, &mut role);
    assert!(t.strike);
    assert!(b.is_destroy());
    let contacts = vec![contact(1, &["enemy"]), contact(2, &["role"]), contact(3, &["x", "enemy"])];
    let hits = b.attack(&contacts, &mut role);
    assert_eq!(hits, vec![1, 3]);
    assert_eq!(role.skill_q.get_stack(), 1);
    // the strike is used up
    let hits = b.attack(&contacts, &mut role);
    assert!(hits.is_empty());
    assert_eq!(role.skill_q.get_stack(), 1);
    // a later frame strikes again (the timer stays expired) but charges no more
    let t = b.trigger(16, &mut role);
    assert!(t.strike);
    let hits = b.attack(&contacts, &mut role);
    assert_eq!(hits, vec![1, 3]);
    assert_eq!(role.skill_q.get_stack(), 1);
}

#[test]
fn unarmed_projectile_hits_nothing() {
    let mut role = Role::new();
    let mut b = role.skill_q().unwrap();
    let enemy = vec![contact(1, &["enemy"])];
    assert!(b.attack(&enemy, &mut role).is_empty());
    let t = b.trigger(10, &mut role);
    assert!(!t.strike);
    assert!(b.attack(&enemy, &mut role).is_empty());
    assert_eq!(role.skill_q.get_stack(), 0);
}

#[test]
fn missing_q_projectile_does_not_charge() {
    let mut role = Role::new();
    let mut b = role.skill_q().unwrap();
    assert!(b.trigger(40, &mut role).strike);
    let hits = b.attack(&vec![contact(7, &["role"])], &mut role);
    assert!(hits.is_empty());
    assert_eq!(role.skill_q.get_stack(), 0);
}

#[test]
fn every_third_q_is_empowered_when_the_first_two_hit() {
    let mut role = Role::new();
    let enemy = vec![contact(1, &["enemy"])];
    for _ in 0..2 {
        let mut b = role.skill_q().unwrap();
        assert!(!b.is_moving());
        assert!(b.trigger(40, &mut role).strike);
        b.attack(&enemy, &mut role);
        role.skill_cd(500);
    }
    assert_eq!(role.skill_q.get_stack(), 2);
    let mut b = role.skill_q().unwrap();
    assert!(b.is_moving());
    assert_eq!(b.viewbox().height, 120);
    assert!(b.trigger(100, &mut role).strike);
    b.attack(&enemy, &mut role);
    assert_eq!(role.skill_q.get_stack(), 0);
}

#[test]
fn empowered_q_grows_at_each_pulse() {
    let mut role = Role::new();
    role.skill_q.update_stack();
    role.skill_q.update_stack();
    let mut b = role.skill_q().unwrap();
    let t = b.trigger(100, &mut role);
    assert!(t.strike);
    assert_eq!(t.effects, vec![ViewEffect::Grow]);
    let t = b.trigger(100, &mut role);
    assert!(!t.strike);
    assert!(t.effects.is_empty());
    assert!(!b.is_destroy());
    let t = b.trigger(800, &mut role);
    assert!(t.strike);
    assert!(b.is_destroy());
}

#[test]
fn r_field_releases_channel_when_it_ends() {
    let mut role = Role::new();
    let mut b = role.skill_r().unwrap();
    assert!(!role.can_move());
    let t = b.trigger(300, &mut role);
    // 1000 -> 700: tick 300, 300 + 300 >= 400
    assert_eq!(t.effects, vec![ViewEffect::Warn, ViewEffect::Strike]);
    assert!(t.strike);
    assert!(!role.can_move());
    let t = b.trigger(700, &mut role);
    assert!(t.strike);
    assert!(b.is_destroy());
    assert!(role.can_move());
}

#[test]
fn bullet_without_hit_handler_destroys_nothing() {
    let mut b = plain_bullet();
    b.add(BulletEvent::QNext(SkillQNext::new(false)));
    let mut role = Role::new();
    assert!(b.trigger(40, &mut role).strike);
    let hits = b.attack(&vec![contact(1, &["enemy"])], &mut role);
    assert!(hits.is_empty());
}

#[test]
fn two_charging_handlers_add_two_stacks() {
    let mut b = plain_bullet();
    b.add(BulletEvent::QAttack(SkillQAttack::new(false)));
    b.add(BulletEvent::QAttack(SkillQAttack::new(false)));
    b.add(BulletEvent::EAttack(SkillEAttack::new()));
    let mut role = Role::new();
    set_attackable(&mut b, true);
    assert!(b.trigger(1, &mut role).strike);
    let hits = b.attack(&vec![contact(9, &["enemy"])], &mut role);
    assert_eq!(hits, vec![9]);
    assert_eq!(role.skill_q.get_stack(), 2);
}

#[test]
fn q_attack_hit_rules() {
    let mut status = SkillQStatus::new();
    let mut a = SkillQAttack::new(true);
    a.hit(&mut status);
    assert_eq!(status.get_stack(), 0);
    let mut a = SkillQAttack::new(false);
    a.hit(&mut status);
    a.hit(&mut status);
    assert_eq!(status.get_stack(), 1);
}

#[test]
fn pick_target_takes_first_enemy() {
    assert_eq!(pick_target(&vec![]), None);
    assert_eq!(pick_target(&vec![contact(1, &["role"])]), None);
    assert_eq!(
        pick_target(&vec![contact(1, &["role"]), contact(2, &["bullet", "enemy"]), contact(3, &["enemy"])]),
        Some(2)
    );
}

#[test]
fn pressed_skills_in_order() {
    let keys = vec![key("KeyR", false), key("KeyW", false), key("KeyQ", true), key("Escape", false), key("KeyE", false)];
    assert_eq!(pressed_skills(&keys), vec![Skill::R, Skill::Q, Skill::E]);
    assert!(pressed_skills(&vec![]).is_empty());
}

#[test]
fn initial_enemies_surround_the_character() {
    let r = initial_enemy_offsets();
    assert_eq!(
        r,
        vec![(-300, -300), (-300, 0), (-300, 300), (0, -300), (0, 300), (300, -300), (300, 0), (300, 300)]
    );
}

#[test]
fn wave_is_a_five_by_five_grid() {
    let r = wave_offsets();
    assert_eq!(r.len(), 25);
    assert_eq!(r[0], (-100, -100));
    assert_eq!(r[7], (-50, 0));
    assert_eq!(r[12], (0, 0));
    assert_eq!(r[24], (100, 100));
}

#[test]
fn escape_toggles_pause() {
    let mut g = GameCore::new();
    assert!(!g.is_paused());
    assert!(g.begin_frame(&vec![], 16));
    assert!(!g.begin_frame(&vec![key("Escape", false)], 16));
    assert!(g.is_paused());
    assert!(!g.begin_frame(&vec![key("Escape", true)], 16));
    assert!(g.begin_frame(&vec![key("Escape", false)], 16));
    assert!(!g.is_paused());
}

#[test]
fn two_escapes_in_one_frame_toggle_once() {
    let mut g = GameCore::new();
    assert!(!g.begin_frame(&vec![key("Escape", false), key("Escape", false)], 16));
}

#[test]
fn paused_frames_keep_cooldowns() {
    let mut g = GameCore::new();
    assert!(g.cast(Skill::E, Some(true)).is_some());
    g.begin_frame(&vec![key("Escape", false)], 1000);
    assert!(!g.role().skill_e.ready());
    g.begin_frame(&vec![key("Escape", false)], 200);
    assert!(g.role().skill_e.ready());
}

#[test]
fn waves_come_once_per_second() {
    let mut g = GameCore::new();
    assert!(!g.wave_due(999));
    assert!(g.wave_due(1000));
    g.end_frame(600);
    assert!(!g.wave_due(399));
    assert!(g.wave_due(400));
    g.end_frame(600);
    assert_eq!(g.time(), 1200);
    assert!(!g.wave_due(799));
    assert!(g.wave_due(800));
    assert!(g.wave_due(usize::MAX));
}

#[test]
fn time_stands_still_while_paused() {
    let mut g = GameCore::new();
    g.end_frame(100);
    assert_eq!(g.time(), 100);
    assert!(!g.begin_frame(&vec![key("Escape", false)], 50));
    g.end_frame(50);
    assert_eq!(g.time(), 100);
    g.end_frame(usize::MAX);
    assert_eq!(g.time(), 100);
    assert!(g.begin_frame(&vec![key("Escape", false)], 50));
    g.end_frame(50);
    assert_eq!(g.time(), 150);
}

#[test]
fn game_core_clones() {
    let mut g = GameCore::new();
    g.end_frame(7);
    let h = g.clone();
    assert_eq!(h.time(), 7);
    assert!(!format!("{:?}", h).is_empty());
}

#[test]
fn bullets_are_stored_by_id_and_swept_when_used_up() {
    let mut g = GameCore::new();
    let q = g.cast(Skill::Q, None).unwrap();
    let e = g.cast(Skill::E, Some(true)).unwrap();
    let r = g.cast(Skill::R, None).unwrap();
    g.insert_bullet(10, q);
    g.insert_bullet(20, e);
    g.insert_bullet(30, r);
    assert_eq!(g.bullet_ids(), vec![10, 20, 30]);
    assert!(g.trigger_bullet(99, 16).is_none());
    let t = g.trigger_bullet(10, 40).unwrap();
    assert!(t.strike && t.destroyed);
    let t = g.trigger_bullet(20, 40).unwrap();
    assert!(!t.strike && !t.destroyed);
    let hits = g.attack_bullet(10, &vec![contact(5, &["enemy"])]).unwrap();
    assert_eq!(hits, vec![5]);
    assert_eq!(g.role().skill_q.get_stack(), 1);
    assert!(!g.sweep_bullet(20));
    assert!(g.sweep_bullet(10));
    assert_eq!(g.bullet_ids(), vec![30, 20]);
    assert!(!g.sweep_bullet(10));
    assert!(g.attack_bullet(10, &vec![]).is_none());
}

#[test]
fn inserting_an_existing_id_replaces_in_place() {
    let mut g = GameCore::new();
    g.insert_bullet(1, plain_bullet());
    g.insert_bullet(2, plain_bullet());
    let r = g.cast(Skill::R, None).unwrap();
    g.insert_bullet(1, r);
    assert_eq!(g.bullet_ids(), vec![1, 2]);
    let t = g.trigger_bullet(1, 1000).unwrap();
    assert!(t.strike);
    assert!(g.sweep_bullet(1));
    assert_eq!(g.bullet_ids(), vec![2]);
}

#[test]
fn group_equality() {
    assert_eq!(Group::Friendly, Group::Friendly);
    assert_ne!(Group::Friendly, Group::Hostility);
}

#[test]
fn colour_changes_of_the_r_field() {
    assert!(ViewEffect::Grow.viewbox().is_none());
    let w = ViewEffect::Warn.viewbox().unwrap();
    assert_eq!((w.width, w.height, w.color.as_str()), (750, 450, "#ff505011"));
    let s = ViewEffect::Strike.viewbox().unwrap();
    assert_eq!((s.width, s.height, s.color.as_str()), (750, 450, "#ff505033"));
}

#[test]
fn e_slash_hits_only_when_its_lifetime_runs_out() {
    let mut role = Role::new();
    let mut b = role.skill_e(Some(true)).unwrap();
    let enemy = vec![contact(4, &["enemy"])];
    let t = b.trigger(100, &mut role);
    assert!(!t.strike && !t.destroyed);
    assert!(b.attack(&enemy, &mut role).is_empty());
    let t = b.trigger(59, &mut role);
    assert!(!t.strike && !t.destroyed);
    assert!(b.attack(&enemy, &mut role).is_empty());
    let t = b.trigger(1, &mut role);
    assert!(t.strike && t.destroyed);
    assert_eq!(b.attack(&enemy, &mut role), vec![4]);
}

#[test]
fn r_channel_lasts_exactly_the_field_lifetime() {
    let mut role = Role::new();
    let mut b = role.skill_r().unwrap();
    for _ in 0..9 {
        b.trigger(111, &mut role);
        assert!(!role.can_move());
        assert!(!b.is_destroy());
    }
    b.trigger(1, &mut role);
    assert!(role.can_move());
    assert!(b.is_destroy());
}
