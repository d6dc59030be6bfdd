use butterfly_game::role::Role;
use butterfly_game::skill_e::{SkillEStatus, E_COOLDOWN};
use butterfly_game::skill_q::{SkillQNext, SkillQStatus, Q_COOLDOWN, Q_STACK_DURATION};
use butterfly_game::skill_r::{SkillRNext, SkillRStatus, R_COOLDOWN};
use butterfly_game::utils::Skill;

#[test]
fn q_status_starts_ready_without_stacks() {
    let s = SkillQStatus::new();
    assert!(s.ready());
    assert_eq!(s.get_stack(), 0);
}

#[test]
fn q_cooldown_runs_out_after_500_ms() {
    let mut s = SkillQStatus::new();
    s.reset_cd();
    assert!(!s.ready());
    s.cd(499);
    assert!(!s.ready());
    s.cd(1);
    assert!(s.ready());
    assert_eq!(Q_COOLDOWN, 500);
}

#[test]
fn q_cooldown_saturates() {
    let mut s = SkillQStatus::new();
    s.reset_cd();
    s.cd(usize::MAX);
    assert!(s.ready());
    s.cd(10);
    assert!(s.ready());
}

#[test]
fn q_stacks_live_for_4000_ms() {
    let mut s = SkillQStatus::new();
    s.update_stack();
    assert_eq!(s.get_stack(), 1);
    s.cd(3999);
    assert_eq!(s.get_stack(), 1);
    s.cd(1);
    assert_eq!(s.get_stack(), 0);
    assert_eq!(Q_STACK_DURATION, 4000);
}

#[test]
fn q_hit_after_expiry_starts_again_at_one() {
    let mut s = SkillQStatus::new();
    s.update_stack();
    s.update_stack();
    assert_eq!(s.get_stack(), 2);
    s.cd(4000);
    s.update_stack();
    assert_eq!(s.get_stack(), 1);
}

#[test]
fn q_try_advanced_needs_two_stacks() {
    let mut s = SkillQStatus::new();
    assert!(!s.try_advanced());
    s.update_stack();
    assert!(!s.try_advanced());
    assert_eq!(s.get_stack(), 1);
    s.update_stack();
    assert!(s.try_advanced());
    assert_eq!(s.get_stack(), 0);
    assert!(!s.try_advanced());
}

#[test]
fn q_three_stacks_are_not_empowering() {
    let mut s = SkillQStatus::new();
    s.update_stack();
    s.update_stack();
    s.update_stack();
    assert_eq!(s.get_stack(), 3);
    assert!(!s.try_advanced());
    assert_eq!(s.get_stack(), 3);
}

#[test]
fn q_reset_stack_clears() {
    let mut s = SkillQStatus::new();
    s.update_stack();
    s.reset_stack();
    assert_eq!(s.get_stack(), 0);
}

#[test]
fn q_cooldown_does_not_touch_stacks() {
    let mut s = SkillQStatus::new();
    s.update_stack();
    s.reset_cd();
    assert_eq!(s.get_stack(), 1);
}

#[test]
fn e_cooldown_runs_out_after_200_ms() {
    let mut s = SkillEStatus::new();
    assert!(s.ready());
    s.reset_cd();
    assert!(!s.ready());
    s.cd(199);
    assert!(!s.ready());
    s.cd(1);
    assert!(s.ready());
    assert_eq!(E_COOLDOWN, 200);
}

#[test]
fn r_cooldown_runs_out_after_5000_ms() {
    let mut s = SkillRStatus::new();
    assert!(s.ready());
    assert!(!s.using);
    s.reset_cd();
    assert!(!s.ready());
    s.cd(2500);
    s.cd(2499);
    assert!(!s.ready());
    s.cd(1);
    assert!(s.ready());
    assert_eq!(R_COOLDOWN, 5000);
}

#[test]
fn role_skill_cd_ticks_all_skills() {
    let mut role = Role::new();
    assert!(role.skill_q().is_some());
    assert!(role.skill_e(Some(true)).is_some());
    assert!(role.skill_r().is_some());
    role.skill_cd(200);
    assert!(!role.skill_q.ready());
    assert!(role.skill_e.ready());
    assert!(!role.skill_r.ready());
    role.skill_cd(300);
    assert!(role.skill_q.ready());
    assert!(!role.skill_r.ready());
    role.skill_cd(4500);
    assert!(role.skill_r.ready());
}

#[test]
fn q_cast_needs_readiness() {
    let mut role = Role::new();
    let b = role.skill_q().unwrap();
    assert_eq!(b.name(), "skill.q");
    assert_eq!(b.target(), "enemy");
    assert_eq!(b.viewbox().width, 120);
    assert_eq!(b.viewbox().height, 30);
    assert_eq!(b.viewbox().color, "#2e2e364d");
    assert_eq!(b.speed(), 400);
    assert!(!b.is_moving());
    assert!(role.skill_q().is_none());
    role.skill_cd(500);
    assert!(role.skill_q().is_some());
}

#[test]
fn q_cast_with_two_stacks_is_empowered() {
    let mut role = Role::new();
    role.skill_q.update_stack();
    role.skill_q.update_stack();
    let b = role.skill_q().unwrap();
    assert_eq!(b.viewbox().height, 120);
    assert!(b.is_moving());
    assert_eq!(role.skill_q.get_stack(), 0);
}

#[test]
fn e_cast_needs_a_target_within_reach() {
    let mut role = Role::new();
    assert!(role.skill_e(None).is_none());
    assert!(role.skill_e.ready());
    assert!(role.skill_e(Some(false)).is_none());
    assert!(role.skill_e.ready());
    let b = role.skill_e(Some(true)).unwrap();
    assert_eq!(b.name(), "skill.e");
    assert_eq!(b.viewbox().width, 200);
    assert_eq!(b.viewbox().height, 50);
    assert_eq!(b.speed(), 0);
    assert!(!role.skill_e.ready());
    assert!(role.skill_e(Some(true)).is_none());
}

#[test]
fn r_cast_starts_channelling() {
    let mut role = Role::new();
    assert!(role.can_move());
    let b = role.skill_r().unwrap();
    assert_eq!(b.name(), "skill.r");
    assert_eq!(b.viewbox().width, 800);
    assert_eq!(b.viewbox().height, 500);
    assert!(role.skill_r.is_using());
    assert!(!role.can_move());
    assert!(role.skill_r().is_none());
}

#[test]
fn cast_dispatches_by_skill() {
    let mut role = Role::new();
    assert!(role.cast(Skill::W, Some(true)).is_none());
    assert_eq!(role.cast(Skill::Q, None).unwrap().name(), "skill.q");
    assert_eq!(role.cast(Skill::E, Some(true)).unwrap().name(), "skill.e");
    assert!(role.cast(Skill::E, Some(true)).is_none());
    assert_eq!(role.cast(Skill::R, None).unwrap().name(), "skill.r");
}

#[test]
fn q_normal_timer_strikes_on_expiry() {
    let mut t = SkillQNext::new(false);
    let o = t.next(39);
    assert!(!o.arm && !o.destroy && !o.grow);
    let o = t.next(1);
    assert!(o.arm && o.destroy && !o.grow);
}

#[test]
fn q_advanced_timer_pulses_every_200_ms() {
    let mut t = SkillQNext::new(true);
    // 1000 -> 900: passes 1000
    let o = t.next(100);
    assert!(o.arm && o.grow && !o.destroy);
    // 900 -> 800: no boundary passed below 900
    let o = t.next(100);
    assert!(!o.arm && !o.grow && !o.destroy);
    // 800 -> 750: passes 800
    let o = t.next(50);
    assert!(o.arm && o.grow);
    // 750 -> 0: expires, passing several boundaries
    let o = t.next(5000);
    assert!(o.arm && o.grow && o.destroy);
}

#[test]
fn r_timer_warns_strikes_and_releases() {
    let mut status = SkillRStatus::new();
    status.using = true;
    let mut t = SkillRNext::new();
    // 1000 -> 900: tick 100, 100 + 100 < 300
    let o = t.next(100, &mut status);
    assert!(!o.warn && !o.strike && !o.arm);
    // 900 -> 800: tick 0
    let o = t.next(100, &mut status);
    assert!(!o.warn && !o.strike);
    // 800 -> 700: tick 300, 300 + 100 >= 400
    let o = t.next(100, &mut status);
    assert!(o.warn && o.strike && o.arm);
    // 700 -> 650: tick 250, 250 + 50 >= 300, 250 <= 300
    let o = t.next(50, &mut status);
    assert!(o.warn && !o.strike);
    assert!(status.using);
    // 650 -> 0: expires
    let o = t.next(700, &mut status);
    assert!(o.release && o.destroy && o.strike);
    assert!(!status.using);
}

#[test]
fn r_timer_handles_huge_delta() {
    let mut status = SkillRStatus::new();
    let mut t = SkillRNext::new();
    let o = t.next(usize::MAX, &mut status);
    assert!(o.strike && o.warn && o.destroy && o.release);
}
