use shrinkz::{
    CommandEffect, HalfWall, Phase, RuleCommand, RuleState, RulesConfig, StepKind, WallHalves,
};

fn config() -> RulesConfig {
    RulesConfig {
        max_balls: 50,
        timer_enabled: false,
        level_time_limit_nanos: 30_000_000_000,
        level_clear_bonus_base: 500,
        life_remaining_bonus: 100,
        time_remaining_bonus_per_second: 10,
    }
}

fn start_wall() -> RuleCommand {
    RuleCommand::StartWall { inside_playfield: true, on_claimed: false }
}

fn clear_level(s: &mut RuleState) {
    assert_eq!(s.next_step(), StepKind::Tick);
    s.check_level_clear(true);
    assert_eq!(s.phase(), Phase::LevelClear);
    assert_eq!(s.next_step(), StepKind::LevelAdvanced);
}

#[test]
fn new_rules_start_at_level_one_with_one_life() {
    let s = RuleState::new(config());
    assert_eq!(s.level(), 1);
    assert_eq!(s.lives(), 1);
    assert_eq!(s.score(), 0);
    assert_eq!(s.phase(), Phase::Playing);
    assert_eq!(s.timer_remaining_nanos(), None);
    assert_eq!(s.growing(), None);
}

#[test]
fn ball_count_follows_level_up_to_cap() {
    let mut cfg = config();
    cfg.max_balls = 3;
    assert_eq!(RuleState::ball_count_for_level(&cfg, 0), 1);
    assert_eq!(RuleState::ball_count_for_level(&cfg, 1), 1);
    assert_eq!(RuleState::ball_count_for_level(&cfg, 2), 2);
    assert_eq!(RuleState::ball_count_for_level(&cfg, 3), 3);
    assert_eq!(RuleState::ball_count_for_level(&cfg, 9), 3);
    cfg.max_balls = 0;
    assert_eq!(RuleState::ball_count_for_level(&cfg, 9), 1);
}

#[test]
fn clearing_levels_adds_a_ball_until_the_cap() {
    let mut cfg = config();
    cfg.max_balls = 3;
    let mut s = RuleState::new(cfg);
    for expected in [2u32, 3, 3, 3] {
        clear_level(&mut s);
        assert_eq!(s.lives(), expected);
        assert_eq!(s.phase(), Phase::Playing);
    }
    assert_eq!(s.level(), 5);
}

#[test]
fn level_clear_bonus_counts_level_and_lives() {
    let mut s = RuleState::new(config());
    clear_level(&mut s); // level 1, 1 life: 500 + 100
    assert_eq!(s.score(), 600);
    assert_eq!(s.level(), 2);
    assert_eq!(s.level_clear_bonus(), 2 * 500 + 2 * 100);
    s.award_claim_points(7);
    assert_eq!(s.score(), 607);
}

#[test]
fn level_clear_bonus_adds_whole_remaining_seconds_with_timer() {
    let mut cfg = config();
    cfg.timer_enabled = true;
    cfg.level_time_limit_nanos = 30_000_000_000;
    let mut s = RuleState::new(cfg);
    assert!(s.tick_timer(2_500_000_000));
    assert_eq!(s.timer_remaining_nanos(), Some(27_500_000_000));
    // 500 * 1 + 100 * 1 + 27 s * 10
    assert_eq!(s.level_clear_bonus(), 870);
}

#[test]
fn bonus_saturates_instead_of_overflowing() {
    let mut cfg = config();
    cfg.level_clear_bonus_base = u64::MAX;
    let s = RuleState::new(cfg);
    assert_eq!(s.level_clear_bonus(), u64::MAX);
    let mut t = RuleState::new(config());
    t.award_claim_points(u64::MAX);
    t.award_claim_points(5);
    assert_eq!(t.score(), u64::MAX);
}

#[test]
fn claim_target_only_counts_while_playing() {
    let mut s = RuleState::new(config());
    s.check_level_clear(false);
    assert_eq!(s.phase(), Phase::Playing);
    s.apply_command(RuleCommand::Pause);
    s.check_level_clear(true);
    assert_eq!(s.phase(), Phase::Paused);
    assert_eq!(s.score(), 0);
}

#[test]
fn pause_and_resume() {
    let mut s = RuleState::new(config());
    assert_eq!(s.apply_command(RuleCommand::Pause), CommandEffect::Paused);
    assert_eq!(s.phase(), Phase::Paused);
    assert_eq!(s.next_step(), StepKind::Idle);
    assert_eq!(s.apply_command(RuleCommand::Pause), CommandEffect::Ignored);
    assert_eq!(s.apply_command(start_wall()), CommandEffect::Ignored);
    assert_eq!(s.apply_command(RuleCommand::Resume), CommandEffect::Resumed);
    assert_eq!(s.phase(), Phase::Playing);
    assert_eq!(s.next_step(), StepKind::Tick);
    assert_eq!(s.apply_command(RuleCommand::Resume), CommandEffect::Ignored);
}

#[test]
fn wall_start_conditions() {
    let mut s = RuleState::new(config());
    assert_eq!(
        s.apply_command(RuleCommand::StartWall { inside_playfield: false, on_claimed: false }),
        CommandEffect::Ignored
    );
    assert_eq!(
        s.apply_command(RuleCommand::StartWall { inside_playfield: true, on_claimed: true }),
        CommandEffect::Ignored
    );
    assert_eq!(s.apply_command(start_wall()), CommandEffect::WallStarted);
    assert_eq!(s.growing(), Some(WallHalves::new()));
    // Second wall ignored while building.
    assert_eq!(s.apply_command(start_wall()), CommandEffect::Ignored);
}

#[test]
fn finished_halves_commit_and_wall_clears() {
    let mut s = RuleState::new(config());
    s.apply_command(start_wall());
    assert_eq!(s.commit_finished_halves(), (false, false));
    s.finish_half(true);
    assert_eq!(s.commit_finished_halves(), (true, false));
    assert!(!s.clear_growing_if_resolved());
    s.finish_half(false);
    assert_eq!(s.commit_finished_halves(), (false, true));
    // A hit on committed halves does nothing.
    assert_eq!(s.resolve_wall_hits(true, true), (false, false));
    assert_eq!(s.lives(), 1);
    assert!(s.clear_growing_if_resolved());
    assert_eq!(s.growing(), None);
}

#[test]
fn hit_on_growing_half_costs_a_life_and_keeps_finished_half() {
    let mut cfg = config();
    cfg.max_balls = 50;
    let mut s = RuleState::new(cfg);
    clear_level(&mut s);
    clear_level(&mut s);
    assert_eq!(s.lives(), 3);
    s.apply_command(start_wall());
    s.finish_half(false);
    s.commit_finished_halves();
    assert_eq!(s.resolve_wall_hits(true, true), (true, false));
    assert_eq!(s.lives(), 2);
    let w = s.growing().unwrap();
    assert_eq!(w.neg, HalfWall { alive: false, done: false, committed: false });
    assert_eq!(w.pos, HalfWall { alive: true, done: true, committed: true });
    assert!(s.clear_growing_if_resolved());
}

#[test]
fn both_halves_hit_cost_two_lives() {
    let mut s = RuleState::new(config());
    clear_level(&mut s);
    clear_level(&mut s);
    s.apply_command(start_wall());
    assert_eq!(s.resolve_wall_hits(true, true), (true, true));
    assert_eq!(s.lives(), 1);
    assert_eq!(s.phase(), Phase::Playing);
}

#[test]
fn losing_last_life_is_game_over() {
    let mut s = RuleState::new(config());
    s.apply_command(start_wall());
    assert_eq!(s.resolve_wall_hits(false, true), (false, true));
    assert_eq!(s.lives(), 0);
    assert_eq!(s.phase(), Phase::GameOver);
    assert_eq!(s.growing(), None);
    assert_eq!(s.next_step(), StepKind::Idle);
    assert_eq!(s.apply_command(start_wall()), CommandEffect::Ignored);
    assert_eq!(s.apply_command(RuleCommand::Resume), CommandEffect::Ignored);
}

#[test]
fn lose_life_directly() {
    let mut s = RuleState::new(config());
    clear_level(&mut s);
    assert_eq!(s.lives(), 2);
    s.lose_life();
    assert_eq!((s.lives(), s.phase()), (1, Phase::Playing));
    s.lose_life();
    assert_eq!((s.lives(), s.phase()), (0, Phase::GameOver));
    s.lose_life();
    assert_eq!((s.lives(), s.phase()), (0, Phase::GameOver));
}

#[test]
fn restart_level_keeps_level_and_score() {
    let mut s = RuleState::new(config());
    clear_level(&mut s);
    s.award_claim_points(40);
    s.apply_command(start_wall());
    s.lose_life();
    let (level, score) = (s.level(), s.score());
    assert_eq!(s.apply_command(RuleCommand::RestartLevel), CommandEffect::LevelRestarted);
    assert_eq!(s.level(), level);
    assert_eq!(s.score(), score);
    assert_eq!(s.lives(), 2);
    assert_eq!(s.growing(), None);
    assert_eq!(s.phase(), Phase::Playing);
}

#[test]
fn restart_game_starts_over() {
    let mut s = RuleState::new(config());
    clear_level(&mut s);
    clear_level(&mut s);
    assert_eq!(s.apply_command(RuleCommand::RestartGame), CommandEffect::GameRestarted);
    assert_eq!(s.level(), 1);
    assert_eq!(s.lives(), 1);
    assert_eq!(s.score(), 0);
    assert_eq!(s.phase(), Phase::Playing);
}

#[test]
fn only_restart_game_leaves_game_over() {
    let mut s = RuleState::new(config());
    s.award_claim_points(25);
    s.lose_life();
    assert_eq!(s.phase(), Phase::GameOver);
    assert_eq!(s.apply_command(RuleCommand::RestartLevel), CommandEffect::Ignored);
    assert_eq!(s.phase(), Phase::GameOver);
    assert_eq!(s.score(), 25);
    assert_eq!(s.lives(), 0);
    s.check_level_clear(true);
    assert_eq!(s.score(), 25);
    assert!(!s.tick_timer(16_000_000));
    assert_eq!(s.apply_command(RuleCommand::RestartGame), CommandEffect::GameRestarted);
    assert_eq!(s.phase(), Phase::Playing);
    assert_eq!(s.lives(), 1);
    assert_eq!(s.score(), 0);
}

#[test]
fn timer_does_not_run_for_zero_steps_or_when_not_playing() {
    let mut cfg = config();
    cfg.timer_enabled = true;
    cfg.level_time_limit_nanos = 100_000_000;
    let mut s = RuleState::new(cfg);
    assert!(!s.tick_timer(0));
    assert_eq!(s.timer_remaining_nanos(), Some(100_000_000));
    assert_eq!(s.phase(), Phase::Playing);
    s.apply_command(RuleCommand::Pause);
    assert!(!s.tick_timer(200_000_000));
    assert_eq!(s.timer_remaining_nanos(), Some(100_000_000));
    assert_eq!(s.phase(), Phase::Paused);
}

#[test]
fn disabled_timer_never_expires() {
    let mut s = RuleState::new(config());
    for _ in 0..100 {
        assert!(s.tick_timer(50_000_000));
    }
    assert_eq!(s.timer_remaining_nanos(), None);
    assert_eq!(s.phase(), Phase::Playing);
}

#[test]
fn enabled_timer_expiry_is_game_over() {
    let mut cfg = config();
    cfg.timer_enabled = true;
    cfg.level_time_limit_nanos = 100_000_000;
    let mut s = RuleState::new(cfg);
    assert!(s.tick_timer(50_000_000));
    assert_eq!(s.timer_remaining_nanos(), Some(50_000_000));
    // Remaining equal to the step runs out.
    assert!(!s.tick_timer(50_000_000));
    assert_eq!(s.timer_remaining_nanos(), Some(0));
    assert_eq!(s.phase(), Phase::GameOver);
    assert_eq!(s.lives(), 1);
}

#[test]
fn new_level_resets_timer() {
    let mut cfg = config();
    cfg.timer_enabled = true;
    cfg.level_time_limit_nanos = 5_000_000_000;
    let mut s = RuleState::new(cfg);
    s.tick_timer(1_000_000_000);
    clear_level(&mut s);
    assert_eq!(s.timer_remaining_nanos(), Some(5_000_000_000));
}
