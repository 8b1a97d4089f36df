//! The rules of a play session: phase, level, lives, score, the optional level timer and
//! the life cycle of the two halves of a growing wall.

use crate::types::Phase;
use vstd::prelude::*;

verus! {

/// Largest number of nanoseconds a `std::time::Duration` can hold.
pub const MAX_DURATION_NANOS: u128 = 18_446_744_073_709_551_615_999_999_999u128;

/// Nanoseconds in one second.
pub const NANOS_PER_SEC: u128 = 1_000_000_000u128;

/// The integer tuning that the rules read (the rest of the game configuration is geometry).
#[derive(Debug, Clone, Copy, PartialEq, Eq, Structural)]
pub struct RulesConfig {
    pub max_balls: u32,
    pub timer_enabled: bool,
    /// Level time limit in nanoseconds (used only when the timer is enabled).
    pub level_time_limit_nanos: u128,
    pub level_clear_bonus_base: u64,
    pub life_remaining_bonus: u64,
    pub time_remaining_bonus_per_second: u64,
}

/// The time limit is one a `Duration` can hold.
pub open spec fn config_ok(cfg: RulesConfig) -> bool {
    cfg.level_time_limit_nanos <= MAX_DURATION_NANOS
}

/// One half of a growing wall.
#[derive(Debug, Clone, Copy, PartialEq, Eq, Structural)]
pub struct HalfWall {
    /// Not destroyed by a ball.
    pub alive: bool,
    /// Has reached solid geometry.
    pub done: bool,
    /// Already written into the permanent solid wall list.
    pub committed: bool,
}

impl HalfWall {
    /// A fresh half: alive, still growing.
    pub open spec fn fresh() -> HalfWall {
        HalfWall { alive: true, done: false, committed: false }
    }

    /// The half is still extending: a ball touching it destroys it.
    pub open spec fn growing(self) -> bool {
        self.alive && !self.done && !self.committed
    }

    /// The half has reached solid geometry and waits to become a permanent wall.
    pub open spec fn awaiting_commit(self) -> bool {
        self.alive && self.done && !self.committed
    }

    /// The half is either destroyed or permanent.
    pub open spec fn resolved(self) -> bool {
        !self.alive || self.committed
    }

    /// Whether the half is still extending.
    pub fn is_growing(&self) -> (b: bool)
        ensures
            b == self.growing(),
    {
        self.alive && !self.done && !self.committed
    }

    /// Whether the half has finished and is not yet a permanent wall.
    pub fn is_awaiting_commit(&self) -> (b: bool)
        ensures
            b == self.awaiting_commit(),
    {
        self.alive && self.done && !self.committed
    }
}

/// The flags of the two halves of a wall growing from a click.
#[derive(Debug, Clone, Copy, PartialEq, Eq, Structural)]
pub struct WallHalves {
    pub neg: HalfWall,
    pub pos: HalfWall,
}

impl WallHalves {
    /// Both halves fresh.
    pub fn new() -> (w: WallHalves)
        ensures
            w.neg == HalfWall::fresh(),
            w.pos == HalfWall::fresh(),
    {
        WallHalves {
            neg: HalfWall { alive: true, done: false, committed: false },
            pos: HalfWall { alive: true, done: false, committed: false },
        }
    }

    /// Each half is either destroyed or committed as permanent solid.
    pub open spec fn fully_resolved(self) -> bool {
        self.neg.resolved() && self.pos.resolved()
    }

    /// Whether each half is either destroyed or committed as permanent solid.
    pub fn is_fully_resolved(&self) -> (b: bool)
        ensures
            b == self.fully_resolved(),
    {
        (!self.neg.alive || self.neg.committed) && (!self.pos.alive || self.pos.committed)
    }
}

/// `x` capped at `u64::MAX`.
pub open spec fn sat(x: int) -> int {
    if x > u64::MAX {
        u64::MAX as int
    } else {
        x
    }
}

/// `a * b`, saturating at `u64::MAX`.
pub fn sat_mul(a: u64, b: u64) -> (r: u64)
    ensures
        r == sat(a * b),
{
    match a.checked_mul(b) {
        Some(p) => p,
        None => u64::MAX,
    }
}

/// Balls (and lives) on `level`: the level number, capped at `max_balls`, at least one.
pub open spec fn ball_count(cfg: RulesConfig, level: int) -> int {
    let m = if level <= cfg.max_balls {
        level
    } else {
        cfg.max_balls as int
    };
    if m >= 1 {
        m
    } else {
        1
    }
}

/// What the rules know of a session.
pub struct RulesView {
    pub config: RulesConfig,
    pub phase: Phase,
    pub level: u32,
    pub lives: u32,
    pub score: u64,
    /// Remaining level time in nanoseconds, present exactly when the timer is enabled.
    pub timer: Option<u128>,
    /// The flags of the wall in progress, if any.
    pub growing: Option<WallHalves>,
}

/// Well-formed session state: the level is at least one, lives never exceed the level's
/// ball count, no lives means game over, and the timer is present exactly when enabled
/// and never above the limit.
pub open spec fn rules_valid(v: RulesView) -> bool {
    &&& config_ok(v.config)
    &&& v.level >= 1
    &&& v.lives <= ball_count(v.config, v.level as int)
    &&& (v.lives == 0 ==> v.phase == Phase::GameOver)
    &&& v.timer.is_some() == v.config.timer_enabled
    &&& (v.timer matches Some(t) ==> t <= v.config.level_time_limit_nanos)
}

/// The state at the start of `level` (at least 1): full lives, no walls, fresh timer,
/// playing; the score is kept unless `reset_score`.
pub open spec fn level_started(v: RulesView, level: int, reset_score: bool) -> RulesView {
    let lvl = if level >= 1 {
        level
    } else {
        1
    };
    RulesView {
        config: v.config,
        phase: Phase::Playing,
        level: lvl as u32,
        lives: ball_count(v.config, lvl) as u32,
        score: if reset_score {
            0
        } else {
            v.score
        },
        timer: if v.config.timer_enabled {
            Some(v.config.level_time_limit_nanos)
        } else {
            None
        },
        growing: None,
    }
}

/// The state of a new session with `cfg`.
pub open spec fn session_start(cfg: RulesConfig) -> RulesView {
    RulesView {
        config: cfg,
        phase: Phase::Playing,
        level: 1,
        lives: ball_count(cfg, 1) as u32,
        score: 0,
        timer: if cfg.timer_enabled {
            Some(cfg.level_time_limit_nanos)
        } else {
            None
        },
        growing: None,
    }
}

/// One life lost: game over when none was left or the last one goes.
pub open spec fn life_lost(v: RulesView) -> RulesView {
    if v.lives == 0 {
        RulesView { phase: Phase::GameOver, ..v }
    } else if v.lives == 1 {
        RulesView { lives: 0, phase: Phase::GameOver, ..v }
    } else {
        RulesView { lives: (v.lives - 1) as u32, ..v }
    }
}

/// Bonus for clearing the current level: the clear bonus times the level, plus the life
/// bonus per remaining life, plus (with the timer) the time bonus per whole remaining
/// second, each product and sum saturating at `u64::MAX`.
pub open spec fn clear_bonus(v: RulesView) -> int {
    let base = sat(sat(v.config.level_clear_bonus_base * v.level) + sat(
        v.config.life_remaining_bonus * v.lives,
    ));
    if v.config.timer_enabled && v.timer is Some {
        sat(base + sat((v.timer->0 / NANOS_PER_SEC) * v.config.time_remaining_bonus_per_second))
    } else {
        base
    }
}

/// A player or system command, with the geometry already decided: whether a wall's origin
/// lies in the playfield and whether it lies in claimed territory.
#[derive(Debug, Clone, Copy, PartialEq, Eq, Structural)]
pub enum RuleCommand {
    StartWall { inside_playfield: bool, on_claimed: bool },
    Pause,
    Resume,
    RestartLevel,
    RestartGame,
}

/// What a command did.
#[derive(Debug, Clone, Copy, PartialEq, Eq, Structural)]
pub enum CommandEffect {
    Ignored,
    WallStarted,
    Paused,
    Resumed,
    /// The current level started over: respawn its balls and clear its walls.
    LevelRestarted,
    /// A new session started at level 1.
    GameRestarted,
}

/// The state and effect of a command.
pub open spec fn command_outcome(v: RulesView, cmd: RuleCommand) -> (RulesView, CommandEffect) {
    match cmd {
        RuleCommand::StartWall { inside_playfield, on_claimed } => {
            if v.phase == Phase::Playing && v.growing is None && inside_playfield && !on_claimed {
                (
                    RulesView {
                        growing: Some(WallHalves { neg: HalfWall::fresh(), pos: HalfWall::fresh() }),
                        ..v
                    },
                    CommandEffect::WallStarted,
                )
            } else {
                (v, CommandEffect::Ignored)
            }
        },
        RuleCommand::Pause => {
            if v.phase == Phase::Playing {
                (RulesView { phase: Phase::Paused, ..v }, CommandEffect::Paused)
            } else {
                (v, CommandEffect::Ignored)
            }
        },
        RuleCommand::Resume => {
            if v.phase == Phase::Paused {
                (RulesView { phase: Phase::Playing, ..v }, CommandEffect::Resumed)
            } else {
                (v, CommandEffect::Ignored)
            }
        },
        RuleCommand::RestartLevel => {
            if v.phase == Phase::GameOver {
                (v, CommandEffect::Ignored)
            } else {
                (level_started(v, v.level as int, false), CommandEffect::LevelRestarted)
            }
        },
        RuleCommand::RestartGame => (session_start(v.config), CommandEffect::GameRestarted),
    }
}

/// What the simulation does with the time step after the command.
#[derive(Debug, Clone, Copy, PartialEq, Eq, Structural)]
pub enum StepKind {
    /// Playing: advance the timer, walls, balls and claims.
    Tick,
    /// Paused or game over: nothing moves.
    Idle,
    /// The cleared level gave way to the next one: spawn its balls.
    LevelAdvanced,
}

/// The step the current phase calls for, and the state after it.
pub open spec fn step_outcome(v: RulesView) -> (RulesView, StepKind) {
    match v.phase {
        Phase::Playing => (v, StepKind::Tick),
        Phase::Paused => (v, StepKind::Idle),
        Phase::GameOver => (v, StepKind::Idle),
        Phase::LevelClear => (
            level_started(v, if v.level < u32::MAX {
                v.level + 1
            } else {
                v.level as int
            }, false),
            StepKind::LevelAdvanced,
        ),
    }
}

/// A tick runs only while playing and only for a step longer than zero.
pub open spec fn tick_runs(v: RulesView, dt: int) -> bool {
    v.phase == Phase::Playing && dt > 0
}

/// The timer after a tick of `dt` nanoseconds: with the timer enabled, running out
/// (remaining at most `dt`) sets it to zero and ends the game; otherwise it counts down.
/// Nothing changes when the tick does not run.
pub open spec fn timer_ticked(v: RulesView, dt: int) -> RulesView {
    if tick_runs(v, dt) && v.config.timer_enabled && v.timer is Some {
        if v.timer->0 <= dt {
            RulesView { timer: Some(0), phase: Phase::GameOver, ..v }
        } else {
            RulesView { timer: Some((v.timer->0 - dt) as u128), ..v }
        }
    } else {
        v
    }
}

/// The timer ran out during this tick.
pub open spec fn timer_expires(v: RulesView, dt: int) -> bool {
    tick_runs(v, dt) && v.config.timer_enabled && v.timer is Some && v.timer->0 <= dt
}

/// A half after a ball touched it (`hit`): destroyed if it was still growing.
pub open spec fn half_hit(h: HalfWall, hit: bool) -> HalfWall {
    if hit && h.growing() {
        HalfWall { alive: false, ..h }
    } else {
        h
    }
}

/// The state after balls touched the wall's halves: each growing half that was touched
/// is destroyed and costs one life (the second loss only if the first did not end the
/// game); a game over drops the wall in progress.
pub open spec fn hits_resolved(v: RulesView, hit_neg: bool, hit_pos: bool) -> RulesView {
    if v.growing is None || (!hit_neg && !hit_pos) {
        v
    } else {
        let w = v.growing->0;
        let lost_neg = hit_neg && w.neg.growing();
        let lost_pos = hit_pos && w.pos.growing();
        let n: int = (if lost_neg {
            1int
        } else {
            0int
        }) + (if lost_pos {
            1int
        } else {
            0int
        });
        let w2 = WallHalves { neg: half_hit(w.neg, hit_neg), pos: half_hit(w.pos, hit_pos) };
        let v0 = RulesView { growing: Some(w2), ..v };
        let v1 = if n >= 1 {
            life_lost(v0)
        } else {
            v0
        };
        let v2 = if n >= 2 && v1.phase != Phase::GameOver {
            life_lost(v1)
        } else {
            v1
        };
        if v2.phase == Phase::GameOver {
            RulesView { growing: None, ..v2 }
        } else {
            v2
        }
    }
}

/// A half that has finished is committed.
pub open spec fn half_committed(h: HalfWall) -> HalfWall {
    if h.awaiting_commit() {
        HalfWall { committed: true, ..h }
    } else {
        h
    }
}

/// A still-growing half marked as finished.
pub open spec fn half_finished(h: HalfWall) -> HalfWall {
    if h.growing() {
        HalfWall { done: true, ..h }
    } else {
        h
    }
}

/// Where ball `i` of a level spawns, as integers: the index into the eight spawn
/// directions, and the horizontal and vertical offsets from the playfield centre in units
/// of three ball radii (balls are laid out in rows of five).
pub fn spawn_slot(i: u32) -> (slot: (usize, i64, i64))
    ensures
        slot.0 == i % 8,
        slot.1 == (i % 5) as int - 2,
        slot.2 == (i / 5) as int - 1,
{
    ((i % 8) as usize, (i % 5) as i64 - 2, (i / 5) as i64 - 1)
}

/// The discrete state of a play session.
pub struct RuleState {
    config: RulesConfig,
    phase: Phase,
    level: u32,
    lives: u32,
    score: u64,
    timer: Option<u128>,
    growing: Option<WallHalves>,
}

impl View for RuleState {
    type V = RulesView;

    closed spec fn view(&self) -> RulesView {
        RulesView {
            config: self.config,
            phase: self.phase,
            level: self.level,
            lives: self.lives,
            score: self.score,
            timer: self.timer,
            growing: self.growing,
        }
    }
}

impl RuleState {
    /// The state satisfies the rules' invariant.
    pub open spec fn wf(&self) -> bool {
        rules_valid(self@)
    }

    /// Balls (and lives) on `level`: the level capped at `max_balls`, at least one.
    pub fn ball_count_for_level(config: &RulesConfig, level: u32) -> (n: u32)
        ensures
            n == ball_count(*config, level as int),
            1 <= n,
            n <= level || n == 1,
            n <= config.max_balls || n == 1,
    {
        let m = if level <= config.max_balls {
            level
        } else {
            config.max_balls
        };
        if m >= 1 {
            m
        } else {
            1
        }
    }

    /// A fresh session at level 1 with zero score.
    pub fn new(config: RulesConfig) -> (s: RuleState)
        requires
            config_ok(config),
        ensures
            s@ == session_start(config),
            s.wf(),
    {
        let lives = Self::ball_count_for_level(&config, 1);
        RuleState {
            config,
            phase: Phase::Playing,
            level: 1,
            lives,
            score: 0,
            timer: if config.timer_enabled {
                Some(config.level_time_limit_nanos)
            } else {
                None
            },
            growing: None,
        }
    }

    /// Start `level` (at least 1): lives reset to the level's ball count, walls cleared,
    /// timer reset, playing; the score is reset when `reset_score`. Returns the ball count.
    fn begin_level(&mut self, level: u32, reset_score: bool) -> (balls: u32)
        requires
            rules_valid(old(self)@),
        ensures
            final(self)@ == level_started(old(self)@, level as int, reset_score),
            rules_valid(final(self)@),
            balls == final(self)@.lives,
    {
        let lvl = if level >= 1 {
            level
        } else {
            1
        };
        self.level = lvl;
        let n = Self::ball_count_for_level(&self.config, lvl);
        self.lives = n;
        self.growing = None;
        if reset_score {
            self.score = 0;
        }
        self.timer = if self.config.timer_enabled {
            Some(self.config.level_time_limit_nanos)
        } else {
            None
        };
        self.phase = Phase::Playing;
        n
    }

    /// Apply a command: a wall starts only while playing, with no wall in progress, from a
    /// point inside the playfield and outside claimed territory; pause and resume toggle
    /// between playing and paused; restarting the level keeps level and score, except after
    /// game over, where it is ignored; restarting the game starts over at level 1 with zero
    /// score.
    pub fn apply_command(&mut self, cmd: RuleCommand) -> (effect: CommandEffect)
        requires
            old(self).wf(),
        ensures
            final(self).wf(),
            (final(self)@, effect) == command_outcome(old(self)@, cmd),
    {
        match cmd {
            RuleCommand::StartWall { inside_playfield, on_claimed } => {
                if self.phase == Phase::Playing && self.growing.is_none() && inside_playfield && !on_claimed {
                    self.growing = Some(WallHalves::new());
                    CommandEffect::WallStarted
                } else {
                    CommandEffect::Ignored
                }
            },
            RuleCommand::Pause => {
                if self.phase == Phase::Playing {
                    self.phase = Phase::Paused;
                    CommandEffect::Paused
                } else {
                    CommandEffect::Ignored
                }
            },
            RuleCommand::Resume => {
                if self.phase == Phase::Paused {
                    self.phase = Phase::Playing;
                    CommandEffect::Resumed
                } else {
                    CommandEffect::Ignored
                }
            },
            RuleCommand::RestartLevel => {
                if self.phase == Phase::GameOver {
                    return CommandEffect::Ignored;
                }
                let level = self.level;
                self.begin_level(level, false);
                CommandEffect::LevelRestarted
            },
            RuleCommand::RestartGame => {
                let config = self.config;
                *self = Self::new(config);
                CommandEffect::GameRestarted
            },
        }
    }

    /// The step the current phase calls for: playing ticks, paused and game over stay
    /// idle, a cleared level advances to the next one.
    pub fn next_step(&mut self) -> (kind: StepKind)
        requires
            old(self).wf(),
        ensures
            final(self).wf(),
            (final(self)@, kind) == step_outcome(old(self)@),
    {
        match self.phase {
            Phase::Playing => StepKind::Tick,
            Phase::Paused => StepKind::Idle,
            Phase::GameOver => StepKind::Idle,
            Phase::LevelClear => {
                let next = self.level.saturating_add(1);
                self.begin_level(next, false);
                StepKind::LevelAdvanced
            },
        }
    }

    /// Count the level timer down by `dt` nanoseconds at the start of a tick. Returns
    /// whether the rest of the tick goes on: not when the game is not being played, not
    /// for a zero-length step (both leave everything unchanged), and not when the timer
    /// ran out (which ends the game).
    pub fn tick_timer(&mut self, dt: u128) -> (running: bool)
        requires
            old(self).wf(),
        ensures
            final(self).wf(),
            final(self)@ == timer_ticked(old(self)@, dt as int),
            running == (tick_runs(old(self)@, dt as int) && !timer_expires(old(self)@, dt as int)),
            (old(self)@.phase == Phase::Playing && 0 < dt && old(self)@.timer is Some && dt
                < old(self)@.timer->0) ==> (final(self)@.timer == Some((old(self)@.timer->0 - dt) as u128)
                && running),
    {
        if self.phase != Phase::Playing || dt == 0 {
            return false;
        }
        if self.config.timer_enabled {
            match self.timer {
                Some(remaining) => {
                    if remaining <= dt {
                        self.timer = Some(0);
                        self.phase = Phase::GameOver;
                        return false;
                    }
                    self.timer = Some(remaining - dt);
                },
                None => {},
            }
        }
        true
    }

    /// Lose one life; no life left means game over.
    pub fn lose_life(&mut self)
        requires
            old(self).wf(),
        ensures
            final(self).wf(),
            final(self)@ == life_lost(old(self)@),
    {
        if self.lives == 0 {
            self.phase = Phase::GameOver;
            return;
        }
        self.lives = self.lives - 1;
        if self.lives == 0 {
            self.phase = Phase::GameOver;
        }
    }

    /// Mark the given half of the wall in progress as having reached solid geometry, if it
    /// is still growing.
    pub fn finish_half(&mut self, negative: bool)
        requires
            old(self).wf(),
        ensures
            final(self).wf(),
            final(self)@ == (match old(self)@.growing {
                None => old(self)@,
                Some(w) => (RulesView {
                    growing: Some(
                        if negative {
                            (WallHalves { neg: half_finished(w.neg), ..w })
                        } else {
                            (WallHalves { pos: half_finished(w.pos), ..w })
                        },
                    ),
                    ..old(self)@
                }),
            }),
    {
        if let Some(w) = self.growing {
            let mut w2 = w;
            if negative {
                if w.neg.is_growing() {
                    w2.neg.done = true;
                }
            } else {
                if w.pos.is_growing() {
                    w2.pos.done = true;
                }
            }
            self.growing = Some(w2);
        }
    }

    /// Commit every finished half as a permanent wall. Returns which halves were committed
    /// now (negative, positive).
    pub fn commit_finished_halves(&mut self) -> (committed: (bool, bool))
        requires
            old(self).wf(),
        ensures
            final(self).wf(),
            final(self)@ == (match old(self)@.growing {
                None => old(self)@,
                Some(w) => (RulesView {
                    growing: Some((WallHalves { neg: half_committed(w.neg), pos: half_committed(w.pos) })),
                    ..old(self)@
                }),
            }),
            committed == (match old(self)@.growing {
                None => (false, false),
                Some(w) => (w.neg.awaiting_commit(), w.pos.awaiting_commit()),
            }),
    {
        match self.growing {
            None => (false, false),
            Some(w) => {
                let mut w2 = w;
                let n = w.neg.is_awaiting_commit();
                let p = w.pos.is_awaiting_commit();
                if n {
                    w2.neg.committed = true;
                }
                if p {
                    w2.pos.committed = true;
                }
                self.growing = Some(w2);
                (n, p)
            },
        }
    }

    /// Balls touched the wall's halves (`hit_neg`, `hit_pos`): each touched half that is
    /// still growing is destroyed and costs a life; a game over drops the wall in progress.
    /// Returns which halves were destroyed (negative, positive).
    pub fn resolve_wall_hits(&mut self, hit_neg: bool, hit_pos: bool) -> (destroyed: (bool, bool))
        requires
            old(self).wf(),
        ensures
            final(self).wf(),
            final(self)@ == hits_resolved(old(self)@, hit_neg, hit_pos),
            destroyed == (match old(self)@.growing {
                None => (false, false),
                Some(w) => (hit_neg && w.neg.growing(), hit_pos && w.pos.growing()),
            }),
    {
        let w = match self.growing {
            None => {
                return (false, false);
            },
            Some(w) => w,
        };
        if !hit_neg && !hit_pos {
            return (false, false);
        }
        let mut w2 = w;
        let mut lives_to_lose: u32 = 0;
        let lost_neg = hit_neg && w.neg.is_growing();
        let lost_pos = hit_pos && w.pos.is_growing();
        if lost_neg {
            w2.neg.alive = false;
            lives_to_lose = lives_to_lose + 1;
        }
        if lost_pos {
            w2.pos.alive = false;
            lives_to_lose = lives_to_lose + 1;
        }
        self.growing = Some(w2);
        // One life per destroyed half, stopping once the game is over.
        if lives_to_lose >= 1 {
            self.lose_life();
            if lives_to_lose >= 2 && self.phase != Phase::GameOver {
                self.lose_life();
            }
        }
        if self.phase == Phase::GameOver {
            self.growing = None;
        }
        (lost_neg, lost_pos)
    }

    /// Drop the wall in progress once both halves are destroyed or permanent. Returns
    /// whether it was dropped.
    pub fn clear_growing_if_resolved(&mut self) -> (cleared: bool)
        requires
            old(self).wf(),
        ensures
            final(self).wf(),
            cleared == (old(self)@.growing matches Some(w) && w.fully_resolved()),
            final(self)@ == (if cleared {
                (RulesView { growing: None, ..old(self)@ })
            } else {
                old(self)@
            }),
    {
        let resolved = match &self.growing {
            Some(w) => w.is_fully_resolved(),
            None => false,
        };
        if resolved {
            self.growing = None;
        }
        resolved
    }

    /// Wall growth within a tick stops once there is no wall in progress, the game is
    /// over, or both halves are resolved.
    pub fn wall_growth_settled(&self) -> (b: bool)
        ensures
            b == (self@.growing is None || self@.phase == Phase::GameOver || self@.growing->0.fully_resolved()),
    {
        match &self.growing {
            None => true,
            Some(w) => self.phase == Phase::GameOver || w.is_fully_resolved(),
        }
    }

    /// Add points for newly claimed area, saturating at `u64::MAX`.
    pub fn award_claim_points(&mut self, points: u64)
        requires
            old(self).wf(),
        ensures
            final(self).wf(),
            final(self)@ == (RulesView { score: sat(old(self)@.score + points) as u64, ..old(self)@ }),
    {
        self.score = self.score.saturating_add(points);
    }

    /// The bonus for clearing the current level.
    pub fn level_clear_bonus(&self) -> (bonus: u64)
        requires
            self.wf(),
        ensures
            bonus == clear_bonus(self@),
            bonus == bonus_formula(self@),
    {
        proof {
            law_level_clear_bonus(self@);
        }
        let clear = sat_mul(self.config.level_clear_bonus_base, self.level as u64);
        let lives = sat_mul(self.config.life_remaining_bonus, self.lives as u64);
        let mut bonus = clear.saturating_add(lives);
        if self.config.timer_enabled {
            if let Some(remaining) = self.timer {
                let secs = (remaining / NANOS_PER_SEC) as u64;
                bonus = bonus.saturating_add(sat_mul(secs, self.config.time_remaining_bonus_per_second));
            }
        }
        bonus
    }

    /// While playing, reaching the claim target (`reached`) awards the level-clear bonus
    /// and clears the level.
    pub fn check_level_clear(&mut self, reached: bool)
        requires
            old(self).wf(),
        ensures
            final(self).wf(),
            final(self)@ == (if old(self)@.phase == Phase::Playing && reached {
                (RulesView {
                    score: sat(old(self)@.score + clear_bonus(old(self)@)) as u64,
                    phase: Phase::LevelClear,
                    ..old(self)@
                })
            } else {
                old(self)@
            }),
    {
        if self.phase != Phase::Playing {
            return;
        }
        if reached {
            let bonus = self.level_clear_bonus();
            self.score = self.score.saturating_add(bonus);
            self.phase = Phase::LevelClear;
        }
    }

    /// Current phase.
    pub fn phase(&self) -> (p: Phase)
        ensures
            p == self@.phase,
    {
        self.phase
    }

    /// Current level.
    pub fn level(&self) -> (n: u32)
        ensures
            n == self@.level,
    {
        self.level
    }

    /// Lives left.
    pub fn lives(&self) -> (n: u32)
        ensures
            n == self@.lives,
    {
        self.lives
    }

    /// Score so far.
    pub fn score(&self) -> (n: u64)
        ensures
            n == self@.score,
    {
        self.score
    }

    /// Remaining level time in nanoseconds, when the timer is enabled.
    pub fn timer_remaining_nanos(&self) -> (t: Option<u128>)
        ensures
            t == self@.timer,
    {
        self.timer
    }

    /// The flags of the wall in progress, if any.
    pub fn growing(&self) -> (w: Option<WallHalves>)
        ensures
            w == self@.growing,
    {
        self.growing
    }

    /// The rules' configuration.
    pub fn config(&self) -> (c: RulesConfig)
        ensures
            c == self@.config,
    {
        self.config
    }
}


/// Pausing a running game and resuming it gives back exactly the same state.
pub proof fn law_pause_then_resume_restores(v: RulesView)
    requires
        v.phase == Phase::Playing,
    ensures
        command_outcome(command_outcome(v, RuleCommand::Pause).0, RuleCommand::Resume).0 == v,
        command_outcome(v, RuleCommand::Pause).1 == CommandEffect::Paused,
{
}

/// While paused or after game over nothing moves: the step is idle and changes nothing.
pub proof fn law_paused_and_game_over_are_idle(v: RulesView)
    requires
        v.phase == Phase::Paused || v.phase == Phase::GameOver,
    ensures
        step_outcome(v) == (v, StepKind::Idle),
{
}

/// After game over only restarting the game changes anything: walls cannot start,
/// pausing, resuming and restarting the level do nothing, and time stands still, so no
/// further points are awarded.
pub proof fn law_game_over_waits_for_restart(v: RulesView, cmd: RuleCommand, dt: int)
    requires
        v.phase == Phase::GameOver,
        !(cmd is RestartGame),
    ensures
        command_outcome(v, cmd) == (v, CommandEffect::Ignored),
        step_outcome(v) == (v, StepKind::Idle),
        timer_ticked(v, dt) == v,
{
}

/// While a wall is being built a second wall never starts.
pub proof fn law_one_wall_at_a_time(v: RulesView, inside_playfield: bool, on_claimed: bool)
    requires
        v.growing is Some,
    ensures
        command_outcome(v, RuleCommand::StartWall { inside_playfield, on_claimed }) == (v, CommandEffect::Ignored),
{
}

/// Restarting the game gives a fresh session: level 1, one ball's worth of lives, zero
/// score, no wall, playing.
pub proof fn law_restart_game_is_new_session(v: RulesView)
    requires
        rules_valid(v),
    ensures
        command_outcome(v, RuleCommand::RestartGame).0 == session_start(v.config),
        session_start(v.config).level == 1,
        session_start(v.config).score == 0,
        session_start(v.config).lives == 1,
        session_start(v.config).phase == Phase::Playing,
        session_start(v.config).growing is None,
        session_start(v.config).config == v.config,
        session_start(v.config).timer == if v.config.timer_enabled {
            Some(v.config.level_time_limit_nanos)
        } else {
            None
        },
{
}

/// Restarting the level (before game over) keeps its number and the score, refills the
/// lives to the level's ball count and resumes play with no wall.
pub proof fn law_restart_level_keeps_level_and_score(v: RulesView)
    requires
        rules_valid(v),
        v.phase != Phase::GameOver,
    ensures
        ({
            let w = command_outcome(v, RuleCommand::RestartLevel).0;
            &&& w.level == v.level
            &&& w.score == v.score
            &&& w.lives == ball_count(v.config, v.level as int)
            &&& w.phase == Phase::Playing
            &&& w.growing is None
            &&& w.config == v.config
        }),
{
}

/// A cleared level gives way to the next one, which has one more ball (until the cap) and
/// as many lives as balls; the score is kept.
pub proof fn law_next_level_after_clear(v: RulesView)
    requires
        rules_valid(v),
        v.phase == Phase::LevelClear,
        v.level < u32::MAX,
    ensures
        ({
            let (w, kind) = step_outcome(v);
            &&& kind == StepKind::LevelAdvanced
            &&& w.level == v.level + 1
            &&& w.lives == ball_count(v.config, v.level + 1)
            &&& w.score == v.score
            &&& w.phase == Phase::Playing
            &&& w.growing is None
            &&& w.timer == if v.config.timer_enabled {
                Some(v.config.level_time_limit_nanos)
            } else {
                None
            }
        }),
        v.level < v.config.max_balls ==> ball_count(v.config, v.level + 1) == ball_count(v.config, v.level as int) + 1,
        v.level >= v.config.max_balls ==> ball_count(v.config, v.level + 1) == ball_count(v.config, v.level as int),
{
}

/// The number of balls never exceeds the cap (nor drops below one).
pub proof fn law_ball_count_capped(cfg: RulesConfig, level: int)
    ensures
        1 <= ball_count(cfg, level),
        cfg.max_balls >= 1 ==> ball_count(cfg, level) <= cfg.max_balls,
        level >= 1 ==> ball_count(cfg, level) <= level,
{
}

/// The score only ever grows, except that restarting the game resets it.
pub proof fn law_score_never_decreases(v: RulesView, cmd: RuleCommand, dt: int, hit_neg: bool, hit_pos: bool, points: u64)
    requires
        rules_valid(v),
        !(cmd is RestartGame),
        dt >= 0,
    ensures
        command_outcome(v, cmd).0.score >= v.score,
        step_outcome(v).0.score >= v.score,
        timer_ticked(v, dt).score == v.score,
        hits_resolved(v, hit_neg, hit_pos).score == v.score,
        sat(v.score + points) >= v.score,
        sat(v.score + clear_bonus(v)) >= v.score,
{
}

/// With the timer off, time never runs out.
pub proof fn law_disabled_timer_never_expires(v: RulesView, dt: int)
    requires
        rules_valid(v),
        !v.config.timer_enabled,
    ensures
        timer_ticked(v, dt) == v,
        !timer_expires(v, dt),
        v.timer is None,
{
}

/// With the timer on, a step of play at least as long as the remaining time ends the game.
pub proof fn law_timer_expiry_ends_game(v: RulesView, dt: int)
    requires
        rules_valid(v),
        v.phase == Phase::Playing,
        dt > 0,
        v.config.timer_enabled,
        v.timer->0 <= dt,
    ensures
        timer_expires(v, dt),
        timer_ticked(v, dt).phase == Phase::GameOver,
        timer_ticked(v, dt).timer == Some(0u128),
{
}

/// A half that has already finished (or become permanent) is never destroyed by a ball,
/// and touching it costs no life.
pub proof fn law_finished_half_survives_hits(v: RulesView, hit_neg: bool, hit_pos: bool)
    requires
        rules_valid(v),
        v.growing matches Some(w) && (w.neg.done || w.neg.committed) && (w.pos.done || w.pos.committed),
    ensures
        hits_resolved(v, hit_neg, hit_pos).lives == v.lives,
        hits_resolved(v, hit_neg, hit_pos).phase == v.phase,
        hits_resolved(v, hit_neg, hit_pos).growing == v.growing || v.phase == Phase::GameOver,
{
}

/// A ball touching one growing half (with lives to spare) destroys that half and costs
/// exactly one life; the other half is untouched.
pub proof fn law_hit_growing_half_costs_one_life(v: RulesView)
    requires
        rules_valid(v),
        v.lives >= 2,
        v.phase != Phase::GameOver,
        v.growing matches Some(w) && w.neg.growing(),
    ensures
        ({
            let w = v.growing->0;
            let r = hits_resolved(v, true, false);
            &&& r.lives == v.lives - 1
            &&& r.phase == v.phase
            &&& r.growing == Some(WallHalves { neg: HalfWall { alive: false, ..w.neg }, pos: w.pos })
        }),
{
}

/// Losing the last life ends the game, and the wall in progress goes with it.
pub proof fn law_last_life_ends_game(v: RulesView)
    requires
        rules_valid(v),
        v.lives == 1,
        v.growing matches Some(w) && w.neg.growing(),
    ensures
        hits_resolved(v, true, false).lives == 0,
        hits_resolved(v, true, false).phase == Phase::GameOver,
        hits_resolved(v, true, false).growing is None,
{
}

/// Every operation keeps the rules' invariant.
pub proof fn law_invariant_kept(v: RulesView, cmd: RuleCommand, dt: int, hit_neg: bool, hit_pos: bool)
    requires
        rules_valid(v),
        dt >= 0,
    ensures
        rules_valid(command_outcome(v, cmd).0),
        rules_valid(step_outcome(v).0),
        rules_valid(timer_ticked(v, dt)),
        rules_valid(hits_resolved(v, hit_neg, hit_pos)),
        rules_valid(life_lost(v)),
{
}


/// `min(u64::MAX, x)`.
pub open spec fn capped(x: int) -> int {
    if x < u64::MAX {
        x
    } else {
        u64::MAX as int
    }
}

/// The level-clear bonus in plain arithmetic: the clear bonus times the level plus the
/// life bonus per remaining life, plus (timer on) the time bonus per whole remaining
/// second, capped at `u64::MAX`.
pub open spec fn bonus_formula(v: RulesView) -> int {
    let level_part = v.config.level_clear_bonus_base * v.level;
    let life_part = v.config.life_remaining_bonus * v.lives;
    if v.config.timer_enabled && v.timer is Some {
        capped(level_part + life_part + (v.timer->0 / NANOS_PER_SEC) * v.config.time_remaining_bonus_per_second)
    } else {
        capped(level_part + life_part)
    }
}

/// The level-clear bonus is the plain-arithmetic formula; at fixed lives it grows by the
/// clear bonus per level, at fixed level by the life bonus per remaining life (until the
/// cap).
pub proof fn law_level_clear_bonus(v: RulesView)
    ensures
        clear_bonus(v) == bonus_formula(v),
        !v.config.timer_enabled ==> clear_bonus(v) == capped(
            v.config.level_clear_bonus_base * v.level + v.config.life_remaining_bonus * v.lives,
        ),
{
    assert(v.config.level_clear_bonus_base * v.level >= 0) by (nonlinear_arith);
    assert(v.config.life_remaining_bonus * v.lives >= 0) by (nonlinear_arith);
    if v.timer is Some {
        assert((v.timer->0 / NANOS_PER_SEC) * v.config.time_remaining_bonus_per_second >= 0) by (nonlinear_arith);
    }
}

/// While playing with the timer on, a tick shorter than the remaining time takes exactly
/// the step off the remaining time and changes nothing else, whatever the wall in
/// progress; a tick at least as long ends the game with no time left.
pub proof fn law_timer_counts_down(v: RulesView, dt: int)
    requires
        v.phase == Phase::Playing,
        v.config.timer_enabled,
        v.timer is Some,
        dt > 0,
    ensures
        dt < v.timer->0 ==> timer_ticked(v, dt) == (RulesView { timer: Some((v.timer->0 - dt) as u128), ..v }),
        dt < v.timer->0 ==> !timer_expires(v, dt),
        dt >= v.timer->0 ==> timer_ticked(v, dt).phase == Phase::GameOver && timer_ticked(v, dt).timer == Some(0u128)
            && timer_expires(v, dt),
        timer_ticked(v, dt).growing == v.growing,
        timer_ticked(v, dt).lives == v.lives,
        timer_ticked(v, dt).level == v.level,
{
}

/// Restarting the level before game over gives the level its full time again (and no
/// timer when it is off).
pub proof fn law_restart_level_resets_timer(v: RulesView)
    requires
        v.phase != Phase::GameOver,
    ensures
        command_outcome(v, RuleCommand::RestartLevel).1 == CommandEffect::LevelRestarted,
        command_outcome(v, RuleCommand::RestartLevel).0.timer == if v.config.timer_enabled {
            Some(v.config.level_time_limit_nanos)
        } else {
            None
        },
{
}

/// Balls touching the halves of the wall in progress destroy exactly the touched halves
/// that are still growing, and cost one life per destroyed half: the lives drop by the
/// number of destroyed halves, or to zero with game over (and the wall dropped) when that
/// number reaches the lives left.
pub proof fn law_one_life_per_destroyed_half(v: RulesView, hit_neg: bool, hit_pos: bool)
    requires
        rules_valid(v),
        v.phase != Phase::GameOver,
        v.growing is Some,
    ensures
        ({
            let w = v.growing->0;
            let dn = hit_neg && w.neg.alive && !w.neg.done && !w.neg.committed;
            let dp = hit_pos && w.pos.alive && !w.pos.done && !w.pos.committed;
            let n = (if dn {
                1int
            } else {
                0int
            }) + (if dp {
                1int
            } else {
                0int
            });
            let r = hits_resolved(v, hit_neg, hit_pos);
            &&& n < v.lives ==> r.lives == v.lives - n && r.phase == v.phase && r.growing == Some(
                WallHalves {
                    neg: HalfWall { alive: w.neg.alive && !dn, done: w.neg.done, committed: w.neg.committed },
                    pos: HalfWall { alive: w.pos.alive && !dp, done: w.pos.done, committed: w.pos.committed },
                },
            )
            &&& n >= v.lives ==> r.lives == 0 && r.phase == Phase::GameOver && r.growing is None
            &&& r.score == v.score
            &&& r.level == v.level
        }),
{
}

/// A ball touching only the positive half while it grows (lives to spare) destroys it and
/// costs exactly one life, leaving the negative half as it was.
pub proof fn law_hit_positive_half_costs_one_life(v: RulesView)
    requires
        rules_valid(v),
        v.lives >= 2,
        v.phase != Phase::GameOver,
        v.growing matches Some(w) && w.pos.growing(),
    ensures
        ({
            let w = v.growing->0;
            let r = hits_resolved(v, false, true);
            &&& r.lives == v.lives - 1
            &&& r.phase == v.phase
            &&& r.growing == Some(WallHalves { neg: w.neg, pos: HalfWall { alive: false, ..w.pos } })
        }),
{
}

} // verus!
