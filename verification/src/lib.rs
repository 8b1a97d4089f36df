//! Shrinkz game rules: the discrete, verified core of the simulation.

pub mod grid;
pub mod rules;
pub mod theme;
pub mod types;

pub use grid::{CellRect, ClaimCell, ClaimGrid};
pub use rules::{
    spawn_slot, CommandEffect, HalfWall, RuleCommand, RuleState, RulesConfig, StepKind, WallHalves,
};
pub use theme::{ActiveTheme, ThemeId};
pub use types::{Axis, Phase, TimerView};
