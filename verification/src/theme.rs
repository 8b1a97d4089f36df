//! The built-in visual themes and the order in which the player cycles through them.
//! (The colours of each theme belong to the renderer.)

use vstd::prelude::*;

verus! {

/// Named built-in theme.
#[derive(Debug, Clone, Copy, PartialEq, Eq, Structural)]
pub enum ThemeId {
    Midnight,
    Arcade,
    Neon,
    Paper,
    Forest,
    Sunset,
}

/// Number of built-in themes.
pub const THEME_COUNT: usize = 6;

impl ThemeId {
    /// Every built-in theme, in cycling order.
    pub const ALL: [ThemeId; 6] = [
        ThemeId::Midnight,
        ThemeId::Arcade,
        ThemeId::Neon,
        ThemeId::Paper,
        ThemeId::Forest,
        ThemeId::Sunset,
    ];

    /// Position of the theme in cycling order.
    pub open spec fn position(self) -> int {
        match self {
            ThemeId::Midnight => 0,
            ThemeId::Arcade => 1,
            ThemeId::Neon => 2,
            ThemeId::Paper => 3,
            ThemeId::Forest => 4,
            ThemeId::Sunset => 5,
        }
    }

    /// The theme at position `i` (taken modulo the number of themes).
    pub open spec fn at_position(i: int) -> ThemeId {
        let k = i % 6;
        if k == 0 {
            ThemeId::Midnight
        } else if k == 1 {
            ThemeId::Arcade
        } else if k == 2 {
            ThemeId::Neon
        } else if k == 3 {
            ThemeId::Paper
        } else if k == 4 {
            ThemeId::Forest
        } else {
            ThemeId::Sunset
        }
    }

    /// The theme that follows in cycling order.
    pub open spec fn following(self) -> ThemeId {
        ThemeId::at_position(self.position() + 1)
    }

    /// The theme `k` steps further in cycling order.
    pub open spec fn advanced(self, k: nat) -> ThemeId
        decreases k,
    {
        if k == 0 {
            self
        } else {
            self.following().advanced((k - 1) as nat)
        }
    }

    /// Name shown to the player.
    pub fn display_name(self) -> (name: &'static str)
        ensures
            name@ == (match self {
                ThemeId::Midnight => "Midnight"@,
                ThemeId::Arcade => "Arcade"@,
                ThemeId::Neon => "Neon"@,
                ThemeId::Paper => "Paper"@,
                ThemeId::Forest => "Forest"@,
                ThemeId::Sunset => "Sunset"@,
            }),
    {
        match self {
            ThemeId::Midnight => "Midnight",
            ThemeId::Arcade => "Arcade",
            ThemeId::Neon => "Neon",
            ThemeId::Paper => "Paper",
            ThemeId::Forest => "Forest",
            ThemeId::Sunset => "Sunset",
        }
    }

    /// The next theme in cycling order, wrapping from the last to the first.
    pub fn next(self) -> (t: ThemeId)
        ensures
            t == self.following(),
            t.position() == (self.position() + 1) % 6,
    {
        match self {
            ThemeId::Midnight => ThemeId::Arcade,
            ThemeId::Arcade => ThemeId::Neon,
            ThemeId::Neon => ThemeId::Paper,
            ThemeId::Paper => ThemeId::Forest,
            ThemeId::Forest => ThemeId::Sunset,
            ThemeId::Sunset => ThemeId::Midnight,
        }
    }
}

/// Currently selected theme.
#[derive(Debug, Clone, Copy, PartialEq, Eq, Structural)]
pub struct ActiveTheme {
    pub id: ThemeId,
}

impl Default for ActiveTheme {
    /// The first theme, Midnight.
    fn default() -> (t: ActiveTheme)
        ensures
            t.id == ThemeId::Midnight,
    {
        ActiveTheme { id: ThemeId::Midnight }
    }
}

impl ActiveTheme {
    /// Switch to the next theme.
    pub fn cycle(&mut self)
        ensures
            final(self).id == old(self).id.following(),
    {
        self.id = self.id.next();
    }
}

/// Cycling six times comes back to the theme one started from.
pub proof fn law_six_cycles_return(t: ThemeId)
    ensures
        t.advanced(6) == t,
{
    reveal_with_fuel(ThemeId::advanced, 7);
}

/// Cycling from any theme reaches every theme within six steps.
pub proof fn law_cycle_visits_every_theme(t: ThemeId, u: ThemeId)
    ensures
        exists|k: nat| k < 6 && #[trigger] t.advanced(k) == u,
{
    reveal_with_fuel(ThemeId::advanced, 7);
    let k = ((u.position() - t.position() + 6) % 6) as nat;
    assert(t.advanced(k) == u);
}

} // verus!
