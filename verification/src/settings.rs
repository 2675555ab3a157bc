//! Game modes and the player's cosmetic choices.
use vstd::prelude::*;

verus! {

/// How health works when every player has their own.
#[derive(Debug, Clone, Copy, PartialEq, Eq, Structural)]
pub enum LocalHealthMode {
    Normal,
    Alternate,
    PermaDeath,
    PvP,
}

/// The mode a game is played in.
#[derive(Debug, Clone, Copy, PartialEq, Eq, Structural)]
pub enum GameMode {
    SharedHealth,
    LocalHealth(LocalHealthMode),
}

/// The short description of a game mode.
pub open spec fn game_mode_text(m: GameMode) -> Seq<char> {
    match m {
        GameMode::SharedHealth => "Shared"@,
        GameMode::LocalHealth(LocalHealthMode::Normal) => "LocalNormal"@,
        GameMode::LocalHealth(LocalHealthMode::Alternate) => "LocalAlternate"@,
        GameMode::LocalHealth(LocalHealthMode::PermaDeath) => "LocalPermadeath"@,
        GameMode::LocalHealth(LocalHealthMode::PvP) => "PvP"@,
    }
}

impl GameMode {
    /// The short description of the mode.
    pub fn to_string(&self) -> (r: String)
        ensures
            r@ == game_mode_text(*self),
    {
        let desc = match self {
            GameMode::SharedHealth => "Shared",
            GameMode::LocalHealth(LocalHealthMode::Normal) => "LocalNormal",
            GameMode::LocalHealth(LocalHealthMode::Alternate) => "LocalAlternate",
            GameMode::LocalHealth(LocalHealthMode::PermaDeath) => "LocalPermadeath",
            GameMode::LocalHealth(LocalHealthMode::PvP) => "PvP",
        };
        desc.to_owned()
    }
}

/// Secret cosmetics the player has unlocked.
#[derive(Debug, Clone, Copy, PartialEq, Eq, Structural)]
pub struct Cosmetics {
    pub hat: bool,
    pub amulet: bool,
    pub amulet_gem: bool,
}

impl Default for Cosmetics {
    fn default() -> (r: Self)
        ensures
            !r.hat && !r.amulet && !r.amulet_gem,
    {
        Cosmetics { hat: false, amulet: false, amulet_gem: false }
    }
}

/// Which part of the player's colours is being picked. `NoPicker` is none.
#[derive(Debug, Clone, Copy, PartialEq, Eq, Structural)]
pub enum PlayerPicker {
    NoPicker,
    PlayerMain,
    PlayerAlt,
    PlayerArm,
    PlayerCape,
    PlayerCapeEdge,
    PlayerForearm,
}

} // verus!
