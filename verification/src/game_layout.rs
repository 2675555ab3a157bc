//! Records of the game's memory that the game-side code reads: addresses are
//! held as plain numbers, and the tables of functions the game keeps behind
//! its objects as empty records.
use vstd::prelude::*;
use crate::noita_types::{BitSet, CString, StdMap, StdString};
use crate::std_vec::StdVec;

verus! {

/// What the particle world of the game is known by: the address of the grid
/// world and the number of materials.
pub struct ParticleWorldState {
    pub world_ptr: usize,
    pub material_count: usize,
}

impl ParticleWorldState {
    /// Where the chunk at chunk coordinates `(x, y)` starts inside its 512 by
    /// 512 pixel block.
    pub fn get_shift<const CHUNK_SIZE: usize>(&self, x: isize, y: isize) -> (r: (isize, isize))
        requires
            CHUNK_SIZE <= isize::MAX,
            isize::MIN <= x * CHUNK_SIZE <= isize::MAX,
            isize::MIN <= y * CHUNK_SIZE <= isize::MAX,
        ensures
            r.0 == (x * CHUNK_SIZE) % 512,
            r.1 == (y * CHUNK_SIZE) % 512,
    {
        let c = CHUNK_SIZE as isize;
        let shift_x = rem_euclid_512(x * c);
        let shift_y = rem_euclid_512(y * c);
        (shift_x, shift_y)
    }
}

/// The remainder of `v` divided by 512, between 0 and 511.
fn rem_euclid_512(v: isize) -> (r: isize)
    ensures
        r == v % 512,
{
    let m = v % 512;
    if m < 0 {
        m + 512
    } else {
        m
    }
}

/// The kinds of cells of the world.
#[derive(Debug, Clone, Copy, PartialEq, Eq, Structural)]
pub enum CellType {
    NoCell,
    Liquid,
    Gas,
    Solid,
    Fire,
}

/// Directions of reactions between cells; `NoDir` is none.
#[derive(Debug, Clone, Copy, PartialEq, Eq, Structural)]
pub enum ReactionDir {
    NoDir,
    Top,
    Bottom,
    Left,
    Right,
}

/// The game's textures; nothing of them is read.
pub struct Textures {}

/// A colour as the game stores it.
#[derive(Debug, Clone, Copy, PartialEq, Eq, Structural)]
pub struct Color {
    pub r: u8,
    pub g: u8,
    pub b: u8,
    pub a: u8,
}

/// A point with integer coordinates.
#[derive(Debug, Clone, Copy, PartialEq, Eq, Structural)]
pub struct Vec2i {
    pub x: isize,
    pub y: isize,
}

/// An axis-aligned box with integer corners.
#[derive(Debug, Clone, Copy, PartialEq, Eq, Structural)]
pub struct IAABB {
    pub top_left: Vec2i,
    pub bottom_right: Vec2i,
}

/// An integer range.
#[derive(Debug, Clone, Copy, PartialEq, Eq, Structural)]
pub struct ValueRangeInt {
    pub min: isize,
    pub max: isize,
}

/// Functions of the threaded grid world.
pub struct GridWorldThreadedVTable {}

/// A physics object of the game; nothing of it is read.
pub struct B2Object {}

/// Functions of an explosion configuration.
pub struct ExplosionConfigVTable {}

/// Functions of a critical damage configuration.
pub struct DamageCriticalConfigVTable {}

/// Functions of a cosmetic particle configuration.
pub struct GridCosmeticParticleConfigVTable {}

/// Functions of a damage-by-type configuration.
pub struct DamagesByTypeConfigVTable {}

/// Functions of a pending portal configuration.
pub struct PendingPortalConfigVTable {}

/// Functions of an NPC party configuration.
pub struct NpcPartyConfigVTable {}

/// Functions of a cut-through-world configuration.
pub struct CutThroughWorldConfigVTable {}

/// Where the world is cut through.
pub struct CutThroughWorldConfig {
    pub vftable: usize,
    pub x: isize,
    pub y_min: isize,
    pub y_max: isize,
    pub radius: isize,
    pub edge_darkening_width: isize,
    pub global_id: usize,
}

/// Functions of a gun configuration.
pub struct GunConfigVTable {}

/// How a gun fires.
pub struct GunConfig {
    pub vftable: usize,
    pub actions_per_round: isize,
    pub shuffle_deck_when_empty: bool,
    pub reload_time: isize,
    pub deck_capacity: isize,
}

/// Functions of a gun action configuration.
pub struct GunActionInfoConfigVTable {}

/// Functions of the global statistics.
pub struct GlobalStatsVTable {}

/// Functions of the game statistics.
pub struct GameStatsVTable {}

/// Functions of the translation manager.
pub struct TranslationManagerVTable {}

/// A mod in the game's mod list.
pub struct ModListEntry {
    pub name: StdString,
    pub steam_id: usize,
    pub enabled: bool,
}

/// The mods of the game: the list and the loaded mods.
pub struct Mods {
    pub names: StdVec<ModListEntry>,
    pub list: StdVec<Mod>,
}

/// Functions of a mod.
pub struct ModVTable {}

/// A loaded mod: the addresses of its script data and of its functions.
pub struct Mod {
    pub lua_data: usize,
    pub vtable: usize,
}

/// The script data of a mod: the address of its script state.
pub struct ModLua {
    pub lua_state: usize,
}

/// Functions of the entity manager.
pub struct EntityManagerVTable {}

/// The system that stains sprites; nothing of it is read.
pub struct SpriteStainSystem {}

/// Game effects; `NoEffect` is none.
#[derive(Debug, Clone, Copy, PartialEq, Eq, Structural)]
pub enum GameEffect {
    NoEffect,
}

impl Default for GameEffect {
    fn default() -> (r: Self)
        ensures
            r == GameEffect::NoEffect,
    {
        GameEffect::NoEffect
    }
}

/// Functions of a component.
pub struct ComponentVTable {}

/// Functions of a component buffer.
pub struct ComponentBufferVTable {}

/// Functions of a component system.
pub struct ComponentSystemVTable {}

/// What every component of the game starts with.
pub struct ComponentData {
    pub vtable: usize,
    pub local_id: usize,
    pub component_type_name: CString,
    pub type_id: usize,
    pub id: usize,
    pub enabled: bool,
    pub tags: BitSet<8>,
}

/// Which component buffer holds each component type.
pub struct ComponentTypeManager {
    pub next_id: usize,
    pub component_buffer_indices: StdMap<StdString, usize>,
}

/// A system of the game that runs over components.
pub struct ComponentSystem {
    pub vtable: usize,
    pub name: StdString,
}

/// The component systems of the game, by address.
pub struct ComponentSystemManager {
    pub list: StdVec<usize>,
}

} // verus!
