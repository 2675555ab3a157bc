//! Messages about distributed entities between the game and the proxy.
use vstd::prelude::*;
use crate::basic_types::{PeerId, WorldPos};

verus! {

/// Radius around a position in which authority over entities is requested.
pub const REQUEST_AUTHORITY_RADIUS: i32 = 400;

/// Radius in which a peer is interested in entities.
pub const INTEREST_REQUEST_RADIUS: i32 = 900;

/// 64 bit globally unique id. Assigned randomly, should only have 50% chance of
/// collision with 2^32 entities at once.
#[derive(Debug, Clone, Copy, Hash, PartialEq, Eq, Structural)]
pub struct Gid(pub u64);

/// 32 bit locally unique id.
#[derive(Debug, Clone, Copy, Hash, PartialEq, Eq, Structural)]
pub struct Lid(pub u32);

/// How an entity is spawned: from a file, or from a serialized form.
pub enum EntitySpawnInfo {
    Filename(String),
    Serialized { serialized_at: i32, data: Vec<u8> },
}

impl Default for EntitySpawnInfo {
    fn default() -> (r: Self)
        ensures
            r matches EntitySpawnInfo::Filename(s) && s@ == Seq::<char>::empty(),
    {
        EntitySpawnInfo::Filename(String::new())
    }
}

/// An entity with its id, its position and how to spawn it.
pub struct FullEntityData {
    pub gid: Gid,
    pub pos: WorldPos,
    pub data: EntitySpawnInfo,
}

/// A new position for an entity.
pub struct UpdatePosition {
    pub gid: Gid,
    pub pos: WorldPos,
}

/// Messages from the game to the proxy about distributed entities.
pub enum DesToProxy {
    InitOrUpdateEntity(FullEntityData),
    DeleteEntity(Gid),
    ReleaseAuthority(Gid),
    RequestAuthority { pos: WorldPos, radius: i32 },
    UpdatePositions(Vec<UpdatePosition>),
    TransferAuthorityTo(Gid, PeerId),
}

/// Messages from the proxy to the game about distributed entities.
pub enum ProxyToDes {
    /// Got authority over entity.
    GotAuthority(FullEntityData),
}

/// A peer's interest in the entities around a position.
pub struct InterestRequest {
    pub pos: WorldPos,
    pub radius: i32,
}

/// The kind of a replicated entity.
#[derive(Debug, Clone, Copy, PartialEq, Eq, Structural)]
pub enum EntityKind {
    /// Normal entity, replicated with a filename.
    Normal,
    /// Item entity, can be picked up.
    Item,
}

impl Default for EntityKind {
    fn default() -> (r: Self)
        ensures
            r == EntityKind::Normal,
    {
        EntityKind::Normal
    }
}

} // verus!
