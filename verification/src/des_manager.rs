//! The proxy's side of distributed entities: the store of every entity's
//! last known data, which peer holds authority over which entity, a spatial
//! index of the entities nobody holds, and the replies waiting to be sent.
//! Its records carry more than those of `crate::des`: a wand, health and
//! physics state, kept so that a new holder gets the entity back whole.
use vstd::prelude::*;
use vstd::multiset::Multiset;
use std::collections::HashMap;
use rstar::primitives::GeomWithData;
use rstar::RTree;
use crate::basic_types::WorldPos;
use crate::des::{EntitySpawnInfo, Gid, Lid, REQUEST_AUTHORITY_RADIUS};

verus! {

broadcast use vstd::std_specs::hash::group_hash_axioms;

/// A peer, by its id.
pub type PeerKey = u64;

/// Largest coordinate the spatial index is given. The index computes in
/// `i64`: with coordinates within 2^29 an extent is at most 2^30, an area or
/// a squared axis distance at most 2^60, and the largest sums it forms (the
/// overlaps of a node's other five children when choosing a subtree, two
/// areas when splitting, two squared axis distances) stay below 2^63. At
/// 2^30 the sum of two areas already overflows, so this is the largest power
/// of two that is safe.
pub const COORD_LIMIT: i64 = 0x2000_0000;

/// A coordinate the spatial index can take.
pub open spec fn in_reach(v: i64) -> bool {
    -COORD_LIMIT <= v <= COORD_LIMIT
}

/// A point of the spatial index: a position and the gid of the entity there.
pub type TreePoint = (i64, i64, u64);

/// The spatial index of entities nobody holds authority over, an `rstar`
/// tree of positions tagged with gids.
#[verifier::external_body]
pub struct SpatialIndex {
    tree: RTree<GeomWithData<[i64; 2], u64>>,
}

/// The points a spatial index holds.
pub uninterp spec fn tree_points(t: SpatialIndex) -> Multiset<TreePoint>;

/// Every point of `m` has both coordinates in reach.
pub open spec fn points_in_reach(m: Multiset<TreePoint>) -> bool {
    forall|p: TreePoint| #[trigger] m.count(p) > 0 ==> in_reach(p.0) && in_reach(p.1)
}

/// `p` lies within squared distance `r2` of `(x, y)`.
pub open spec fn within(p: TreePoint, x: i64, y: i64, r2: int) -> bool {
    (p.0 - x) * (p.0 - x) + (p.1 - y) * (p.1 - y) <= r2
}

/// `RTree::new`: an empty tree.
#[verifier::external_body]
fn tree_new() -> (r: SpatialIndex)
    ensures
        tree_points(r) == Multiset::<TreePoint>::empty(),
{
    SpatialIndex { tree: RTree::new() }
}

/// `RTree::size`: the number of points.
#[verifier::external_body]
fn tree_size(t: &SpatialIndex) -> (r: usize)
    ensures
        r == tree_points(*t).len(),
{
    t.tree.size()
}

/// `RTree::insert`: adds a point.
#[verifier::external_body]
fn tree_insert(t: &mut SpatialIndex, p: TreePoint)
    requires
        points_in_reach(tree_points(*old(t))),
        in_reach(p.0) && in_reach(p.1),
    ensures
        tree_points(*final(t)) == tree_points(*old(t)).insert(p),
{
    t.tree.insert(GeomWithData::new([p.0, p.1], p.2))
}

/// `RTree::remove`: takes out one point equal to `p`, if there is one.
#[verifier::external_body]
fn tree_remove(t: &mut SpatialIndex, p: TreePoint) -> (r: bool)
    ensures
        r == (tree_points(*old(t)).count(p) > 0),
        tree_points(*final(t)) == tree_points(*old(t)).remove(p),
{
    t.tree.remove(&GeomWithData::new([p.0, p.1], p.2)).is_some()
}

/// `RTree::drain_within_distance`: takes out and hands back, in no set
/// order, every point within squared distance `r2` of `(x, y)`.
#[verifier::external_body]
fn tree_drain_within(t: &mut SpatialIndex, x: i64, y: i64, r2: i64) -> (r: Vec<TreePoint>)
    requires
        points_in_reach(tree_points(*old(t))),
        in_reach(x) && in_reach(y),
    ensures
        forall|p: TreePoint| #[trigger] r@.to_multiset().count(p)
            == if within(p, x, y, r2 as int) { tree_points(*old(t)).count(p) } else { 0 },
        forall|p: TreePoint| #[trigger] tree_points(*final(t)).count(p)
            == if within(p, x, y, r2 as int) { 0 } else { tree_points(*old(t)).count(p) },
{
    t.tree.drain_within_distance([x, y], r2).map(|g| (g.geom()[0], g.geom()[1], g.data)).collect()
}

/// A physics body's state: position, angle and velocities, each as the bit
/// pattern of the game's `f32`.
#[derive(Clone, Copy)]
pub struct PhysBodyInfo {
    pub x: u32,
    pub y: u32,
    pub angle: u32,
    pub vx: u32,
    pub vy: u32,
    pub av: u32,
}

/// A variable the game keeps in step on an entity: its name, its text, its
/// integer, its float (as the `f32` bit pattern) and its flag.
pub struct SyncedVar {
    pub name: String,
    pub value: String,
    pub int_value: i32,
    pub float_bits: u32,
    pub flag: bool,
}

/// Everything the proxy keeps of an entity. Health is the bit pattern of
/// the game's `f32`.
pub struct FullEntityData {
    pub gid: Gid,
    pub pos: WorldPos,
    pub data: EntitySpawnInfo,
    pub wand: Option<Vec<u8>>,
    pub hp: u32,
    pub max_hp: Option<u32>,
    pub drops_gold: bool,
    pub is_charmed: bool,
    pub counter: u8,
    pub phys: Vec<Option<PhysBodyInfo>>,
    pub synced_var: Vec<SyncedVar>,
}

/// New state for an entity its holder reports.
pub struct UpdatePosition {
    pub gid: Gid,
    pub pos: WorldPos,
    pub counter: u8,
    pub is_charmed: bool,
    pub hp: u32,
    pub max_hp: Option<u32>,
    pub phys: Vec<Option<PhysBodyInfo>>,
    pub synced_var: Vec<SyncedVar>,
}

/// A report about an entity: new state, or all of it.
pub enum UpdateOrUpload {
    Update(UpdatePosition),
    Upload(FullEntityData),
}

/// Messages from a peer's game to the proxy about distributed entities.
pub enum DesToProxy {
    UpdateWand(Gid, Option<Vec<u8>>),
    DeleteEntity(Gid, Option<Lid>),
    ReleaseAuthority(Gid),
    RequestAuthority { pos: WorldPos },
    UpdatePosition(UpdateOrUpload),
    UpdatePositions(Vec<UpdateOrUpload>),
    TransferAuthorityTo(Gid, PeerKey),
}

/// Messages from the proxy to a peer's game about distributed entities.
pub enum ProxyToDes {
    GotAuthority(FullEntityData),
    GotAuthoritys(Vec<FullEntityData>),
    DeleteEntity(Lid),
}

/// The two spawn descriptions say the same.
pub open spec fn same_spawn(a: EntitySpawnInfo, b: EntitySpawnInfo) -> bool {
    match (a, b) {
        (EntitySpawnInfo::Filename(s), EntitySpawnInfo::Filename(t)) => s@ == t@,
        (
            EntitySpawnInfo::Serialized { serialized_at: x, data: d },
            EntitySpawnInfo::Serialized { serialized_at: y, data: e },
        ) => x == y && d@ == e@,
        _ => false,
    }
}

/// The two synced variables say the same.
pub open spec fn same_var(a: SyncedVar, b: SyncedVar) -> bool {
    &&& a.name@ == b.name@
    &&& a.value@ == b.value@
    &&& a.int_value == b.int_value
    &&& a.float_bits == b.float_bits
    &&& a.flag == b.flag
}

/// The two records say the same of an entity.
pub open spec fn same_entity(a: FullEntityData, b: FullEntityData) -> bool {
    &&& a.gid == b.gid
    &&& a.pos == b.pos
    &&& same_spawn(a.data, b.data)
    &&& (match (a.wand, b.wand) {
        (None, None) => true,
        (Some(x), Some(y)) => x@ == y@,
        _ => false,
    })
    &&& a.hp == b.hp
    &&& a.max_hp == b.max_hp
    &&& a.drops_gold == b.drops_gold
    &&& a.is_charmed == b.is_charmed
    &&& a.counter == b.counter
    &&& a.phys@ == b.phys@
    &&& a.synced_var@.len() == b.synced_var@.len()
    &&& forall|i: int| 0 <= i < a.synced_var@.len() ==> same_var(#[trigger] a.synced_var@[i], b.synced_var@[i])
}

fn copy_bytes(v: &Vec<u8>) -> (r: Vec<u8>)
    ensures
        r@ == v@,
{
    let mut out: Vec<u8> = Vec::new();
    let mut i: usize = 0;
    while i < v.len()
        invariant
            i <= v@.len(),
            out@ == v@.take(i as int),
        decreases v@.len() - i,
    {
        out.push(v[i]);
        i = i + 1;
        assert(out@ =~= v@.take(i as int));
    }
    assert(v@.take(i as int) =~= v@);
    out
}

fn copy_phys(v: &Vec<Option<PhysBodyInfo>>) -> (r: Vec<Option<PhysBodyInfo>>)
    ensures
        r@ == v@,
{
    let mut out: Vec<Option<PhysBodyInfo>> = Vec::new();
    let mut i: usize = 0;
    while i < v.len()
        invariant
            i <= v@.len(),
            out@ == v@.take(i as int),
        decreases v@.len() - i,
    {
        out.push(v[i]);
        i = i + 1;
        assert(out@ =~= v@.take(i as int));
    }
    assert(v@.take(i as int) =~= v@);
    out
}

impl SyncedVar {
    /// A copy.
    pub fn duplicate(&self) -> (r: Self)
        ensures
            same_var(r, *self),
    {
        SyncedVar {
            name: self.name.clone(),
            value: self.value.clone(),
            int_value: self.int_value,
            float_bits: self.float_bits,
            flag: self.flag,
        }
    }
}

impl FullEntityData {
    /// A copy.
    pub fn duplicate(&self) -> (r: Self)
        ensures
            same_entity(r, *self),
    {
        let data = match &self.data {
            EntitySpawnInfo::Filename(s) => EntitySpawnInfo::Filename(s.clone()),
            EntitySpawnInfo::Serialized { serialized_at, data } => EntitySpawnInfo::Serialized {
                serialized_at: *serialized_at,
                data: copy_bytes(data),
            },
        };
        let wand = match &self.wand {
            Some(w) => Some(copy_bytes(w)),
            None => None,
        };
        let mut vars: Vec<SyncedVar> = Vec::new();
        let mut i: usize = 0;
        while i < self.synced_var.len()
            invariant
                i <= self.synced_var@.len(),
                vars@.len() == i,
                forall|j: int| 0 <= j < i ==> same_var(#[trigger] vars@[j], self.synced_var@[j]),
            decreases self.synced_var@.len() - i,
        {
            vars.push(self.synced_var[i].duplicate());
            i = i + 1;
        }
        FullEntityData {
            gid: self.gid,
            pos: self.pos,
            data,
            wand,
            hp: self.hp,
            max_hp: self.max_hp,
            drops_gold: self.drops_gold,
            is_charmed: self.is_charmed,
            counter: self.counter,
            phys: copy_phys(&self.phys),
            synced_var: vars,
        }
    }
}

/// A position the spatial index can take.
pub open spec fn pos_in_reach(p: WorldPos) -> bool {
    in_reach(p.x as i64) && in_reach(p.y as i64)
}

/// The point of the spatial index that stands for entity `e`.
pub open spec fn point_of(e: FullEntityData) -> TreePoint {
    (e.pos.x as i64, e.pos.y as i64, e.gid.0)
}

/// What the manager holds: entities by gid, the holder of each entity held,
/// and the spatial index's points.
pub struct DesState {
    pub store: Map<u64, FullEntityData>,
    pub authority: Map<u64, PeerKey>,
    pub points: Multiset<TreePoint>,
}

/// `points` without the point of entity `gid`, as `store` places it.
pub open spec fn tree_without(store: Map<u64, FullEntityData>, points: Multiset<TreePoint>, gid: u64) -> Multiset<TreePoint> {
    if store.contains_key(gid) {
        points.remove(point_of(store[gid]))
    } else {
        points
    }
}

/// `points` with the point of entity `gid`, as `store` places it, held once.
pub open spec fn tree_with(store: Map<u64, FullEntityData>, points: Multiset<TreePoint>, gid: u64) -> Multiset<TreePoint> {
    if store.contains_key(gid) {
        points.remove(point_of(store[gid])).insert(point_of(store[gid]))
    } else {
        points
    }
}

/// Putting an entity back into the spatial index never leaves two copies
/// of its point where there was at most one, and doing it again changes
/// nothing.
pub proof fn lemma_release_adds_once(store: Map<u64, FullEntityData>, points: Multiset<TreePoint>, gid: u64)
    requires
        store.contains_key(gid),
    ensures
        tree_with(store, points, gid).count(point_of(store[gid]))
            == if points.count(point_of(store[gid])) == 0 { 1 } else { points.count(point_of(store[gid])) },
        forall|p: TreePoint| p != point_of(store[gid]) ==> #[trigger] tree_with(store, points, gid).count(p) == points.count(p),
        tree_with(store, tree_with(store, points, gid), gid) == tree_with(store, points, gid),
{
    let q = point_of(store[gid]);
    let once = tree_with(store, points, gid);
    assert(once.remove(q).insert(q) =~= once);
}

/// Entity `e` with the new state `u` reports.
pub open spec fn updated_entity(e: FullEntityData, u: UpdatePosition) -> FullEntityData {
    FullEntityData {
        gid: e.gid,
        pos: u.pos,
        data: e.data,
        wand: e.wand,
        hp: u.hp,
        max_hp: u.max_hp,
        drops_gold: e.drops_gold,
        is_charmed: u.is_charmed,
        counter: u.counter,
        phys: u.phys,
        synced_var: u.synced_var,
    }
}

/// Entity `e` with wand `w`.
pub open spec fn with_wand(e: FullEntityData, w: Option<Vec<u8>>) -> FullEntityData {
    FullEntityData {
        gid: e.gid,
        pos: e.pos,
        data: e.data,
        wand: w,
        hp: e.hp,
        max_hp: e.max_hp,
        drops_gold: e.drops_gold,
        is_charmed: e.is_charmed,
        counter: e.counter,
        phys: e.phys,
        synced_var: e.synced_var,
    }
}

/// The state after report `u` from peer `source`: an upload stores the
/// entity and gives `source` authority; an update takes the entity out of
/// the spatial index and, when it is stored, takes the reported state.
pub open spec fn after_update(st: DesState, u: UpdateOrUpload, source: PeerKey) -> DesState {
    match u {
        UpdateOrUpload::Upload(f) => DesState {
            store: st.store.insert(f.gid.0, f),
            authority: st.authority.insert(f.gid.0, source),
            points: st.points,
        },
        UpdateOrUpload::Update(p) => DesState {
            store: if st.store.contains_key(p.gid.0) {
                st.store.insert(p.gid.0, updated_entity(st.store[p.gid.0], p))
            } else {
                st.store
            },
            authority: st.authority,
            points: tree_without(st.store, st.points, p.gid.0),
        },
    }
}

/// A report from an entity's holder replaces, in the stored record, every
/// field the report carries (position, counter, charm, health, maximum
/// health, physics bodies, synced variables) by the reported value, and
/// keeps the rest (gid, spawn data, wand, gold drop); nothing else in the
/// store changes, and nobody's authority changes. A report about an entity
/// the store does not hold changes no record.
pub proof fn lemma_update_takes_report(st: DesState, p: UpdatePosition, source: PeerKey)
    ensures
        ({
            let g = p.gid.0;
            let st2 = after_update(st, UpdateOrUpload::Update(p), source);
            &&& st2.authority == st.authority
            &&& st.store.contains_key(g) ==> {
                let e0 = st.store[g];
                let e1 = st2.store[g];
                &&& st2.store.contains_key(g)
                &&& e1.pos == p.pos
                &&& e1.counter == p.counter
                &&& e1.is_charmed == p.is_charmed
                &&& e1.hp == p.hp
                &&& e1.max_hp == p.max_hp
                &&& e1.phys == p.phys
                &&& e1.synced_var == p.synced_var
                &&& e1.gid == e0.gid
                &&& e1.data == e0.data
                &&& e1.wand == e0.wand
                &&& e1.drops_gold == e0.drops_gold
                &&& forall|k: u64| k != g ==> (#[trigger] st2.store.contains_key(k) == st.store.contains_key(k)
                    && (st.store.contains_key(k) ==> st2.store[k] == st.store[k]))
            }
            &&& !st.store.contains_key(g) ==> st2.store == st.store
        }),
{
}

/// The state after the reports `us`, in order.
pub open spec fn after_updates(st: DesState, us: Seq<UpdateOrUpload>, source: PeerKey) -> DesState
    decreases us.len(),
{
    if us.len() == 0 {
        st
    } else {
        after_update(after_updates(st, us.drop_last(), source), us.last(), source)
    }
}

/// The positions a report carries are in reach.
pub open spec fn report_in_reach(u: UpdateOrUpload) -> bool {
    match u {
        UpdateOrUpload::Upload(f) => pos_in_reach(f.pos),
        UpdateOrUpload::Update(p) => pos_in_reach(p.pos),
    }
}

/// The positions a message carries are in reach.
pub open spec fn message_in_reach(msg: DesToProxy) -> bool {
    match msg {
        DesToProxy::RequestAuthority { pos } => pos_in_reach(pos),
        DesToProxy::UpdatePosition(u) => report_in_reach(u),
        DesToProxy::UpdatePositions(us) => forall|i: int| 0 <= i < us@.len() ==> report_in_reach(#[trigger] us@[i]),
        _ => true,
    }
}

/// `a` with every gid of `ds` held by `source`, in order.
pub open spec fn granted(a: Map<u64, PeerKey>, ds: Seq<TreePoint>, source: PeerKey) -> Map<u64, PeerKey>
    decreases ds.len(),
{
    if ds.len() == 0 {
        a
    } else {
        granted(a, ds.drop_last(), source).insert(ds.last().2, source)
    }
}

/// The gids of `ds` that `store` holds, in order.
pub open spec fn stored_gids(ds: Seq<TreePoint>, store: Map<u64, FullEntityData>) -> Seq<u64>
    decreases ds.len(),
{
    if ds.len() == 0 {
        Seq::empty()
    } else if store.contains_key(ds.last().2) {
        stored_gids(ds.drop_last(), store).push(ds.last().2)
    } else {
        stored_gids(ds.drop_last(), store)
    }
}

/// `recs` are copies of the records `store` holds for `gids`, in order.
pub open spec fn copies_of(recs: Seq<FullEntityData>, gids: Seq<u64>, store: Map<u64, FullEntityData>) -> bool {
    &&& recs.len() == gids.len()
    &&& forall|i: int| 0 <= i < gids.len() ==> same_entity(#[trigger] recs[i], store[gids[i]])
}

/// The proxy's manager of distributed entities.
pub struct DesManager {
    is_host: bool,
    entities: HashMap<u64, FullEntityData>,
    tree: SpatialIndex,
    authority: HashMap<u64, PeerKey>,
    pending_messages: Vec<(PeerKey, ProxyToDes)>,
}

impl DesManager {
    /// The entities, by gid.
    pub closed spec fn store(self) -> Map<u64, FullEntityData> {
        self.entities@
    }

    /// The holder of each entity held, by gid.
    pub closed spec fn holders(self) -> Map<u64, PeerKey> {
        self.authority@
    }

    /// The spatial index's points.
    pub closed spec fn points(self) -> Multiset<TreePoint> {
        tree_points(self.tree)
    }

    /// The replies waiting to be sent, each with its peer.
    pub closed spec fn pending(self) -> Seq<(PeerKey, ProxyToDes)> {
        self.pending_messages@
    }

    /// Whether this proxy hosts the game.
    pub closed spec fn host(self) -> bool {
        self.is_host
    }

    /// Store, holders and points together.
    pub open spec fn state(self) -> DesState {
        DesState { store: self.store(), authority: self.holders(), points: self.points() }
    }

    /// Each entity is stored under its gid, and every position is in reach.
    pub open spec fn wf(self) -> bool {
        &&& points_in_reach(self.points())
        &&& forall|g: u64| #[trigger] self.store().contains_key(g) ==> self.store()[g].gid.0 == g && pos_in_reach(self.store()[g].pos)
    }

    /// Takes the point of entity `gid` out of the spatial index.
    fn remove_gid_from_tree(&mut self, gid: Gid)
        requires
            old(self).wf(),
        ensures
            final(self).wf(),
            final(self).store() == old(self).store(),
            final(self).holders() == old(self).holders(),
            final(self).pending() == old(self).pending(),
            final(self).host() == old(self).host(),
            final(self).points() == tree_without(old(self).store(), old(self).points(), gid.0),
    {
        match self.entities.get(&gid.0) {
            Some(entity) => {
                let p: TreePoint = (entity.pos.x as i64, entity.pos.y as i64, gid.0);
                tree_remove(&mut self.tree, p);
            },
            None => {},
        }
    }

    /// Puts the point of entity `gid` into the spatial index, once.
    fn add_gid_to_tree(&mut self, gid: Gid)
        requires
            old(self).wf(),
        ensures
            final(self).wf(),
            final(self).store() == old(self).store(),
            final(self).holders() == old(self).holders(),
            final(self).pending() == old(self).pending(),
            final(self).host() == old(self).host(),
            final(self).points() == tree_with(old(self).store(), old(self).points(), gid.0),
    {
        match self.entities.get(&gid.0) {
            Some(entity) => {
                let p: TreePoint = (entity.pos.x as i64, entity.pos.y as i64, gid.0);
                tree_remove(&mut self.tree, p);
                tree_insert(&mut self.tree, p);
            },
            None => {},
        }
    }
}

/// The entities of `v` by gid; a later record of a gid replaces an earlier one.
pub open spec fn loaded(v: Seq<FullEntityData>) -> Map<u64, FullEntityData>
    decreases v.len(),
{
    if v.len() == 0 {
        Map::empty()
    } else {
        loaded(v.drop_last()).insert(v.last().gid.0, v.last())
    }
}

/// `points` hold the point of each entity of `store` once, and nothing else.
pub open spec fn indexes(points: Multiset<TreePoint>, store: Map<u64, FullEntityData>) -> bool {
    forall|p: TreePoint| #[trigger] points.count(p)
        == if store.contains_key(p.2) && point_of(store[p.2]) == p { 1nat } else { 0nat }
}

impl DesManager {
    /// A manager that knows the entities of `entities` (a later record of a
    /// gid replacing an earlier one), with every one of them in the spatial
    /// index, nobody holding any, and nothing queued.
    pub fn new(is_host: bool, entities: Vec<FullEntityData>) -> (r: Self)
        requires
            forall|i: int| 0 <= i < entities@.len() ==> pos_in_reach(#[trigger] entities@[i].pos),
        ensures
            r.wf(),
            r.host() == is_host,
            r.store() == loaded(entities@),
            r.holders() == Map::<u64, PeerKey>::empty(),
            indexes(r.points(), r.store()),
            r.pending() == Seq::<(PeerKey, ProxyToDes)>::empty(),
    {
        let ghost all = entities@;
        let mut m = DesManager {
            is_host,
            entities: HashMap::new(),
            tree: tree_new(),
            authority: HashMap::new(),
            pending_messages: Vec::new(),
        };
        assert(all.len() == entities.len());
        let mut rest = entities;
        let mut i: usize = 0;
        proof {
            assert(rest@ =~= all.skip(0));
            assert(m.store() =~= loaded(all.take(0)));
        }
        while rest.len() > 0
            invariant
                i <= all.len(),
                all.len() <= usize::MAX,
                rest@ == all.skip(i as int),
                forall|j: int| 0 <= j < all.len() ==> pos_in_reach(#[trigger] all[j].pos),
                m.wf(),
                m.host() == is_host,
                m.store() == loaded(all.take(i as int)),
                m.holders() == Map::<u64, PeerKey>::empty(),
                indexes(m.points(), m.store()),
                m.pending() == Seq::<(PeerKey, ProxyToDes)>::empty(),
            decreases rest@.len(),
        {
            let e = rest.remove(0);
            proof {
                assert(e == all[i as int]);
                assert(all.take(i + 1).drop_last() =~= all.take(i as int));
                assert(all.take(i + 1).last() == all[i as int]);
                assert(rest@ =~= all.skip(i + 1));
            }
            let ghost st = m.store();
            let ghost pts = m.points();
            let g = e.gid.0;
            m.remove_gid_from_tree(e.gid);
            let p: TreePoint = (e.pos.x as i64, e.pos.y as i64, g);
            tree_insert(&mut m.tree, p);
            m.entities.insert(g, e);
            proof {
                assert(p == point_of(e));
                assert forall|q: TreePoint| #[trigger] m.points().count(q)
                    == if m.store().contains_key(q.2) && point_of(m.store()[q.2]) == q { 1nat } else { 0nat } by {
                    assert(pts.count(q) == if st.contains_key(q.2) && point_of(st[q.2]) == q { 1nat } else { 0nat });
                    if st.contains_key(g) {
                        assert(pts.count(point_of(st[g])) == 1);
                    }
                }
            }
            i = i + 1;
        }
        proof {
            assert(all.take(i as int) =~= all);
        }
        m
    }

    /// Hands over the queued replies and empties the queue.
    pub fn pending_messages(&mut self) -> (r: Vec<(PeerKey, ProxyToDes)>)
        requires
            old(self).wf(),
        ensures
            final(self).wf(),
            r@ == old(self).pending(),
            final(self).pending() == Seq::<(PeerKey, ProxyToDes)>::empty(),
            final(self).state() == old(self).state(),
            final(self).host() == old(self).host(),
    {
        let mut out: Vec<(PeerKey, ProxyToDes)> = Vec::new();
        std::mem::swap(&mut out, &mut self.pending_messages);
        out
    }

    /// Forgets every entity, holder and queued reply.
    pub fn reset(&mut self)
        ensures
            final(self).wf(),
            final(self).store() == Map::<u64, FullEntityData>::empty(),
            final(self).holders() == Map::<u64, PeerKey>::empty(),
            final(self).points() == Multiset::<TreePoint>::empty(),
            final(self).pending() == Seq::<(PeerKey, ProxyToDes)>::empty(),
            final(self).host() == old(self).host(),
    {
        self.entities = HashMap::new();
        self.tree = tree_new();
        self.authority.clear();
        self.pending_messages.clear();
    }
}

/// The gids `holders` gives to peer `source`.
pub open spec fn held_by(holders: Map<u64, PeerKey>, source: PeerKey) -> Set<u64> {
    Set::new(|g: u64| holders.contains_key(g) && holders[g] == source)
}

impl DesManager {
    /// The gids peer `source` holds, in no set order.
    fn gids_held_by(&self, source: PeerKey) -> (r: Vec<u64>)
        ensures
            forall|g: u64| r@.contains(g) <==> held_by(self.holders(), source).contains(g),
    {
        let mut out: Vec<u64> = Vec::new();
        let ghost mut n: int = 0;
        let ghost ks: Seq<&u64> = vstd::std_specs::iter::IteratorSpec::remaining(
            &vstd::std_specs::hash::spec_keys_iter(&self.authority),
        );
        for g in it: self.authority.keys()
            invariant
                n == it.index(),
                ks == it.seq(),
                forall|k: u64| out@.contains(k) ==> held_by(self.holders(), source).contains(k),
                forall|j: int| 0 <= j < n ==> (held_by(self.holders(), source).contains(*ks[j])
                    ==> out@.contains(*ks[j])),
        {
            let ghost prev = out@;
            assert(*g == *ks[n]);
            match self.authority.get(g) {
                Some(h) => {
                    if *h == source {
                        out.push(*g);
                        assert(out@ == prev.push(*g));
                    }
                },
                None => {},
            }
            proof {
                assert forall|k: u64| out@.contains(k) implies held_by(self.holders(), source).contains(k) by {
                    if prev.contains(k) {
                    } else {
                        assert(k == *g);
                    }
                }
                assert forall|j: int| 0 <= j < n + 1 && held_by(self.holders(), source).contains(*ks[j])
                    implies out@.contains(*ks[j]) by {
                    if j < n {
                        assert(prev.contains(*ks[j]));
                        let w = choose|w: int| 0 <= w < prev.len() && prev[w] == *ks[j];
                        assert(out@[w] == *ks[j]);
                    } else {
                        assert(out@[out@.len() - 1] == *ks[j]);
                    }
                }
                n = n + 1;
            }
        }
        proof {
            assert forall|g: u64| held_by(self.holders(), source).contains(g) implies out@.contains(g) by {
                assert(self.authority@.dom().contains(g));
                assert(ks.unref().to_set().contains(g));
                let j = choose|j: int| 0 <= j < ks.len() && *ks[j] == g;
            }
        }
        out
    }
}

/// What a sequence holds after a push: what it held and the new item.
proof fn lemma_push_holds(s: Seq<u64>, x: u64)
    ensures
        forall|k: u64| #[trigger] s.push(x).contains(k) <==> (s.contains(k) || k == x),
        s.push(x).to_set() == s.to_set().insert(x),
{
    assert forall|k: u64| #[trigger] s.push(x).contains(k) <==> (s.contains(k) || k == x) by {
        if s.contains(k) {
            let w = choose|w: int| 0 <= w < s.len() && s[w] == k;
            assert(s.push(x)[w] == k);
        }
        if k == x {
            assert(s.push(x)[s.len() as int] == k);
        }
        if s.push(x).contains(k) {
            let w = choose|w: int| 0 <= w < s.push(x).len() && s.push(x)[w] == k;
            if w < s.len() {
                assert(s[w] == k);
            }
        }
    }
    assert(s.push(x).to_set() =~= s.to_set().insert(x));
}

/// The count of point `p` after the entities of `freed` went back into the
/// spatial index: each one's point, as `store` places it, is there at least once.
pub open spec fn count_after_freeing(points: Multiset<TreePoint>, store: Map<u64, FullEntityData>, freed: Set<u64>, p: TreePoint) -> nat {
    if freed.contains(p.2) && store.contains_key(p.2) && point_of(store[p.2]) == p && points.count(p) == 0 {
        1
    } else {
        points.count(p)
    }
}

impl DesManager {
    /// Peer `source` left: nobody holds the entities it held any more, and
    /// they go back into the spatial index.
    pub fn noita_disconnected(&mut self, source: PeerKey)
        requires
            old(self).wf(),
        ensures
            final(self).wf(),
            final(self).store() == old(self).store(),
            final(self).holders() == old(self).holders().remove_keys(held_by(old(self).holders(), source)),
            forall|p: TreePoint| #[trigger] final(self).points().count(p)
                == count_after_freeing(old(self).points(), old(self).store(), held_by(old(self).holders(), source), p),
            final(self).pending() == old(self).pending(),
            final(self).host() == old(self).host(),
    {
        let freed = self.gids_held_by(source);
        let ghost m0 = *self;
        let mut i: usize = 0;
        while i < freed.len()
            invariant
                i <= freed@.len(),
                self.wf(),
                self.store() == m0.store(),
                self.pending() == m0.pending(),
                self.host() == m0.host(),
                forall|g: u64| #[trigger] self.holders().contains_key(g)
                    == (m0.holders().contains_key(g) && !freed@.take(i as int).contains(g)),
                forall|g: u64| #[trigger] self.holders().contains_key(g) ==> self.holders()[g] == m0.holders()[g],
                forall|p: TreePoint| #[trigger] self.points().count(p)
                    == count_after_freeing(m0.points(), m0.store(), freed@.take(i as int).to_set(), p),
            decreases freed@.len() - i,
        {
            let g = freed[i];
            let ghost pts = self.points();
            let ghost hs = self.holders();
            proof {
                assert(freed@.take(i + 1) =~= freed@.take(i as int).push(g));
                lemma_push_holds(freed@.take(i as int), g);
            }
            self.authority.remove(&g);
            self.add_gid_to_tree(Gid(g));
            proof {
                assert(self.holders() == hs.remove(g));
                assert forall|k: u64| #[trigger] self.holders().contains_key(k)
                    == (m0.holders().contains_key(k) && !freed@.take(i + 1).contains(k)) by {
                    assert(hs.contains_key(k) == (m0.holders().contains_key(k) && !freed@.take(i as int).contains(k)));
                }
                assert forall|k: u64| #[trigger] self.holders().contains_key(k) implies self.holders()[k] == m0.holders()[k] by {
                    assert(hs.contains_key(k));
                }
                assert forall|q: TreePoint| #[trigger] self.points().count(q)
                    == count_after_freeing(m0.points(), m0.store(), freed@.take(i + 1).to_set(), q) by {
                    assert(pts.count(q) == count_after_freeing(m0.points(), m0.store(), freed@.take(i as int).to_set(), q));
                }
            }
            i = i + 1;
        }
        proof {
            assert(freed@.take(i as int) =~= freed@);
            assert(freed@.to_set() =~= held_by(m0.holders(), source));
            assert(self.holders() =~= m0.holders().remove_keys(held_by(m0.holders(), source)));
        }
    }
}

impl DesManager {
    /// Takes in a report from peer `source`, as `after_update` says.
    fn handle_update(&mut self, update: UpdateOrUpload, source: PeerKey)
        requires
            old(self).wf(),
            report_in_reach(update),
        ensures
            final(self).wf(),
            final(self).state() == after_update(old(self).state(), update, source),
            final(self).pending() == old(self).pending(),
            final(self).host() == old(self).host(),
    {
        let ghost st = self.state();
        match update {
            UpdateOrUpload::Upload(full) => {
                let g = full.gid.0;
                self.authority.insert(g, source);
                self.entities.insert(g, full);
                proof {
                    assert(self.state() == after_update(st, update, source));
                }
            },
            UpdateOrUpload::Update(u) => {
                let ghost uu = u;
                let g = u.gid.0;
                self.remove_gid_from_tree(u.gid);
                let UpdatePosition { gid, pos, counter, is_charmed, hp, max_hp, phys, synced_var } = u;
                match self.entities.remove(&g) {
                    Some(entity) => {
                        let ghost e = entity;
                        let FullEntityData { gid: egid, pos: _, data, wand, hp: _, max_hp: _, drops_gold, is_charmed: _, counter: _, phys: _, synced_var: _ } = entity;
                        let next = FullEntityData {
                            gid: egid,
                            pos,
                            data,
                            wand,
                            hp,
                            max_hp,
                            drops_gold,
                            is_charmed,
                            counter,
                            phys,
                            synced_var,
                        };
                        proof {
                            assert(next == updated_entity(e, uu));
                        }
                        self.entities.insert(g, next);
                        proof {
                            assert(self.store() =~= st.store.insert(g, updated_entity(st.store[g], uu)));
                        }
                    },
                    None => {
                        proof {
                            assert(self.store() =~= st.store);
                        }
                    },
                }
            },
        }
    }
}

impl DesManager {
    /// Gives peer `source` authority over every entity left unheld within
    /// `REQUEST_AUTHORITY_RADIUS` of `pos`, and queues their data for it.
    fn request_authority(&mut self, source: PeerKey, pos: WorldPos)
        requires
            old(self).wf(),
            pos_in_reach(pos),
        ensures
            final(self).wf(),
            final(self).host() == old(self).host(),
            old(self).points().len() == 0 ==> final(self).state() == old(self).state() && final(self).pending() == old(self).pending(),
            old(self).points().len() > 0 ==> exists|ds: Seq<TreePoint>| #[trigger] authority_granted(*old(self), *final(self), source, pos, ds),
    {
        if tree_size(&self.tree) == 0 {
            return;
        }
        let radius = REQUEST_AUTHORITY_RADIUS as i64;
        let x = pos.x as i64;
        let y = pos.y as i64;
        let ghost before = *self;
        let drained = tree_drain_within(&mut self.tree, x, y, radius * radius);
        proof {
            assert forall|p: TreePoint| #[trigger] self.points().count(p) > 0 implies in_reach(p.0) && in_reach(p.1) by {
                assert(before.points().count(p) > 0);
            }
        }
        let mut auths: Vec<FullEntityData> = Vec::new();
        let mut i: usize = 0;
        while i < drained.len()
            invariant
                i <= drained@.len(),
                self.wf(),
                self.store() == before.store(),
                forall|p: TreePoint| #[trigger] self.points().count(p)
                    == if within(p, x, y, request_radius_2()) { 0 } else { before.points().count(p) },
                forall|p: TreePoint| #[trigger] drained@.to_multiset().count(p)
                    == if within(p, x, y, request_radius_2()) { before.points().count(p) } else { 0 },
                x == pos.x as i64,
                y == pos.y as i64,
                self.pending() == before.pending(),
                self.host() == before.host(),
                self.holders() == granted(before.holders(), drained@.take(i as int), source),
                copies_of(auths@, stored_gids(drained@.take(i as int), before.store()), before.store()),
            decreases drained@.len() - i,
        {
            let g = drained[i].2;
            let ghost prev = auths@;
            proof {
                assert(drained@.take(i + 1).drop_last() =~= drained@.take(i as int));
            }
            self.authority.insert(g, source);
            match self.entities.get(&g) {
                Some(entity) => {
                    auths.push(entity.duplicate());
                },
                None => {},
            }
            proof {
                let gids = stored_gids(drained@.take(i + 1), before.store());
                assert forall|j: int| 0 <= j < gids.len() implies same_entity(#[trigger] auths@[j], before.store()[gids[j]]) by {
                    if j < prev.len() {
                        assert(auths@[j] == prev[j]);
                    }
                }
            }
            i = i + 1;
        }
        proof {
            assert(drained@.take(drained@.len() as int) =~= drained@);
        }
        let ghost gids = stored_gids(drained@, before.store());
        let ghost all = auths@;
        let n = auths.len();
        if n == 1 {
            let a = auths.pop().unwrap();
            proof {
                assert(a == all[0]);
            }
            self.pending_messages.push((source, ProxyToDes::GotAuthority(a)));
            proof {
                assert(self.pending().drop_last() =~= before.pending());
            }
        } else if n > 1 {
            self.pending_messages.push((source, ProxyToDes::GotAuthoritys(auths)));
            proof {
                assert(self.pending().drop_last() =~= before.pending());
            }
        }
        proof {
            assert(request_radius_2() == radius * radius);
            assert(authority_granted(before, *self, source, pos, drained@));
        }
    }
}

/// Squared radius of an authority request.
pub open spec fn request_radius_2() -> int {
    REQUEST_AUTHORITY_RADIUS as int * REQUEST_AUTHORITY_RADIUS as int
}

/// `m1` is `m0` after peer `source` asked for authority around `pos` and
/// the spatial index handed out the points `ds`, in that order: `ds` are
/// exactly the points within the request radius, they leave the index,
/// `source` holds each of their entities, and the stored ones among them
/// are queued for `source`, alone as `GotAuthority` or together as
/// `GotAuthoritys`.
pub open spec fn authority_granted(m0: DesManager, m1: DesManager, source: PeerKey, pos: WorldPos, ds: Seq<TreePoint>) -> bool {
    let x = pos.x as i64;
    let y = pos.y as i64;
    let gids = stored_gids(ds, m0.store());
    &&& forall|p: TreePoint| #[trigger] ds.to_multiset().count(p)
        == if within(p, x, y, request_radius_2()) { m0.points().count(p) } else { 0 }
    &&& forall|p: TreePoint| #[trigger] m1.points().count(p)
        == if within(p, x, y, request_radius_2()) { 0 } else { m0.points().count(p) }
    &&& m1.store() == m0.store()
    &&& m1.holders() == granted(m0.holders(), ds, source)
    &&& gids.len() == 0 ==> m1.pending() == m0.pending()
    &&& gids.len() > 0 ==> {
        &&& m1.pending().len() == m0.pending().len() + 1
        &&& m1.pending().drop_last() == m0.pending()
        &&& m1.pending().last().0 == source
        &&& gids.len() == 1 ==> (m1.pending().last().1 matches ProxyToDes::GotAuthority(a) && same_entity(a, m0.store()[gids[0]]))
        &&& gids.len() > 1 ==> (m1.pending().last().1 matches ProxyToDes::GotAuthoritys(v) && copies_of(v@, gids, m0.store()))
    }
}

/// Every gid of `ds` is held by `source` in `granted(a, ds, source)`.
proof fn lemma_granted_holds(a: Map<u64, PeerKey>, ds: Seq<TreePoint>, source: PeerKey, x: TreePoint)
    requires
        ds.contains(x),
    ensures
        granted(a, ds, source).contains_key(x.2),
        granted(a, ds, source)[x.2] == source,
    decreases ds.len(),
{
    if ds.last() != x {
        let w = choose|w: int| 0 <= w < ds.len() && ds[w] == x;
        assert(ds.drop_last()[w] == x);
        lemma_granted_holds(a, ds.drop_last(), source, x);
    }
}

/// A stored entity whose point is among `ds` is among `stored_gids(ds, store)`.
proof fn lemma_stored_gid_listed(ds: Seq<TreePoint>, store: Map<u64, FullEntityData>, x: TreePoint)
    requires
        ds.contains(x),
        store.contains_key(x.2),
    ensures
        stored_gids(ds, store).contains(x.2),
    decreases ds.len(),
{
    if ds.last() == x {
        assert(stored_gids(ds, store).last() == x.2);
    } else {
        let w = choose|w: int| 0 <= w < ds.len() && ds[w] == x;
        assert(ds.drop_last()[w] == x);
        lemma_stored_gid_listed(ds.drop_last(), store, x);
        let prev = stored_gids(ds.drop_last(), store);
        let v = choose|v: int| 0 <= v < prev.len() && prev[v] == x.2;
        if store.contains_key(ds.last().2) {
            assert(stored_gids(ds, store)[v] == x.2);
        }
    }
}

/// An entity whose holder lets it go is handed to the next peer that asks
/// for authority at its position: `m1` is `m0` after the release of `gid`
/// (as `handle_noita_msg` states it), and `m2` is `m1` after `requester`
/// asked at the entity's position and the spatial index handed out `ds`.
/// Then `requester` holds the entity, and its record is among those queued
/// for `requester`.
pub proof fn lemma_released_entity_goes_to_next_requester(
    m0: DesManager,
    m1: DesManager,
    m2: DesManager,
    gid: u64,
    requester: PeerKey,
    ds: Seq<TreePoint>,
)
    requires
        m0.wf(),
        m0.store().contains_key(gid),
        m1.store() == m0.store(),
        m1.holders() == m0.holders().remove(gid),
        m1.points() == tree_with(m0.store(), m0.points(), gid),
        authority_granted(m1, m2, requester, m0.store()[gid].pos, ds),
    ensures
        m2.holders().contains_key(gid),
        m2.holders()[gid] == requester,
        stored_gids(ds, m1.store()).contains(gid),
        m2.pending().len() == m1.pending().len() + 1,
        m2.pending().last().0 == requester,
{
    let e = m0.store()[gid];
    let p = point_of(e);
    let x = e.pos.x as i64;
    let y = e.pos.y as i64;
    lemma_release_adds_once(m0.store(), m0.points(), gid);
    assert(m1.points().count(p) >= 1);
    assert(p.0 == x && p.1 == y);
    assert((p.0 - x) * (p.0 - x) + (p.1 - y) * (p.1 - y) == 0) by (nonlinear_arith)
        requires
            p.0 == x && p.1 == y,
    ;
    assert(request_radius_2() >= 0);
    assert(within(p, x, y, request_radius_2()));
    assert(ds.to_multiset().count(p) >= 1);
    ds.to_multiset_ensures();
    assert(ds.contains(p));
    lemma_granted_holds(m1.holders(), ds, requester, p);
    lemma_stored_gid_listed(ds, m1.store(), p);
}

impl DesManager {
    /// Applies the reports `us` from peer `source`, in order.
    fn handle_updates(&mut self, us: Vec<UpdateOrUpload>, source: PeerKey)
        requires
            old(self).wf(),
            forall|i: int| 0 <= i < us@.len() ==> report_in_reach(#[trigger] us@[i]),
        ensures
            final(self).wf(),
            final(self).state() == after_updates(old(self).state(), us@, source),
            final(self).pending() == old(self).pending(),
            final(self).host() == old(self).host(),
    {
        let ghost all = us@;
        let ghost st0 = self.state();
        assert(all.len() == us.len());
        let mut rest = us;
        let mut i: usize = 0;
        proof {
            assert(all.take(0) =~= Seq::<UpdateOrUpload>::empty());
            assert(rest@ =~= all.skip(0));
        }
        while rest.len() > 0
            invariant
                i <= all.len(),
                all.len() <= usize::MAX,
                rest@ == all.skip(i as int),
                self.wf(),
                self.state() == after_updates(st0, all.take(i as int), source),
                self.pending() == old(self).pending(),
                self.host() == old(self).host(),
                forall|j: int| 0 <= j < all.len() ==> report_in_reach(#[trigger] all[j]),
            decreases rest@.len(),
        {
            let u = rest.remove(0);
            proof {
                assert(u == all[i as int]);
                assert(all.take(i + 1).drop_last() =~= all.take(i as int));
                assert(all.take(i + 1).last() == all[i as int]);
                assert(rest@ =~= all.skip(i + 1));
            }
            self.handle_update(u, source);
            i = i + 1;
        }
        proof {
            assert(all.take(i as int) =~= all);
        }
    }

    /// Handles a message from peer `source`'s game:
    /// - a new wand replaces a stored entity's wand;
    /// - deleting a stored entity forgets it, its holder and its point in the
    ///   spatial index (the point is looked up while the entity is still
    ///   stored, so that no later request hands out an entity that is gone);
    ///   deleting an unknown one sends the local id back;
    /// - releasing authority unholds the entity and puts it back in the index;
    /// - a request for authority hands out the unheld entities around the
    ///   position (see `authority_granted`);
    /// - reports are applied in order (see `after_update`);
    /// - a transfer gives the entity to the new holder and sends it its data.
    pub fn handle_noita_msg(&mut self, source: PeerKey, msg: DesToProxy)
        requires
            old(self).wf(),
            message_in_reach(msg),
        ensures
            final(self).wf(),
            final(self).host() == old(self).host(),
            match msg {
                DesToProxy::UpdateWand(gid, wand) => {
                    &&& final(self).store() == if old(self).store().contains_key(gid.0) {
                        old(self).store().insert(gid.0, with_wand(old(self).store()[gid.0], wand))
                    } else {
                        old(self).store()
                    }
                    &&& final(self).holders() == old(self).holders()
                    &&& final(self).points() == old(self).points()
                    &&& final(self).pending() == old(self).pending()
                },
                DesToProxy::DeleteEntity(gid, ent) => if old(self).store().contains_key(gid.0) {
                    &&& final(self).store() == old(self).store().remove(gid.0)
                    &&& final(self).holders() == old(self).holders().remove(gid.0)
                    &&& final(self).points() == tree_without(old(self).store(), old(self).points(), gid.0)
                    &&& final(self).pending() == old(self).pending()
                } else {
                    &&& final(self).state() == old(self).state()
                    &&& final(self).pending() == match ent {
                        Some(l) => old(self).pending().push((source, ProxyToDes::DeleteEntity(l))),
                        None => old(self).pending(),
                    }
                },
                DesToProxy::ReleaseAuthority(gid) => {
                    &&& final(self).store() == old(self).store()
                    &&& final(self).holders() == old(self).holders().remove(gid.0)
                    &&& final(self).points() == tree_with(old(self).store(), old(self).points(), gid.0)
                    &&& final(self).pending() == old(self).pending()
                },
                DesToProxy::RequestAuthority { pos } => if old(self).points().len() == 0 {
                    final(self).state() == old(self).state() && final(self).pending() == old(self).pending()
                } else {
                    exists|ds: Seq<TreePoint>| #[trigger] authority_granted(*old(self), *final(self), source, pos, ds)
                },
                DesToProxy::UpdatePosition(u) => {
                    &&& final(self).state() == after_update(old(self).state(), u, source)
                    &&& final(self).pending() == old(self).pending()
                },
                DesToProxy::UpdatePositions(us) => {
                    &&& final(self).state() == after_updates(old(self).state(), us@, source)
                    &&& final(self).pending() == old(self).pending()
                },
                DesToProxy::TransferAuthorityTo(gid, peer) => if old(self).store().contains_key(gid.0) {
                    &&& final(self).store() == old(self).store()
                    &&& final(self).holders() == old(self).holders().insert(gid.0, peer)
                    &&& final(self).points() == old(self).points()
                    &&& final(self).pending().len() == old(self).pending().len() + 1
                    &&& final(self).pending().drop_last() == old(self).pending()
                    &&& final(self).pending().last().0 == peer
                    &&& final(self).pending().last().1 matches ProxyToDes::GotAuthority(a)
                        && same_entity(a, old(self).store()[gid.0])
                } else {
                    final(self).state() == old(self).state() && final(self).pending() == old(self).pending()
                },
            },
    {
        let ghost st = self.state();
        match msg {
            DesToProxy::UpdateWand(gid, wand) => {
                match self.entities.remove(&gid.0) {
                    Some(entity) => {
                        let ghost e = entity;
                        let FullEntityData { gid: egid, pos, data, wand: _, hp, max_hp, drops_gold, is_charmed, counter, phys, synced_var } = entity;
                        let next = FullEntityData { gid: egid, pos, data, wand, hp, max_hp, drops_gold, is_charmed, counter, phys, synced_var };
                        proof {
                            assert(next == with_wand(e, wand));
                        }
                        self.entities.insert(gid.0, next);
                        proof {
                            assert(self.store() =~= st.store.insert(gid.0, with_wand(st.store[gid.0], wand)));
                        }
                    },
                    None => {
                        proof {
                            assert(self.store() =~= st.store);
                        }
                    },
                }
            },
            DesToProxy::DeleteEntity(gid, ent) => {
                if self.entities.contains_key(&gid.0) {
                    self.remove_gid_from_tree(gid);
                    self.authority.remove(&gid.0);
                    self.entities.remove(&gid.0);
                } else {
                    match ent {
                        Some(l) => {
                            self.pending_messages.push((source, ProxyToDes::DeleteEntity(l)));
                        },
                        None => {},
                    }
                }
            },
            DesToProxy::ReleaseAuthority(gid) => {
                self.authority.remove(&gid.0);
                self.add_gid_to_tree(gid);
            },
            DesToProxy::RequestAuthority { pos } => {
                self.request_authority(source, pos);
            },
            DesToProxy::UpdatePosition(update) => {
                self.handle_update(update, source);
            },
            DesToProxy::UpdatePositions(updates) => {
                self.handle_updates(updates, source);
            },
            DesToProxy::TransferAuthorityTo(gid, peer) => {
                match self.entities.get(&gid.0) {
                    Some(entity) => {
                        let copy = entity.duplicate();
                        self.authority.insert(gid.0, peer);
                        self.pending_messages.push((peer, ProxyToDes::GotAuthority(copy)));
                        proof {
                            assert(self.pending().drop_last() =~= old(self).pending());
                        }
                    },
                    None => {},
                }
            },
        }
    }
}

} // verus!
