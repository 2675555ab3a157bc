//! What the game-side code remembers of the entity it is working on: the
//! entity's cached tags and, per cached component type, its components with
//! their enabled flag, variable name and tags. Switching to another entity
//! parks the current data in a cache keyed by entity id and takes the new
//! entity's data from the cache, or from the game when it is not there.
use vstd::prelude::*;
use vstd::string::{StringExecFns, StringSliceAdditionalSpecFns};
use smallvec::SmallVec;
use std::collections::HashMap;
use crate::api::{
    cached_component_index, cached_tag_index, component_tag_index, component_tag_name,
    list_holds, tag_bit, var_name_of_text, CachedComponent, CachedTag, ComponentID,
    ComponentTag, EngineError, EntityID, Tags, VarName, COMP_LEN,
};
use crate::api::{component_tags_from_list, entity_tags_from_list, fresh_error};
use crate::mod_files::{declared_names, names_closed, names_in_file};
use crate::text::str_eq;

verus! {

broadcast use vstd::std_specs::hash::group_hash_axioms;

/// Components of one type kept inline before the list spills to the heap.
pub const COMP_VEC_LEN: usize = 1;

/// Longest component list the cache grows: far below the length at which
/// `SmallVec::push` would report a capacity overflow.
pub const LIST_LIMIT: usize = 0x0100_0000;

/// The components of one entity and one cached type, held in a `SmallVec`.
#[verifier::external_body]
pub struct ComponentList {
    items: SmallVec<[ComponentData; COMP_VEC_LEN]>,
}

/// What a component list holds, in the order the game listed or added them.
pub uninterp spec fn list_items(v: ComponentList) -> Seq<ComponentData>;

/// `SmallVec::new`: an empty list.
#[verifier::external_body]
fn list_new() -> (r: ComponentList)
    ensures
        list_items(r) == Seq::<ComponentData>::empty(),
{
    ComponentList { items: SmallVec::new() }
}

/// `SmallVec::push`: appends one item. The crate panics only when the grown
/// capacity overflows, which `LIST_LIMIT` keeps out of reach.
#[verifier::external_body]
fn list_push(v: &mut ComponentList, c: ComponentData)
    requires
        list_items(*old(v)).len() < LIST_LIMIT,
    ensures
        list_items(*final(v)) == list_items(*old(v)).push(c),
{
    v.items.push(c)
}

/// `SmallVec::remove`: takes out the item at `i`, shifting the rest left.
#[verifier::external_body]
fn list_remove(v: &mut ComponentList, i: usize) -> (r: ComponentData)
    requires
        i < list_items(*old(v)).len(),
    ensures
        r == list_items(*old(v))[i as int],
        list_items(*final(v)) == list_items(*old(v)).remove(i as int),
{
    v.items.remove(i)
}

/// `SmallVec::as_slice`: the items, in order.
#[verifier::external_body]
fn list_slice(v: &ComponentList) -> (r: &[ComponentData])
    ensures
        r@ == list_items(*v),
{
    v.items.as_slice()
}

/// `SmallVec::as_mut_slice`: the items, in order, for writing in place.
#[verifier::external_body]
fn list_slice_mut(v: &mut ComponentList) -> (r: &mut [ComponentData])
    ensures
        r@ == list_items(*old(v)),
        final(r)@.len() == r@.len(),
        list_items(*final(v)) == final(r)@,
{
    v.items.as_mut_slice()
}

/// What the cache remembers of one component.
#[derive(Clone, Copy)]
pub struct ComponentData {
    pub id: ComponentID,
    pub enabled: bool,
    pub name: VarName,
    pub tags: Tags<u16>,
}

impl ComponentData {
    /// The remembered data of component `id`, from the game's replies about
    /// it: whether it is enabled (no when the query failed), its variable
    /// name (read only for variable storage components; empty when the query
    /// failed) and its comma-separated tag list (empty when the query failed).
    pub fn new(
        id: ComponentID,
        is_var: bool,
        enabled: Result<bool, EngineError>,
        var_name: Result<String, EngineError>,
        tag_list: Result<String, EngineError>,
    ) -> (r: Self)
        ensures
            r.id == id,
            r.enabled == (enabled matches Ok(b) && b),
            r.name == (if !is_var {
                VarName::NoName
            } else {
                match var_name {
                    Ok(s) => var_name_of_text(s@),
                    Err(_) => var_name_of_text(Seq::empty()),
                }
            }),
            forall|t: ComponentTag| t != ComponentTag::NoTag ==> #[trigger] tag_bit(r.tags.0, component_tag_index(t))
                == (tag_list matches Ok(l) && list_holds(vstd::utf8::encode_utf8(l@), component_tag_name(t))),
    {
        proof {
            reveal_strlit("");
        }
        let on = match enabled {
            Ok(b) => b,
            Err(_) => false,
        };
        let name = if is_var {
            match var_name {
                Ok(s) => VarName::from_str_non_const(s.as_str()),
                Err(_) => {
                    assert(""@ =~= Seq::<char>::empty());
                    VarName::from_str_non_const("")
                },
            }
        } else {
            VarName::NoName
        };
        let tags = match tag_list {
            Ok(l) => component_tags_from_list(l.as_str()),
            Err(_) => {
                proof {
                    assert forall|t: ComponentTag| t != ComponentTag::NoTag implies !#[trigger] tag_bit(0u16, component_tag_index(t)) by {
                        crate::api::lemma_no_tag_in_zero(component_tag_index(t));
                    }
                }
                Tags(0u16)
            },
        };
        ComponentData { id, enabled: on, name, tags }
    }
}

/// The components of `found` whose type is `k`, in order.
pub open spec fn of_kind(found: Seq<(CachedComponent, ComponentData)>, k: CachedComponent) -> Seq<ComponentData>
    decreases found.len(),
{
    if found.len() == 0 {
        Seq::empty()
    } else {
        let rest = of_kind(found.drop_last(), k);
        if found.last().0 == k {
            rest.push(found.last().1)
        } else {
            rest
        }
    }
}

proof fn lemma_of_kind_len(found: Seq<(CachedComponent, ComponentData)>, k: CachedComponent)
    ensures
        of_kind(found, k).len() <= found.len(),
    decreases found.len(),
{
    if found.len() > 0 {
        lemma_of_kind_len(found.drop_last(), k);
    }
}

/// What the cache remembers of one entity: its cached tags, whether all its
/// physics bodies were seen initialised, and its components per cached type.
pub struct EntityData {
    tags: Tags<u16>,
    phys_init: bool,
    components: Vec<ComponentList>,
}

impl EntityData {
    #[verifier::type_invariant]
    spec fn one_list_per_type(self) -> bool {
        self.components@.len() == COMP_LEN
    }

    /// The entity's cached tags, one bit per `CachedTag`.
    pub closed spec fn tag_set(self) -> u16 {
        self.tags.0
    }

    /// Whether all physics bodies were seen initialised.
    pub closed spec fn phys_ready(self) -> bool {
        self.phys_init
    }

    /// The entity's components of type `k`, in order.
    pub closed spec fn list(self, k: CachedComponent) -> Seq<ComponentData> {
        list_items(self.components@[cached_component_index(k)])
    }

    /// Data with no tag and no component.
    pub fn empty() -> (r: Self)
        ensures
            r.tag_set() == 0,
            !r.phys_ready(),
            forall|k: CachedComponent| #[trigger] r.list(k) == Seq::<ComponentData>::empty(),
    {
        let mut components: Vec<ComponentList> = Vec::new();
        let mut i: usize = 0;
        while i < COMP_LEN
            invariant
                i <= COMP_LEN,
                components@.len() == i,
                forall|j: int| 0 <= j < i ==> list_items(#[trigger] components@[j]) == Seq::<ComponentData>::empty(),
            decreases COMP_LEN - i,
        {
            components.push(list_new());
            i = i + 1;
        }
        proof {
            assert forall|k: CachedComponent| list_items(#[trigger] components@[cached_component_index(k)]) == Seq::<ComponentData>::empty() by {
                crate::api::lemma_cached_component_slot(k);
            }
        }
        EntityData { tags: Tags(0u16), phys_init: false, components }
    }

    /// The data of an entity from its comma-separated tag list and its
    /// components of cached types, each with its type, in the order the game
    /// listed them.
    pub fn new(tag_list: &str, found: Vec<(CachedComponent, ComponentData)>) -> (r: Self)
        requires
            found@.len() < LIST_LIMIT,
        ensures
            forall|t: CachedTag| #[trigger] tag_bit(r.tag_set(), cached_tag_index(t)) == list_holds(tag_list.spec_bytes(), crate::api::cached_tag_name(t)),
            forall|n: u16| 11 <= n < 16 ==> !#[trigger] tag_bit(r.tag_set(), n),
            !r.phys_ready(),
            forall|k: CachedComponent| #[trigger] r.list(k) == of_kind(found@, k),
    {
        let tags = entity_tags_from_list(tag_list);
        let mut data = EntityData::empty();
        let mut i: usize = 0;
        proof {
            use_type_invariant(&data);
            assert forall|k: CachedComponent| #[trigger] data.list(k) == of_kind(found@.take(0), k) by {
                assert(found@.take(0).len() == 0);
            }
        }
        while i < found.len()
            invariant
                i <= found@.len(),
                found@.len() < LIST_LIMIT,
                !data.phys_ready(),
                forall|k: CachedComponent| #[trigger] data.list(k) == of_kind(found@.take(i as int), k),
            decreases found@.len() - i,
        {
            let (k, c) = found[i];
            let slot = k.index();
            proof {
                use_type_invariant(&data);
                crate::api::lemma_cached_component_slot(k);
                lemma_of_kind_len(found@.take(i as int), k);
            }
            let ghost before = data;
            assert(data.list(k) == of_kind(found@.take(i as int), k));
            list_push(&mut data.components[slot], c);
            proof {
                use_type_invariant(&data);
                let next = found@.take(i as int + 1);
                assert(data.components@ == before.components@.update(slot as int, data.components@[slot as int]));
                assert(data.list(k) == before.list(k).push(c));
                assert(next.drop_last() =~= found@.take(i as int));
                assert(next.last() == (k, c));
                assert forall|j: CachedComponent| #[trigger] data.list(j) == of_kind(next, j) by {
                    crate::api::lemma_cached_component_slot(j);
                    if j != k {
                        assert(cached_component_index(j) != cached_component_index(k));
                        assert(data.list(j) == before.list(j));
                        assert(before.list(j) == of_kind(found@.take(i as int), j));
                    }
                }
            }
            i = i + 1;
        }
        proof {
            use_type_invariant(&data);
            assert(found@.take(found@.len() as int) =~= found@);
            assert forall|k: CachedComponent| #[trigger] data.list(k) == of_kind(found@, k) by {
                assert(data.list(k) == of_kind(found@.take(found@.len() as int), k));
            }
        }
        let ghost before = data;
        data.tags = tags;
        proof {
            assert forall|k: CachedComponent| #[trigger] data.list(k) == of_kind(found@, k) by {
                assert(data.list(k) == before.list(k));
            }
        }
        data
    }
}

/// Whether `c` answers a query for `tag` (any tag for `NoTag`); disabled
/// components answer only when `with_disabled`.
pub open spec fn answers(c: ComponentData, tag: ComponentTag, with_disabled: bool) -> bool {
    &&& with_disabled || c.enabled
    &&& tag == ComponentTag::NoTag || tag_bit(c.tags.0, component_tag_index(tag))
}

/// The first component of `s` that answers the query.
pub open spec fn first_answer(s: Seq<ComponentData>, tag: ComponentTag, with_disabled: bool) -> Option<ComponentData>
    decreases s.len(),
{
    if s.len() == 0 {
        None
    } else if answers(s[0], tag, with_disabled) {
        Some(s[0])
    } else {
        first_answer(s.subrange(1, s.len() as int), tag, with_disabled)
    }
}

/// The ids of the components of `s` that answer the query, in order.
pub open spec fn all_answers(s: Seq<ComponentData>, tag: ComponentTag, with_disabled: bool) -> Seq<ComponentID>
    decreases s.len(),
{
    if s.len() == 0 {
        Seq::empty()
    } else {
        let rest = all_answers(s.drop_last(), tag, with_disabled);
        if answers(s.last(), tag, with_disabled) {
            rest.push(s.last().id)
        } else {
            rest
        }
    }
}

/// The id of an optional component.
pub open spec fn id_of(c: Option<ComponentData>) -> Option<ComponentID> {
    match c {
        Some(d) => Some(d.id),
        None => None,
    }
}

proof fn lemma_first_answer_skip(s: Seq<ComponentData>, tag: ComponentTag, with_disabled: bool, i: int)
    requires
        0 <= i <= s.len(),
        forall|j: int| 0 <= j < i ==> !answers(#[trigger] s[j], tag, with_disabled),
    ensures
        first_answer(s, tag, with_disabled) == first_answer(s.subrange(i, s.len() as int), tag, with_disabled),
    decreases i,
{
    if i > 0 {
        let t = s.subrange(1, s.len() as int);
        assert forall|j: int| 0 <= j < i - 1 implies !answers(#[trigger] t[j], tag, with_disabled) by {
            assert(t[j] == s[j + 1]);
        }
        lemma_first_answer_skip(t, tag, with_disabled, i - 1);
        assert(t.subrange(i - 1, t.len() as int) =~= s.subrange(i, s.len() as int));
        assert(!answers(s[0], tag, with_disabled));
    } else {
        assert(s.subrange(0, s.len() as int) =~= s);
    }
}

/// Whether `c` answers the query, computed.
fn check_answers(c: &ComponentData, tag: ComponentTag, with_disabled: bool) -> (r: bool)
    ensures
        r == answers(*c, tag, with_disabled),
{
    if !with_disabled && !c.enabled {
        return false;
    }
    match tag {
        ComponentTag::NoTag => true,
        _ => c.tags.get(tag.index()),
    }
}

/// The position of the first component of `s` that answers the query.
fn find_answer(s: &[ComponentData], tag: ComponentTag, with_disabled: bool) -> (r: Option<usize>)
    ensures
        match r {
            Some(i) => i < s@.len() && first_answer(s@, tag, with_disabled) == Some(s@[i as int]),
            None => first_answer(s@, tag, with_disabled) is None,
        },
{
    let mut i: usize = 0;
    while i < s.len()
        invariant
            i <= s@.len(),
            forall|j: int| 0 <= j < i ==> !answers(#[trigger] s@[j], tag, with_disabled),
        decreases s@.len() - i,
    {
        if check_answers(&s[i], tag, with_disabled) {
            proof {
                lemma_first_answer_skip(s@, tag, with_disabled, i as int);
            }
            return Some(i);
        }
        i = i + 1;
    }
    proof {
        lemma_first_answer_skip(s@, tag, with_disabled, i as int);
    }
    None
}

/// The ids of the components of `s` that answer the query, in order.
fn collect_answers(s: &[ComponentData], tag: ComponentTag, with_disabled: bool) -> (r: Vec<ComponentID>)
    ensures
        r@ == all_answers(s@, tag, with_disabled),
{
    let mut out: Vec<ComponentID> = Vec::new();
    let mut i: usize = 0;
    while i < s.len()
        invariant
            i <= s@.len(),
            out@ == all_answers(s@.take(i as int), tag, with_disabled),
        decreases s@.len() - i,
    {
        let ghost before = s@.take(i as int);
        if check_answers(&s[i], tag, with_disabled) {
            out.push(s[i].id);
        }
        proof {
            assert(s@.take(i as int + 1).drop_last() =~= before);
        }
        i = i + 1;
    }
    proof {
        assert(s@.take(s@.len() as int) =~= s@);
    }
    out
}

/// `c` with its enabled flag set to `on`.
pub open spec fn with_enabled(c: ComponentData, on: bool) -> ComponentData {
    ComponentData { id: c.id, enabled: on, name: c.name, tags: c.tags }
}

/// The position of the first component of `s` with id `id`; `-1` when there
/// is none.
pub open spec fn position_of(s: Seq<ComponentData>, id: ComponentID) -> int
    decreases s.len(),
{
    if s.len() == 0 {
        -1
    } else if s[0].id == id {
        0
    } else {
        let r = position_of(s.subrange(1, s.len() as int), id);
        if r < 0 {
            -1
        } else {
            r + 1
        }
    }
}

/// The first component of `s` whose variable name is `name`.
pub open spec fn first_named(s: Seq<ComponentData>, name: VarName) -> Option<ComponentData>
    decreases s.len(),
{
    if s.len() == 0 {
        None
    } else if s[0].name == name {
        Some(s[0])
    } else {
        first_named(s.subrange(1, s.len() as int), name)
    }
}

/// `b` holds the tags, physics flag and component lists of `a`, but perhaps
/// another list of type `kind`.
pub open spec fn only_list_changed(a: EntityData, b: EntityData, kind: CachedComponent) -> bool {
    &&& a.tag_set() == b.tag_set()
    &&& a.phys_ready() == b.phys_ready()
    &&& forall|k: CachedComponent| k != kind ==> #[trigger] b.list(k) == a.list(k)
}

proof fn lemma_position_skip(s: Seq<ComponentData>, id: ComponentID, i: int)
    requires
        0 <= i <= s.len(),
        forall|j: int| 0 <= j < i ==> (#[trigger] s[j]).id != id,
    ensures
        position_of(s, id) == (if position_of(s.subrange(i, s.len() as int), id) < 0 {
            -1
        } else {
            position_of(s.subrange(i, s.len() as int), id) + i
        }),
        position_of(s, id) < s.len(),
    decreases i,
{
    if i > 0 {
        let t = s.subrange(1, s.len() as int);
        assert forall|j: int| 0 <= j < i - 1 implies (#[trigger] t[j]).id != id by {
            assert(t[j] == s[j + 1]);
        }
        lemma_position_skip(t, id, i - 1);
        assert(t.subrange(i - 1, t.len() as int) =~= s.subrange(i, s.len() as int));
        assert(s[0].id != id);
    } else {
        assert(s.subrange(0, s.len() as int) =~= s);
        lemma_position_bound(s, id);
    }
}

proof fn lemma_position_bound(s: Seq<ComponentData>, id: ComponentID)
    ensures
        -1 <= position_of(s, id) < s.len(),
        position_of(s, id) >= 0 ==> s[position_of(s, id)].id == id,
    decreases s.len(),
{
    if s.len() > 0 && s[0].id != id {
        let t = s.subrange(1, s.len() as int);
        lemma_position_bound(t, id);
        if position_of(t, id) >= 0 {
            assert(t[position_of(t, id)] == s[position_of(t, id) + 1]);
        }
    }
}

proof fn lemma_first_named_skip(s: Seq<ComponentData>, name: VarName, i: int)
    requires
        0 <= i <= s.len(),
        forall|j: int| 0 <= j < i ==> (#[trigger] s[j]).name != name,
    ensures
        first_named(s, name) == first_named(s.subrange(i, s.len() as int), name),
    decreases i,
{
    if i > 0 {
        let t = s.subrange(1, s.len() as int);
        assert forall|j: int| 0 <= j < i - 1 implies (#[trigger] t[j]).name != name by {
            assert(t[j] == s[j + 1]);
        }
        lemma_first_named_skip(t, name, i - 1);
        assert(t.subrange(i - 1, t.len() as int) =~= s.subrange(i, s.len() as int));
    } else {
        assert(s.subrange(0, s.len() as int) =~= s);
    }
}

/// The position of the first component of `s` with id `id`.
fn find_id(s: &[ComponentData], id: ComponentID) -> (r: Option<usize>)
    ensures
        match r {
            Some(i) => i == position_of(s@, id) && i < s@.len(),
            None => position_of(s@, id) == -1,
        },
{
    let mut i: usize = 0;
    while i < s.len()
        invariant
            i <= s@.len(),
            forall|j: int| 0 <= j < i ==> (#[trigger] s@[j]).id != id,
        decreases s@.len() - i,
    {
        if s[i].id == id {
            proof {
                lemma_position_skip(s@, id, i as int);
                assert(s@.subrange(i as int, s@.len() as int)[0] == s@[i as int]);
            }
            return Some(i);
        }
        i = i + 1;
    }
    proof {
        lemma_position_skip(s@, id, i as int);
    }
    None
}

/// The first component of `s` named `name`.
fn find_named(s: &[ComponentData], name: VarName) -> (r: Option<usize>)
    ensures
        match r {
            Some(i) => i < s@.len() && first_named(s@, name) == Some(s@[i as int]),
            None => first_named(s@, name) is None,
        },
{
    let mut i: usize = 0;
    while i < s.len()
        invariant
            i <= s@.len(),
            forall|j: int| 0 <= j < i ==> (#[trigger] s@[j]).name != name,
        decreases s@.len() - i,
    {
        if s[i].name == name {
            proof {
                lemma_first_named_skip(s@, name, i as int);
            }
            return Some(i);
        }
        i = i + 1;
    }
    proof {
        lemma_first_named_skip(s@, name, i as int);
    }
    None
}

/// Whether `c` carries `tag`.
pub open spec fn tagged(c: ComponentData, tag: ComponentTag) -> bool {
    tag_bit(c.tags.0, component_tag_index(tag))
}

/// `c`, enabled or disabled as `on` says when it carries `tag`.
pub open spec fn switched(c: ComponentData, tag: ComponentTag, on: bool) -> ComponentData {
    if tagged(c, tag) {
        with_enabled(c, on)
    } else {
        c
    }
}

/// Enables or disables, as `on` says, every component of `v` carrying
/// `tag`; tells whether there was one.
fn switch_list(v: &mut ComponentList, tag: ComponentTag, on: bool) -> (some: bool)
    ensures
        list_items(*final(v)) == list_items(*old(v)).map_values(|c: ComponentData| switched(c, tag, on)),
        some == exists|i: int| 0 <= i < list_items(*old(v)).len() && tagged(#[trigger] list_items(*old(v))[i], tag),
{
    let ghost orig = list_items(*v);
    let slice = list_slice_mut(v);
    let mut some = false;
    let mut i: usize = 0;
    while i < slice.len()
        invariant
            i <= slice@.len(),
            slice@.len() == orig.len(),
            forall|m: int| 0 <= m < i ==> #[trigger] slice@[m] == switched(orig[m], tag, on),
            forall|m: int| i <= m < slice@.len() ==> #[trigger] slice@[m] == orig[m],
            some == exists|m: int| 0 <= m < i && tagged(#[trigger] orig[m], tag),
        decreases slice@.len() - i,
    {
        let c = slice[i];
        if c.tags.get(tag.index()) {
            slice[i] = ComponentData { id: c.id, enabled: on, name: c.name, tags: c.tags };
            some = true;
        }
        proof {
            if !some {
                assert forall|m: int| 0 <= m < i + 1 implies !tagged(#[trigger] orig[m], tag) by {
                    if m < i {
                        assert(!tagged(orig[m], tag));
                    }
                }
            } else {
                if tagged(orig[i as int], tag) {
                    assert(0 <= i < i + 1 && tagged(orig[i as int], tag));
                }
            }
        }
        i = i + 1;
    }
    proof {
        assert(slice@ =~= orig.map_values(|c: ComponentData| switched(c, tag, on)));
    }
    some
}

/// Whether some component of `d` carries `tag`.
pub open spec fn some_tagged(d: EntityData, tag: ComponentTag) -> bool {
    exists|k: CachedComponent, i: int| 0 <= i < d.list(k).len() && tagged(#[trigger] d.list(k)[i], tag)
}

/// The components of `s` that do not answer a query for `tag` (disabled ones
/// included), in order.
pub open spec fn kept(s: Seq<ComponentData>, tag: ComponentTag) -> Seq<ComponentData>
    decreases s.len(),
{
    if s.len() == 0 {
        Seq::empty()
    } else {
        let rest = kept(s.drop_last(), tag);
        if answers(s.last(), tag, true) {
            rest
        } else {
            rest.push(s.last())
        }
    }
}

proof fn lemma_kept_len(s: Seq<ComponentData>, tag: ComponentTag)
    ensures
        kept(s, tag).len() <= s.len(),
    decreases s.len(),
{
    if s.len() > 0 {
        lemma_kept_len(s.drop_last(), tag);
    }
}

/// `c` renamed `name`.
pub open spec fn named(c: ComponentData, name: VarName) -> ComponentData {
    ComponentData { id: c.id, enabled: c.enabled, name: name, tags: c.tags }
}

/// The text of the game's reply about a variable's name; empty when the
/// query failed.
pub open spec fn reply_text(reply: Result<String, EngineError>) -> Seq<char> {
    match reply {
        Ok(t) => t@,
        Err(_) => Seq::empty(),
    }
}

/// `f` may read the name of component `id` as `name`.
pub open spec fn reads_as<F: Fn(ComponentID) -> Result<String, EngineError>>(f: F, id: ComponentID, name: Seq<char>) -> bool {
    exists|res: Result<String, EngineError>| f.ensures((id,), res) && reply_text(res) == name
}

/// `f` may read the name of component `id` as something other than `name`.
pub open spec fn reads_other<F: Fn(ComponentID) -> Result<String, EngineError>>(f: F, id: ComponentID, name: Seq<char>) -> bool {
    exists|res: Result<String, EngineError>| f.ensures((id,), res) && reply_text(res) != name
}

/// Component `i` of `s` is the first one left unnamed in the cache that `f`
/// reads as `name`.
pub open spec fn unknown_found_at<F: Fn(ComponentID) -> Result<String, EngineError>>(f: F, s: Seq<ComponentData>, name: Seq<char>, i: int) -> bool {
    &&& 0 <= i < s.len()
    &&& s[i].name == VarName::Unknown
    &&& reads_as(f, s[i].id, name)
    &&& forall|j: int| 0 <= j < i && (#[trigger] s[j]).name == VarName::Unknown ==> reads_other(f, s[j].id, name)
}

/// `f` reads none of the components of `s` left unnamed in the cache as `name`.
pub open spec fn unknown_absent<F: Fn(ComponentID) -> Result<String, EngineError>>(f: F, s: Seq<ComponentData>, name: Seq<char>) -> bool {
    forall|j: int| 0 <= j < s.len() && (#[trigger] s[j]).name == VarName::Unknown ==> reads_other(f, s[j].id, name)
}

/// The game-side cache of entity data. While `direct` is set every query
/// goes straight to the game and nothing is remembered.
pub struct EntityManager {
    cache: HashMap<isize, EntityData>,
    current_entity: EntityID,
    current_data: EntityData,
    has_ran: bool,
    /// Names declared in the game's data files, read through `get_file`.
    pub files: Option<FileCache>,
    frame_num: i32,
    use_cache: bool,
}

impl EntityManager {
    /// The entity being worked on.
    pub closed spec fn current(self) -> EntityID {
        self.current_entity
    }

    /// The data held for the current entity.
    pub closed spec fn data(self) -> EntityData {
        self.current_data
    }

    /// Whether the data held for the current entity is in use.
    pub closed spec fn loaded(self) -> bool {
        self.has_ran
    }

    /// The data parked for other entities, by raw id.
    pub closed spec fn parked(self) -> Map<isize, EntityData> {
        self.cache@
    }

    /// Everything the cache knows, by raw id: the parked data and, once
    /// loaded, the current entity's data.
    pub open spec fn known(self) -> Map<isize, EntityData> {
        if self.loaded() {
            self.parked().insert(self.current().id(), self.data())
        } else {
            self.parked()
        }
    }

    /// The cache of names read from the game's data files.
    pub closed spec fn file_cache(self) -> Option<FileCache> {
        self.files
    }

    /// The frame counter.
    pub closed spec fn frame(self) -> i32 {
        self.frame_num
    }

    /// Whether queries bypass the cache and go to the game.
    pub closed spec fn direct(self) -> bool {
        self.use_cache
    }

    /// Makes queries bypass the cache (`true`) or use it (`false`).
    pub fn set_cache(&mut self, cache: bool)
        ensures
            final(self).direct() == cache,
            final(self).current() == old(self).current(),
            final(self).data() == old(self).data(),
            final(self).loaded() == old(self).loaded(),
            final(self).parked() == old(self).parked(),
            final(self).frame() == old(self).frame(),
            final(self).file_cache() == old(self).file_cache(),
    {
        self.use_cache = cache;
    }

    /// The entity being worked on.
    pub fn entity(&self) -> (r: EntityID)
        ensures
            r == self.current(),
    {
        self.current_entity
    }

    /// The frame counter; `-1` until it was first read from the game.
    pub fn frame_num(&self) -> (r: i32)
        ensures
            r == self.frame(),
    {
        self.frame_num
    }

    /// Advances the frame counter; the first time, `fetch` reads it from the
    /// game instead.
    pub fn init_frame_num<F: FnOnce() -> Result<i32, EngineError>>(&mut self, fetch: F) -> (r: Result<(), EngineError>)
        requires
            old(self).frame() < i32::MAX,
            fetch.requires(()),
        ensures
            old(self).frame() != -1 ==> r is Ok && final(self).frame() == old(self).frame() + 1,
            old(self).frame() == -1 ==> match r {
                Ok(()) => fetch.ensures((), Ok(final(self).frame())),
                Err(e) => fetch.ensures((), Err(e)) && final(self).frame() == -1,
            },
            final(self).current() == old(self).current(),
            final(self).data() == old(self).data(),
            final(self).loaded() == old(self).loaded(),
            final(self).parked() == old(self).parked(),
            final(self).direct() == old(self).direct(),
            final(self).file_cache() == old(self).file_cache(),
    {
        if self.frame_num == -1 {
            match fetch() {
                Ok(n) => {
                    self.frame_num = n;
                },
                Err(e) => {
                    return Err(e);
                },
            }
        } else {
            self.frame_num = self.frame_num + 1;
        }
        Ok(())
    }

    /// Makes `ent` the current entity. Unless queries go to the game, the
    /// current data is parked and `ent`'s data taken from the cache, or from
    /// `load` when the cache has none (or nothing was loaded yet).
    pub fn set_current_entity<F: FnOnce() -> Result<EntityData, EngineError>>(&mut self, ent: EntityID, load: F) -> (r: Result<(), EngineError>)
        requires
            load.requires(()),
        ensures
            final(self).current() == ent,
            final(self).direct() == old(self).direct(),
            final(self).frame() == old(self).frame(),
            final(self).file_cache() == old(self).file_cache(),
            old(self).direct() || old(self).current() == ent ==> {
                &&& r is Ok
                &&& final(self).data() == old(self).data()
                &&& final(self).loaded() == old(self).loaded()
                &&& final(self).parked() == old(self).parked()
            },
            !old(self).direct() && old(self).current() != ent ==> {
                let from_cache = old(self).loaded() && old(self).parked().contains_key(ent.id());
                &&& from_cache ==> r is Ok && final(self).data() == old(self).parked()[ent.id()]
                &&& !from_cache && r is Ok ==> load.ensures((), Ok(final(self).data()))
                &&& r is Ok ==> moved_to(*old(self), ent, *final(self))
                &&& r matches Err(e) ==> {
                    &&& !from_cache
                    &&& load.ensures((), Err(e))
                    &&& final(self).data() == old(self).data()
                    &&& final(self).loaded() == old(self).loaded()
                    &&& final(self).parked() == old(self).parked()
                }
            },
    {
        if self.use_cache {
            self.current_entity = ent;
            return Ok(());
        }
        if self.current_entity == ent {
            return Ok(());
        }
        proof {
            EntityID::lemma_same_id(ent, self.current_entity);
        }
        if self.has_ran {
            let old_ent = self.current_entity;
            self.current_entity = ent;
            let mut data = match self.cache.remove(&ent.raw()) {
                Some(d) => d,
                None => match load() {
                    Ok(d) => d,
                    Err(e) => {
                        return Err(e);
                    },
                },
            };
            std::mem::swap(&mut self.current_data, &mut data);
            self.cache.insert(old_ent.raw(), data);
            proof {
                assert(self.known() =~= old(self).known().insert(ent.id(), self.data()));
            }
        } else {
            self.current_entity = ent;
            match load() {
                Ok(d) => {
                    self.current_data = d;
                },
                Err(e) => {
                    return Err(e);
                },
            }
            self.has_ran = true;
            proof {
                assert(self.known() =~= old(self).known().insert(ent.id(), self.data()));
            }
        }
        Ok(())
    }

    /// Forgets the current entity's data; the next switch loads afresh.
    pub fn remove_current(&mut self)
        ensures
            !final(self).loaded(),
            final(self).current() == old(self).current(),
            final(self).data() == old(self).data(),
            final(self).parked() == old(self).parked(),
            final(self).direct() == old(self).direct(),
            final(self).frame() == old(self).frame(),
            final(self).file_cache() == old(self).file_cache(),
    {
        self.has_ran = false;
    }

    /// Forgets what the cache holds of `ent`.
    pub fn remove_ent(&mut self, ent: &EntityID)
        ensures
            final(self).current() == old(self).current(),
            final(self).data() == old(self).data(),
            final(self).direct() == old(self).direct(),
            final(self).frame() == old(self).frame(),
            final(self).file_cache() == old(self).file_cache(),
            old(self).current() == *ent || old(self).direct() ==> {
                &&& !final(self).loaded()
                &&& final(self).parked() == old(self).parked()
            },
            !(old(self).current() == *ent || old(self).direct()) ==> {
                &&& final(self).loaded() == old(self).loaded()
                &&& final(self).parked() == old(self).parked().remove(ent.id())
                &&& final(self).known() == old(self).known().remove(ent.id())
            },
    {
        if self.current_entity == *ent || self.use_cache {
            self.has_ran = false;
        } else {
            self.cache.remove(&ent.raw());
            proof {
                EntityID::lemma_same_id(*ent, self.current_entity);
                assert(self.known() =~= old(self).known().remove(ent.id()));
            }
        }
    }
}

/// `b` holds what `a` holds, but perhaps other data for the current entity.
pub open spec fn same_but_data(a: EntityManager, b: EntityManager) -> bool {
    &&& a.current() == b.current()
    &&& a.loaded() == b.loaded()
    &&& a.parked() == b.parked()
    &&& a.frame() == b.frame()
    &&& a.direct() == b.direct()
    &&& a.file_cache() == b.file_cache()
}

/// The two hold the same components.
pub open spec fn same_lists(a: EntityData, b: EntityData) -> bool {
    forall|k: CachedComponent| #[trigger] a.list(k) == b.list(k)
}

impl EntityManager {
    /// Tags the current entity with `tag`, once the game answered `engine`
    /// to the same request: a failure is handed back and nothing changes.
    pub fn add_tag(&mut self, tag: CachedTag, engine: Result<(), EngineError>) -> (r: Result<(), EngineError>)
        ensures
            r == engine,
            same_but_data(*old(self), *final(self)),
            engine is Err || old(self).direct() ==> final(self).data() == old(self).data(),
            engine is Ok && !old(self).direct() ==> {
                &&& final(self).data().tag_set() == old(self).data().tag_set() | (1u16 << cached_tag_index(tag))
                &&& final(self).data().phys_ready() == old(self).data().phys_ready()
                &&& same_lists(old(self).data(), final(self).data())
            },
    {
        if engine.is_ok() && !self.use_cache {
            proof {
                use_type_invariant(&self.current_data);
            }
            self.current_data.tags.set(tag.index());
        }
        engine
    }

    /// Takes `tag` off the current entity, once the game answered `engine`
    /// to the same request: a failure is handed back and nothing changes.
    pub fn remove_tag(&mut self, tag: CachedTag, engine: Result<(), EngineError>) -> (r: Result<(), EngineError>)
        ensures
            r == engine,
            same_but_data(*old(self), *final(self)),
            engine is Err || old(self).direct() ==> final(self).data() == old(self).data(),
            engine is Ok && !old(self).direct() ==> {
                &&& final(self).data().tag_set() == old(self).data().tag_set() & !(1u16 << cached_tag_index(tag))
                &&& final(self).data().phys_ready() == old(self).data().phys_ready()
                &&& same_lists(old(self).data(), final(self).data())
            },
    {
        if engine.is_ok() && !self.use_cache {
            proof {
                use_type_invariant(&self.current_data);
            }
            self.current_data.tags.clear(tag.index());
        }
        engine
    }

    /// Whether the current entity has `tag`: from the cache, or, when queries
    /// go to the game, from the game's reply to `ask` (a failure counts as no).
    pub fn has_tag<F: FnOnce() -> Result<bool, EngineError>>(&self, tag: CachedTag, ask: F) -> (r: bool)
        requires
            ask.requires(()),
        ensures
            !self.direct() ==> r == tag_bit(self.data().tag_set(), cached_tag_index(tag)),
            self.direct() ==> exists|reply: Result<bool, EngineError>| ask.ensures((), reply) && r == crate::api::reply_true(reply),
    {
        if self.use_cache {
            let reply = ask();
            return EntityID::has_tag(reply);
        }
        self.current_data.tags.get(tag.index())
    }

    /// The current entity's components of type `kind`.
    fn components_of(&self, kind: CachedComponent) -> (r: &[ComponentData])
        ensures
            r@ == self.data().list(kind),
    {
        proof {
            use_type_invariant(&self.current_data);
        }
        list_slice(&self.current_data.components[kind.index()])
    }

    /// The first enabled component of type `kind` carrying `tag` (any tag for
    /// `NoTag`); when queries go to the game, what `engine` finds.
    pub fn try_get_first_component<F: FnOnce() -> Option<ComponentID>>(&self, kind: CachedComponent, tag: ComponentTag, engine: F) -> (r: Option<ComponentID>)
        requires
            engine.requires(()),
        ensures
            !self.direct() ==> r == id_of(first_answer(self.data().list(kind), tag, false)),
            self.direct() ==> engine.ensures((), r),
    {
        if self.use_cache {
            return engine();
        }
        let list = self.components_of(kind);
        match find_answer(list, tag, false) {
            Some(i) => Some(list[i].id),
            None => None,
        }
    }

    /// The first component of type `kind` carrying `tag`, enabled or not;
    /// when queries go to the game, what `engine` finds.
    pub fn try_get_first_component_including_disabled<F: FnOnce() -> Option<ComponentID>>(&self, kind: CachedComponent, tag: ComponentTag, engine: F) -> (r: Option<ComponentID>)
        requires
            engine.requires(()),
        ensures
            !self.direct() ==> r == id_of(first_answer(self.data().list(kind), tag, true)),
            self.direct() ==> engine.ensures((), r),
    {
        if self.use_cache {
            return engine();
        }
        let list = self.components_of(kind);
        match find_answer(list, tag, true) {
            Some(i) => Some(list[i].id),
            None => None,
        }
    }

    /// As `try_get_first_component`, failing with "no comp found" when there
    /// is none.
    pub fn get_first_component<F: FnOnce() -> Result<ComponentID, EngineError>>(&self, kind: CachedComponent, tag: ComponentTag, engine: F) -> (r: Result<ComponentID, EngineError>)
        requires
            engine.requires(()),
        ensures
            !self.direct() ==> match first_answer(self.data().list(kind), tag, false) {
                Some(c) => r == Ok::<ComponentID, EngineError>(c.id),
                None => r matches Err(e) && fresh_error(e, "no comp found"@),
            },
            self.direct() ==> engine.ensures((), r),
    {
        if self.use_cache {
            return engine();
        }
        let list = self.components_of(kind);
        match find_answer(list, tag, false) {
            Some(i) => Ok(list[i].id),
            None => Err(EngineError::new(String::from_str("no comp found"))),
        }
    }

    /// As `try_get_first_component_including_disabled`, failing with "no comp
    /// found" when there is none.
    pub fn get_first_component_including_disabled<F: FnOnce() -> Result<ComponentID, EngineError>>(&self, kind: CachedComponent, tag: ComponentTag, engine: F) -> (r: Result<ComponentID, EngineError>)
        requires
            engine.requires(()),
        ensures
            !self.direct() ==> match first_answer(self.data().list(kind), tag, true) {
                Some(c) => r == Ok::<ComponentID, EngineError>(c.id),
                None => r matches Err(e) && fresh_error(e, "no comp found"@),
            },
            self.direct() ==> engine.ensures((), r),
    {
        if self.use_cache {
            return engine();
        }
        let list = self.components_of(kind);
        match find_answer(list, tag, true) {
            Some(i) => Ok(list[i].id),
            None => Err(EngineError::new(String::from_str("no comp found"))),
        }
    }

    /// The enabled components of type `kind` carrying `tag`, in order; when
    /// queries go to the game, what `engine` lists.
    pub fn iter_all_components_of_type<F: FnOnce() -> Vec<ComponentID>>(&self, kind: CachedComponent, tag: ComponentTag, engine: F) -> (r: Vec<ComponentID>)
        requires
            engine.requires(()),
        ensures
            !self.direct() ==> r@ == all_answers(self.data().list(kind), tag, false),
            self.direct() ==> engine.ensures((), r),
    {
        if self.use_cache {
            return engine();
        }
        collect_answers(self.components_of(kind), tag, false)
    }

    /// The components of type `kind` carrying `tag`, enabled or not, in
    /// order; when queries go to the game, what `engine` lists.
    pub fn iter_all_components_of_type_including_disabled<F: FnOnce() -> Vec<ComponentID>>(&self, kind: CachedComponent, tag: ComponentTag, engine: F) -> (r: Vec<ComponentID>)
        requires
            engine.requires(()),
        ensures
            !self.direct() ==> r@ == all_answers(self.data().list(kind), tag, true),
            self.direct() ==> engine.ensures((), r),
    {
        if self.use_cache {
            return engine();
        }
        collect_answers(self.components_of(kind), tag, true)
    }
}

impl EntityManager {
    /// Appends `c` to the current entity's components of type `kind`.
    fn push_component(&mut self, kind: CachedComponent, c: ComponentData)
        requires
            old(self).data().list(kind).len() < LIST_LIMIT,
        ensures
            same_but_data(*old(self), *final(self)),
            final(self).data().list(kind) == old(self).data().list(kind).push(c),
            only_list_changed(old(self).data(), final(self).data(), kind),
    {
        proof {
            use_type_invariant(&self.current_data);
            crate::api::lemma_cached_component_slot(kind);
        }
        let ghost before = self.current_data;
        list_push(&mut self.current_data.components[kind.index()], c);
        proof {
            assert forall|k: CachedComponent| k != kind implies #[trigger] self.current_data.list(k) == before.list(k) by {
                crate::api::lemma_cached_component_slot(k);
            }
        }
    }

    /// Records a component of type `kind` that the game added to the current
    /// entity, described by `added`; a failure is handed back and nothing
    /// changes. When queries go to the game nothing is recorded.
    pub fn add_component(&mut self, kind: CachedComponent, added: Result<ComponentData, EngineError>) -> (r: Result<ComponentID, EngineError>)
        requires
            !old(self).direct() && added is Ok ==> old(self).data().list(kind).len() < LIST_LIMIT,
        ensures
            same_but_data(*old(self), *final(self)),
            match added {
                Ok(c) => {
                    &&& r == Ok::<ComponentID, EngineError>(c.id)
                    &&& old(self).direct() ==> final(self).data() == old(self).data()
                    &&& !old(self).direct() ==> final(self).data().list(kind) == old(self).data().list(kind).push(c)
                        && only_list_changed(old(self).data(), final(self).data(), kind)
                },
                Err(e) => r == Err::<ComponentID, EngineError>(e) && final(self).data() == old(self).data(),
            },
    {
        match added {
            Err(e) => Err(e),
            Ok(c) => {
                if !self.use_cache {
                    self.push_component(kind, c);
                }
                Ok(c.id)
            },
        }
    }

    /// Records a Lua init component of type `kind` that the game added to the
    /// current entity; as `add_component`.
    pub fn add_lua_init_component(&mut self, kind: CachedComponent, added: Result<ComponentData, EngineError>) -> (r: Result<ComponentID, EngineError>)
        requires
            !old(self).direct() && added is Ok ==> old(self).data().list(kind).len() < LIST_LIMIT,
        ensures
            same_but_data(*old(self), *final(self)),
            match added {
                Ok(c) => {
                    &&& r == Ok::<ComponentID, EngineError>(c.id)
                    &&& old(self).direct() ==> final(self).data() == old(self).data()
                    &&& !old(self).direct() ==> final(self).data().list(kind) == old(self).data().list(kind).push(c)
                        && only_list_changed(old(self).data(), final(self).data(), kind)
                },
                Err(e) => r == Err::<ComponentID, EngineError>(e) && final(self).data() == old(self).data(),
            },
    {
        self.add_component(kind, added)
    }

    /// The first variable storage component named `name`, enabled or not;
    /// when queries go to the game, what `engine` finds.
    pub fn get_var<F: FnOnce() -> Option<ComponentID>>(&self, name: VarName, engine: F) -> (r: Option<ComponentID>)
        requires
            engine.requires(()),
        ensures
            !self.direct() ==> r == id_of(first_named(self.data().list(CachedComponent::VariableStorageComponent), name)),
            self.direct() ==> engine.ensures((), r),
    {
        if self.use_cache {
            return engine();
        }
        let list = self.components_of(CachedComponent::VariableStorageComponent);
        match find_named(list, name) {
            Some(i) => Some(list[i].id),
            None => None,
        }
    }

    /// Drops component `id` of type `kind` from the current entity's data,
    /// the game having answered `engine` to removing it; that answer is
    /// handed back.
    pub fn remove_component(&mut self, kind: CachedComponent, id: ComponentID, engine: Result<(), EngineError>) -> (r: Result<(), EngineError>)
        ensures
            r == engine,
            same_but_data(*old(self), *final(self)),
            old(self).direct() || position_of(old(self).data().list(kind), id) < 0 ==> final(self).data() == old(self).data(),
            !old(self).direct() && position_of(old(self).data().list(kind), id) >= 0 ==> {
                &&& final(self).data().list(kind) == old(self).data().list(kind).remove(position_of(old(self).data().list(kind), id))
                &&& only_list_changed(old(self).data(), final(self).data(), kind)
            },
    {
        if self.use_cache {
            return engine;
        }
        let found = find_id(self.components_of(kind), id);
        match found {
            Some(n) => {
                proof {
                    use_type_invariant(&self.current_data);
                    crate::api::lemma_cached_component_slot(kind);
                }
                let ghost before = self.current_data;
                list_remove(&mut self.current_data.components[kind.index()], n);
                proof {
                    assert forall|k: CachedComponent| k != kind implies #[trigger] self.current_data.list(k) == before.list(k) by {
                        crate::api::lemma_cached_component_slot(k);
                    }
                }
            },
            None => {},
        }
        engine
    }

    /// Sets whether component `id` of type `kind` is enabled. When the cache
    /// holds it with the other setting, the cache is updated and `engine`
    /// tells the game; otherwise nothing happens. When queries go to the
    /// game, `engine` is asked in any case.
    pub fn set_component_enabled<F: FnOnce() -> Result<(), EngineError>>(&mut self, kind: CachedComponent, id: ComponentID, enabled: bool, engine: F) -> (r: Result<(), EngineError>)
        requires
            engine.requires(()),
        ensures
            same_but_data(*old(self), *final(self)),
            old(self).direct() ==> engine.ensures((), r) && final(self).data() == old(self).data(),
            !old(self).direct() ==> {
                let s = old(self).data().list(kind);
                let i = position_of(s, id);
                if i >= 0 && s[i].enabled != enabled {
                    &&& final(self).data().list(kind) == s.update(i, with_enabled(s[i], enabled))
                    &&& only_list_changed(old(self).data(), final(self).data(), kind)
                    &&& engine.ensures((), r)
                } else {
                    r is Ok && final(self).data() == old(self).data()
                }
            },
    {
        if self.use_cache {
            return engine();
        }
        let found = find_id(self.components_of(kind), id);
        match found {
            Some(n) => {
                proof {
                    use_type_invariant(&self.current_data);
                    crate::api::lemma_cached_component_slot(kind);
                }
                let c = self.components_of(kind)[n];
                if c.enabled == enabled {
                    return Ok(());
                }
                let ghost before = self.current_data;
                let slice = list_slice_mut(&mut self.current_data.components[kind.index()]);
                slice[n] = ComponentData { id: c.id, enabled, name: c.name, tags: c.tags };
                proof {
                    assert forall|k: CachedComponent| k != kind implies #[trigger] self.current_data.list(k) == before.list(k) by {
                        crate::api::lemma_cached_component_slot(k);
                    }
                }
                engine()
            },
            None => Ok(()),
        }
    }
}

impl EntityManager {
    /// Enables or disables, as `enabled` says, every cached component of the
    /// current entity carrying `tag`; when there was one, `engine` tells the
    /// game. When queries go to the game, `engine` is asked in any case.
    pub fn set_components_with_tag_enabled<F: FnOnce() -> Result<(), EngineError>>(&mut self, tag: ComponentTag, enabled: bool, engine: F) -> (r: Result<(), EngineError>)
        requires
            engine.requires(()),
        ensures
            same_but_data(*old(self), *final(self)),
            old(self).direct() ==> engine.ensures((), r) && final(self).data() == old(self).data(),
            !old(self).direct() ==> {
                &&& final(self).data().tag_set() == old(self).data().tag_set()
                &&& final(self).data().phys_ready() == old(self).data().phys_ready()
                &&& forall|k: CachedComponent| #[trigger] final(self).data().list(k)
                    == old(self).data().list(k).map_values(|c: ComponentData| switched(c, tag, enabled))
                &&& some_tagged(old(self).data(), tag) ==> engine.ensures((), r)
                &&& !some_tagged(old(self).data(), tag) ==> r is Ok
            },
    {
        if self.use_cache {
            return engine();
        }
        proof {
            use_type_invariant(&self.current_data);
        }
        let ghost before = self.current_data;
        let mut some = false;
        let mut k: usize = 0;
        while k < COMP_LEN
            invariant
                k <= COMP_LEN,
                self.current_data.components@.len() == COMP_LEN,
                before.components@.len() == COMP_LEN,
                self.current_data.tags == before.tags,
                self.current_data.phys_init == before.phys_init,
                same_but_data(*old(self), *self),
                before == old(self).data(),
                !self.use_cache,
                forall|j: int| 0 <= j < k ==> list_items(#[trigger] self.current_data.components@[j])
                    == list_items(before.components@[j]).map_values(|c: ComponentData| switched(c, tag, enabled)),
                forall|j: int| k <= j < COMP_LEN ==> #[trigger] self.current_data.components@[j] == before.components@[j],
                some == exists|j: int, i: int| 0 <= j < k && 0 <= i < list_items(before.components@[j]).len()
                    && tagged(#[trigger] list_items(before.components@[j])[i], tag),
            decreases COMP_LEN - k,
        {
            let ghost prev = self.current_data.components@;
            let found = switch_list(&mut self.current_data.components[k], tag, enabled);
            proof {
                assert(prev[k as int] == before.components@[k as int]);
                if found {
                    let i = choose|i: int| 0 <= i < list_items(before.components@[k as int]).len()
                        && tagged(#[trigger] list_items(before.components@[k as int])[i], tag);
                    assert(0 <= k < k + 1 && 0 <= i < list_items(before.components@[k as int]).len()
                        && tagged(list_items(before.components@[k as int])[i], tag));
                }
                if !(some || found) {
                    assert forall|j: int, i: int| 0 <= j < k + 1 && 0 <= i < list_items(before.components@[j]).len()
                        implies !tagged(#[trigger] list_items(before.components@[j])[i], tag) by {
                        if j < k {
                        } else {
                            assert(j == k);
                        }
                    }
                }
            }
            some = some || found;
            k = k + 1;
        }
        proof {
            assert forall|k: CachedComponent| #[trigger] self.current_data.list(k)
                == before.list(k).map_values(|c: ComponentData| switched(c, tag, enabled)) by {
                crate::api::lemma_cached_component_slot(k);
            }
            if some {
                let (j, i) = choose|j: int, i: int| 0 <= j < COMP_LEN && 0 <= i < list_items(before.components@[j]).len()
                    && tagged(#[trigger] list_items(before.components@[j])[i], tag);
                let kk = crate::api::cached_component_of_index(j);
                assert(cached_component_index(kk) == j) by {
                    crate::api::lemma_cached_component_of_index(j);
                }
                assert(0 <= i < before.list(kk).len() && tagged(before.list(kk)[i], tag));
            } else {
                assert forall|k: CachedComponent, i: int| 0 <= i < before.list(k).len()
                    implies !tagged(#[trigger] before.list(k)[i], tag) by {
                    crate::api::lemma_cached_component_slot(k);
                    let j = cached_component_index(k);
                    assert(0 <= j < COMP_LEN && 0 <= i < list_items(before.components@[j]).len());
                }
            }
        }
        if some {
            engine()
        } else {
            Ok(())
        }
    }
}

impl EntityManager {
    /// Removes every component of type `kind` carrying `tags` (any for
    /// `NoTag`), enabled or not, from the current entity: `remove` asks the
    /// game to remove each, in order, and the first failure ends the work,
    /// leaving in the cache the components kept so far. Tells whether there
    /// was one to remove. When queries go to the game, `engine` does it all.
    pub fn remove_all_components_of_type<F: Fn(ComponentID) -> Result<(), EngineError>, G: FnOnce() -> Result<bool, EngineError>>(
        &mut self,
        kind: CachedComponent,
        tags: ComponentTag,
        remove: F,
        engine: G,
    ) -> (r: Result<bool, EngineError>)
        requires
            engine.requires(()),
            forall|id: ComponentID| remove.requires((id,)),
            !old(self).direct() ==> old(self).data().list(kind).len() <= LIST_LIMIT,
        ensures
            same_but_data(*old(self), *final(self)),
            old(self).direct() ==> engine.ensures((), r) && final(self).data() == old(self).data(),
            !old(self).direct() ==> {
                let s = old(self).data().list(kind);
                &&& only_list_changed(old(self).data(), final(self).data(), kind)
                &&& r matches Ok(b) ==> {
                    &&& b == exists|i: int| 0 <= i < s.len() && answers(#[trigger] s[i], tags, true)
                    &&& final(self).data().list(kind) == kept(s, tags)
                    &&& forall|i: int| 0 <= i < s.len() && answers(#[trigger] s[i], tags, true)
                        ==> exists|res: Result<(), EngineError>| res is Ok && remove.ensures((s[i].id,), res)
                }
                &&& r matches Err(e) ==> exists|i: int| {
                    &&& 0 <= i < s.len()
                    &&& answers(#[trigger] s[i], tags, true)
                    &&& remove.ensures((s[i].id,), Err(e))
                    &&& final(self).data().list(kind) == kept(s.take(i), tags)
                }
            },
    {
        if self.use_cache {
            return engine();
        }
        proof {
            use_type_invariant(&self.current_data);
            crate::api::lemma_cached_component_slot(kind);
        }
        let ghost before = self.current_data;
        let ghost s = before.list(kind);
        let mut taken = list_new();
        std::mem::swap(&mut self.current_data.components[kind.index()], &mut taken);
        proof {
            assert forall|k: CachedComponent| k != kind implies #[trigger] self.current_data.list(k) == before.list(k) by {
                crate::api::lemma_cached_component_slot(k);
            }
            assert(s.take(0) =~= Seq::<ComponentData>::empty());
        }
        let items = list_slice(&taken);
        let mut is_some = false;
        let mut i: usize = 0;
        while i < items.len()
            invariant
                items@ == s,
                s == before.list(kind),
                i <= s.len(),
                s.len() <= LIST_LIMIT,
                same_but_data(*old(self), *self),
                only_list_changed(before, self.current_data, kind),
                before == old(self).data(),
                !old(self).direct(),
                self.current_data.list(kind) == kept(s.take(i as int), tags),
                is_some == exists|m: int| 0 <= m < i && answers(#[trigger] s[m], tags, true),
                forall|m: int| 0 <= m < i && answers(#[trigger] s[m], tags, true)
                    ==> exists|res: Result<(), EngineError>| res is Ok && remove.ensures((s[m].id,), res),
                forall|id: ComponentID| remove.requires((id,)),
            decreases s.len() - i,
        {
            let c = items[i];
            proof {
                assert(s.take(i as int + 1).drop_last() =~= s.take(i as int));
            }
            if check_answers(&c, tags, true) {
                is_some = true;
                let done = remove(c.id);
                proof {
                    assert(c == s[i as int]);
                }
                match done {
                    Ok(()) => {
                        proof {
                            assert(remove.ensures((s[i as int].id,), done));
                            assert forall|m: int| 0 <= m < i + 1 && answers(#[trigger] s[m], tags, true)
                                implies exists|res: Result<(), EngineError>| res is Ok && remove.ensures((s[m].id,), res) by {
                                if m < i {
                                    assert(0 <= m < i && answers(s[m], tags, true));
                                } else {
                                    assert(done is Ok && remove.ensures((s[m].id,), done));
                                }
                            }
                        }
                    },
                    Err(e) => {
                        proof {
                            assert(remove.ensures((s[i as int].id,), Err(e)));
                            assert(answers(s[i as int], tags, true));
                            assert(0 <= i < s.len() && answers(s[i as int], tags, true) && remove.ensures((s[i as int].id,), Err(e))
                                && self.current_data.list(kind) == kept(s.take(i as int), tags));
                        }
                        return Err(e);
                    },
                }
            } else {
                proof {
                    lemma_kept_len(s.take(i as int), tags);
                }
                let ghost mid = self.current_data;
                self.push_component(kind, c);
                proof {
                    assert forall|k: CachedComponent| k != kind implies #[trigger] self.current_data.list(k) == before.list(k) by {
                        assert(mid.list(k) == before.list(k));
                    }
                }
            }
            i = i + 1;
        }
        proof {
            assert(s.take(s.len() as int) =~= s);
        }
        Ok(is_some)
    }
}

impl EntityManager {
    /// Whether every enabled physics body of the current entity is
    /// initialised, as `initialized` asks the game for each in turn; the
    /// first one that is not, or the first failed query, ends the check. A
    /// positive answer is remembered and not asked again. When queries go to
    /// the game, `engine` answers.
    pub fn check_all_phys_init<F: Fn(ComponentID) -> Result<bool, EngineError>, G: FnOnce() -> Result<bool, EngineError>>(
        &mut self,
        initialized: F,
        engine: G,
    ) -> (r: Result<bool, EngineError>)
        requires
            engine.requires(()),
            forall|id: ComponentID| initialized.requires((id,)),
        ensures
            same_but_data(*old(self), *final(self)),
            old(self).direct() ==> engine.ensures((), r) && final(self).data() == old(self).data(),
            !old(self).direct() && old(self).data().phys_ready() ==> (r matches Ok(b) && b) && final(self).data() == old(self).data(),
            !old(self).direct() && !old(self).data().phys_ready() ==> {
                let s = old(self).data().list(CachedComponent::PhysicsBody2Component);
                &&& final(self).data().tag_set() == old(self).data().tag_set()
                &&& same_lists(old(self).data(), final(self).data())
                &&& final(self).data().phys_ready() == (r matches Ok(b) && b)
                &&& (r matches Ok(b) && b) ==> forall|i: int| 0 <= i < s.len() && (#[trigger] s[i]).enabled
                    ==> exists|res: Result<bool, EngineError>| (res matches Ok(x) && x) && initialized.ensures((s[i].id,), res)
                &&& (r matches Ok(b) && !b) ==> exists|i: int| 0 <= i < s.len() && (#[trigger] s[i]).enabled
                    && initialized.ensures((s[i].id,), Ok(false))
                &&& r matches Err(e) ==> exists|i: int| 0 <= i < s.len() && (#[trigger] s[i]).enabled
                    && initialized.ensures((s[i].id,), Err(e))
            },
    {
        if self.use_cache {
            return engine();
        }
        if self.current_data.phys_init {
            return Ok(true);
        }
        let bodies = self.components_of(CachedComponent::PhysicsBody2Component);
        let ghost s = bodies@;
        let mut i: usize = 0;
        while i < bodies.len()
            invariant
                bodies@ == s,
                s == old(self).data().list(CachedComponent::PhysicsBody2Component),
                !old(self).direct(),
                !old(self).data().phys_ready(),
                same_but_data(*old(self), *self),
                self.data() == old(self).data(),
                i <= s.len(),
                forall|id: ComponentID| initialized.requires((id,)),
                forall|m: int| 0 <= m < i && (#[trigger] s[m]).enabled
                    ==> exists|res: Result<bool, EngineError>| (res matches Ok(x) && x) && initialized.ensures((s[m].id,), res),
            decreases s.len() - i,
        {
            let c = bodies[i];
            if c.enabled {
                let answer = initialized(c.id);
                proof {
                    assert(c == s[i as int]);
                    assert(initialized.ensures((s[i as int].id,), answer));
                }
                match answer {
                    Ok(true) => {
                        proof {
                            assert forall|m: int| 0 <= m < i + 1 && (#[trigger] s[m]).enabled
                                implies exists|res: Result<bool, EngineError>| (res matches Ok(x) && x) && initialized.ensures((s[m].id,), res) by {
                                if m == i {
                                    assert((answer matches Ok(x) && x) && initialized.ensures((s[m].id,), answer));
                                }
                            }
                        }
                    },
                    Ok(false) => {
                        proof {
                            assert(0 <= i < s.len() && s[i as int].enabled && initialized.ensures((s[i as int].id,), Ok(false)));
                        }
                        return Ok(false);
                    },
                    Err(e) => {
                        proof {
                            assert(0 <= i < s.len() && s[i as int].enabled && initialized.ensures((s[i as int].id,), Err(e)));
                        }
                        return Err(e);
                    },
                }
            }
            i = i + 1;
        }
        proof {
            use_type_invariant(&self.current_data);
        }
        let ghost before = self.current_data;
        self.current_data.phys_init = true;
        proof {
            assert forall|k: CachedComponent| #[trigger] self.current_data.list(k) == before.list(k) by {}
        }
        Ok(true)
    }
}

impl EntityManager {
    /// The first variable storage component named `name`; when there is none,
    /// one is made: `create` adds it in the game and describes it, the cache
    /// records it under `name`, and `set_name` writes the name in the game.
    /// When queries go to the game, `engine` does it all.
    pub fn get_var_or_default<C: FnOnce() -> Result<ComponentData, EngineError>, N: FnOnce(ComponentID) -> Result<(), EngineError>, G: FnOnce() -> Result<ComponentID, EngineError>>(
        &mut self,
        name: VarName,
        create: C,
        set_name: N,
        engine: G,
    ) -> (r: Result<ComponentID, EngineError>)
        requires
            create.requires(()),
            forall|id: ComponentID| set_name.requires((id,)),
            engine.requires(()),
            !old(self).direct() ==> old(self).data().list(CachedComponent::VariableStorageComponent).len() < LIST_LIMIT,
        ensures
            same_but_data(*old(self), *final(self)),
            old(self).direct() ==> engine.ensures((), r) && final(self).data() == old(self).data(),
            !old(self).direct() ==> {
                let s = old(self).data().list(CachedComponent::VariableStorageComponent);
                match first_named(s, name) {
                    Some(c) => r == Ok::<ComponentID, EngineError>(c.id) && final(self).data() == old(self).data(),
                    None => exists|made: Result<ComponentData, EngineError>| {
                        &&& create.ensures((), made)
                        &&& match made {
                            Err(e) => r == Err::<ComponentID, EngineError>(e) && final(self).data() == old(self).data(),
                            Ok(c) => {
                                &&& final(self).data().list(CachedComponent::VariableStorageComponent) == s.push(named(c, name))
                                &&& only_list_changed(old(self).data(), final(self).data(), CachedComponent::VariableStorageComponent)
                                &&& exists|res: Result<(), EngineError>| {
                                    &&& set_name.ensures((c.id,), res)
                                    &&& match res {
                                        Ok(_) => r == Ok::<ComponentID, EngineError>(c.id),
                                        Err(e) => r == Err::<ComponentID, EngineError>(e),
                                    }
                                }
                            },
                        }
                    },
                }
            },
    {
        if self.use_cache {
            return engine();
        }
        let list = self.components_of(CachedComponent::VariableStorageComponent);
        match find_named(list, name) {
            Some(i) => Ok(list[i].id),
            None => {
                let made = create();
                match made {
                    Err(e) => Err(e),
                    Ok(c) => {
                        let rec = ComponentData { id: c.id, enabled: c.enabled, name, tags: c.tags };
                        self.push_component(CachedComponent::VariableStorageComponent, rec);
                        let res = set_name(c.id);
                        match res {
                            Ok(()) => Ok(c.id),
                            Err(e) => Err(e),
                        }
                    },
                }
            },
        }
    }

    /// The first variable storage component left unnamed in the cache whose
    /// name, as `name_of` reads it from the game (empty when that fails), is
    /// `name`; when queries go to the game, what `engine` finds.
    pub fn get_var_unknown<F: Fn(ComponentID) -> Result<String, EngineError>, G: FnOnce() -> Option<ComponentID>>(
        &self,
        name: &str,
        name_of: F,
        engine: G,
    ) -> (r: Option<ComponentID>)
        requires
            engine.requires(()),
            forall|id: ComponentID| name_of.requires((id,)),
        ensures
            self.direct() ==> engine.ensures((), r),
            !self.direct() ==> {
                let s = self.data().list(CachedComponent::VariableStorageComponent);
                &&& r matches Some(id) ==> exists|i: int| unknown_found_at(name_of, s, name@, i) && s[i].id == id
                &&& r is None ==> unknown_absent(name_of, s, name@)
            },
    {
        if self.use_cache {
            return engine();
        }
        let list = self.components_of(CachedComponent::VariableStorageComponent);
        let ghost s = list@;
        let mut i: usize = 0;
        while i < list.len()
            invariant
                list@ == s,
                s == self.data().list(CachedComponent::VariableStorageComponent),
                !self.direct(),
                i <= s.len(),
                forall|id: ComponentID| name_of.requires((id,)),
                forall|j: int| 0 <= j < i && (#[trigger] s[j]).name == VarName::Unknown ==> reads_other(name_of, s[j].id, name@),
            decreases s.len() - i,
        {
            let c = list[i];
            if c.name == VarName::Unknown {
                let reply = name_of(c.id);
                proof {
                    assert(c == s[i as int]);
                    assert(name_of.ensures((s[i as int].id,), reply));
                }
                let got: &str = match &reply {
                    Ok(t) => t.as_str(),
                    Err(_) => "",
                };
                proof {
                    reveal_strlit("");
                    assert(got@ == reply_text(reply));
                }
                let same = crate::text::str_eq(got, name);
                if same {
                    proof {
                        assert(unknown_found_at(name_of, s, name@, i as int));
                    }
                    return Some(c.id);
                }
            }
            i = i + 1;
        }
        None
    }
}

impl EntityManager {
    /// As `get_var_or_default`, for a name not listed among `VarName`s: the
    /// component is looked up as `get_var_unknown` does, and a new one is
    /// recorded as `VarName::Unknown` before `set_name` writes `name` in the
    /// game.
    pub fn get_var_or_default_unknown<F: Fn(ComponentID) -> Result<String, EngineError>, C: FnOnce() -> Result<ComponentData, EngineError>, N: FnOnce(ComponentID) -> Result<(), EngineError>, G: FnOnce() -> Result<ComponentID, EngineError>>(
        &mut self,
        name: &str,
        name_of: F,
        create: C,
        set_name: N,
        engine: G,
    ) -> (r: Result<ComponentID, EngineError>)
        requires
            forall|id: ComponentID| name_of.requires((id,)),
            create.requires(()),
            forall|id: ComponentID| set_name.requires((id,)),
            engine.requires(()),
            !old(self).direct() ==> old(self).data().list(CachedComponent::VariableStorageComponent).len() < LIST_LIMIT,
        ensures
            same_but_data(*old(self), *final(self)),
            old(self).direct() ==> engine.ensures((), r) && final(self).data() == old(self).data(),
            !old(self).direct() ==> {
                let s = old(self).data().list(CachedComponent::VariableStorageComponent);
                ||| exists|i: int| {
                    &&& unknown_found_at(name_of, s, name@, i)
                    &&& r == Ok::<ComponentID, EngineError>(s[i].id)
                    &&& final(self).data() == old(self).data()
                }
                ||| {
                    &&& unknown_absent(name_of, s, name@)
                    &&& exists|made: Result<ComponentData, EngineError>| {
                        &&& create.ensures((), made)
                        &&& match made {
                            Err(e) => r == Err::<ComponentID, EngineError>(e) && final(self).data() == old(self).data(),
                            Ok(c) => {
                                &&& final(self).data().list(CachedComponent::VariableStorageComponent) == s.push(named(c, VarName::Unknown))
                                &&& only_list_changed(old(self).data(), final(self).data(), CachedComponent::VariableStorageComponent)
                                &&& exists|res: Result<(), EngineError>| {
                                    &&& set_name.ensures((c.id,), res)
                                    &&& match res {
                                        Ok(_) => r == Ok::<ComponentID, EngineError>(c.id),
                                        Err(e) => r == Err::<ComponentID, EngineError>(e),
                                    }
                                }
                            },
                        }
                    }
                }
            },
    {
        if self.use_cache {
            return engine();
        }
        let ghost s = self.data().list(CachedComponent::VariableStorageComponent);
        let found = self.get_var_unknown(name, name_of, || -> (r: Option<ComponentID>) { None });
        match found {
            Some(id) => Ok(id),
            None => {
                let made = create();
                match made {
                    Err(e) => Err(e),
                    Ok(c) => {
                        let rec = ComponentData { id: c.id, enabled: c.enabled, name: VarName::Unknown, tags: c.tags };
                        self.push_component(CachedComponent::VariableStorageComponent, rec);
                        let res = set_name(c.id);
                        match res {
                            Ok(()) => Ok(c.id),
                            Err(e) => Err(e),
                        }
                    },
                }
            },
        }
    }
}

/// `after` is `before` switched to entity `ent` through the cache: `ent`
/// is current and loaded, nothing else the cache knew changed, and data the
/// cache already held for `ent` is what it works on now.
pub open spec fn moved_to(before: EntityManager, ent: EntityID, after: EntityManager) -> bool {
    &&& after.current() == ent
    &&& after.loaded()
    &&& after.known() == before.known().insert(ent.id(), after.data())
    &&& before.loaded() && before.current() != ent && before.known().contains_key(ent.id())
        ==> after.data() == before.known()[ent.id()]
}

/// Leaving an entity for another and coming back through the cache gives
/// back the data it had, and the cache knows no more and no less than after
/// the first switch.
pub proof fn lemma_switch_round_trip(m0: EntityManager, m1: EntityManager, m2: EntityManager, b: EntityID)
    requires
        m0.loaded(),
        m0.current() != b,
        moved_to(m0, b, m1),
        moved_to(m1, m0.current(), m2),
    ensures
        m2.data() == m0.data(),
        m2.known() == m1.known(),
        m2.known()[b.id()] == m1.data(),
{
    let a = m0.current();
    EntityID::lemma_same_id(a, b);
    assert(m1.known().contains_key(a.id()));
    assert(m1.known()[a.id()] == m0.data());
    assert(m2.known() =~= m1.known());
}

/// After every component answering a query for `tag` was removed, none
/// answers it any more.
pub proof fn lemma_removed_answer_nothing(s: Seq<ComponentData>, tag: ComponentTag)
    ensures
        forall|i: int| 0 <= i < kept(s, tag).len() ==> !answers(#[trigger] kept(s, tag)[i], tag, true),
        first_answer(kept(s, tag), tag, true) is None,
        first_answer(kept(s, tag), tag, false) is None,
    decreases s.len(),
{
    if s.len() > 0 {
        lemma_removed_answer_nothing(s.drop_last(), tag);
    }
    let k = kept(s, tag);
    assert forall|i: int| 0 <= i < k.len() implies !answers(#[trigger] k[i], tag, true) by {
        if s.len() > 0 {
            let r = kept(s.drop_last(), tag);
            if i < r.len() {
                assert(k[i] == r[i]);
            }
        }
    }
    lemma_first_answer_skip(k, tag, true, k.len() as int);
    assert forall|i: int| 0 <= i < k.len() implies !answers(#[trigger] k[i], tag, false) by {
        assert(!answers(k[i], tag, true));
    }
    lemma_first_answer_skip(k, tag, false, k.len() as int);
}

/// After the components carrying `tag` were switched on or off, each of
/// them is as asked, and the others are as they were.
pub proof fn lemma_switched_as_asked(s: Seq<ComponentData>, tag: ComponentTag, on: bool, after: Seq<ComponentData>)
    requires
        after == s.map_values(|c: ComponentData| switched(c, tag, on)),
    ensures
        after.len() == s.len(),
        forall|i: int| 0 <= i < s.len() && tagged(s[i], tag) ==> (#[trigger] after[i]).enabled == on,
        forall|i: int| 0 <= i < s.len() && !tagged(s[i], tag) ==> #[trigger] after[i] == s[i],
{
}

/// A tag just added is there, and a tag just removed is gone.
pub proof fn lemma_tag_read_back(v: u16, tag: CachedTag)
    ensures
        tag_bit(v | (1u16 << cached_tag_index(tag)), cached_tag_index(tag)),
        !tag_bit(v & !(1u16 << cached_tag_index(tag)), cached_tag_index(tag)),
{
    let n = cached_tag_index(tag);
    assert(n < 16);
    assert(((v | (1u16 << n)) >> n) & 1u16 == 1u16) by (bit_vector)
        requires
            n < 16,
    ;
    assert(((v & !(1u16 << n)) >> n) & 1u16 != 1u16) by (bit_vector)
        requires
            n < 16,
    ;
}

impl EntityManager {
    /// The current entity's stain mask: `stained_of` reads which stain
    /// effects of its first enabled status component are at or above the
    /// game's threshold; no status component gives no stain. When queries go
    /// to the game, `engine` answers.
    pub fn get_current_stains<S: FnOnce(ComponentID) -> Result<Vec<bool>, EngineError>, G: FnOnce() -> Result<u64, EngineError>>(
        &self,
        stained_of: S,
        engine: G,
    ) -> (r: Result<u64, EngineError>)
        requires
            engine.requires(()),
            forall|id: ComponentID| stained_of.requires((id,)),
            forall|id: ComponentID, res: Result<Vec<bool>, EngineError>| stained_of.ensures((id,), res)
                ==> (res matches Ok(v) ==> v@.len() <= 64),
        ensures
            self.direct() ==> engine.ensures((), r),
            !self.direct() ==> match first_answer(self.data().list(CachedComponent::StatusEffectDataComponent), ComponentTag::NoTag, false) {
                None => r == Ok::<u64, EngineError>(0),
                Some(c) => exists|res: Result<Vec<bool>, EngineError>| {
                    &&& stained_of.ensures((c.id,), res)
                    &&& match res {
                        Err(e) => r == Err::<u64, EngineError>(e),
                        Ok(v) => r matches Ok(m) && forall|i: int| 0 <= i < 64 ==> #[trigger] crate::api::stain_bit(m, i) == (i < v@.len() && v@[i]),
                    }
                },
            },
    {
        if self.use_cache {
            return engine();
        }
        let list = self.components_of(CachedComponent::StatusEffectDataComponent);
        match find_answer(list, ComponentTag::NoTag, false) {
            None => EntityID::get_current_stains(None),
            Some(i) => {
                let res = stained_of(list[i].id);
                let ghost seen = res;
                let r = EntityID::get_current_stains(Some(res));
                proof {
                    assert(stained_of.ensures((list@[i as int].id,), seen));
                }
                r
            },
        }
    }

    /// Clears, through `remove`, the stains the current entity shows but
    /// `current_stains` does not hold, reading its first enabled status
    /// component through `stained_of` as `get_current_stains` does; only the
    /// first `known` stain effects have an id to clear by. When queries go to
    /// the game, `engine` does it all.
    pub fn set_current_stains<S: FnOnce(ComponentID) -> Result<Vec<bool>, EngineError>, F: Fn(usize) -> Result<(), EngineError>, G: FnOnce() -> Result<(), EngineError>>(
        &self,
        current_stains: u64,
        stained_of: S,
        known: usize,
        remove: F,
        engine: G,
    ) -> (r: Result<(), EngineError>)
        requires
            engine.requires(()),
            forall|id: ComponentID| stained_of.requires((id,)),
            forall|i: usize| remove.requires((i,)),
            known <= 64,
        ensures
            self.direct() ==> engine.ensures((), r),
            !self.direct() ==> match first_answer(self.data().list(CachedComponent::StatusEffectDataComponent), ComponentTag::NoTag, false) {
                None => r is Ok,
                Some(c) => exists|res: Result<Vec<bool>, EngineError>| {
                    &&& stained_of.ensures((c.id,), res)
                    &&& match res {
                        Err(e) => r == Err::<(), EngineError>(e),
                        Ok(v) => {
                            &&& r is Ok ==> forall|i: usize| #[trigger] crate::api::stain_to_clear(current_stains, v@, known as int, i)
                                ==> exists|done: Result<(), EngineError>| done is Ok && remove.ensures((i,), done)
                            &&& r matches Err(e) ==> exists|i: usize| #[trigger] crate::api::stain_to_clear(current_stains, v@, known as int, i)
                                && remove.ensures((i,), Err(e))
                        },
                    }
                },
            },
    {
        if self.use_cache {
            return engine();
        }
        let list = self.components_of(CachedComponent::StatusEffectDataComponent);
        match find_answer(list, ComponentTag::NoTag, false) {
            None => EntityID::set_current_stains(current_stains, None, known, remove),
            Some(i) => {
                let res = stained_of(list[i].id);
                let ghost seen = res;
                let r = EntityID::set_current_stains(current_stains, Some(res), known, remove);
                proof {
                    assert(stained_of.ensures((list@[i as int].id,), seen));
                }
                r
            },
        }
    }
}

impl Default for EntityManager {
    /// An empty cache on the placeholder entity `-1`, with the frame counter
    /// unread and queries going through the cache.
    fn default() -> (r: Self)
        ensures
            r.current().id() == -1,
            !r.loaded(),
            r.parked() == Map::<isize, EntityData>::empty(),
            r.frame() == -1,
            !r.direct(),
            r.file_cache() matches Some(f) && forall|name: Seq<char>| #[trigger] f.names_of(name) is None,
    {
        let placeholder = EntityID::new(-1).unwrap();
        EntityManager {
            cache: HashMap::new(),
            current_entity: placeholder,
            current_data: EntityData::empty(),
            has_ran: false,
            files: Some(FileCache::new()),
            frame_num: -1,
            use_cache: false,
        }
    }
}

/// The texts of a list of strings.
pub open spec fn texts(v: Seq<String>) -> Seq<Seq<char>> {
    v.map_values(|s: String| s@)
}

/// The names a list of cache entries holds for `file`: those of the first
/// entry for it.
pub open spec fn lookup(entries: Seq<(String, Vec<String>)>, file: Seq<char>) -> Option<Seq<Seq<char>>>
    decreases entries.len(),
{
    if entries.len() == 0 {
        None
    } else if entries[0].0@ == file {
        Some(texts(entries[0].1@))
    } else {
        lookup(entries.subrange(1, entries.len() as int), file)
    }
}

proof fn lemma_lookup_skip(entries: Seq<(String, Vec<String>)>, file: Seq<char>, i: int)
    requires
        0 <= i <= entries.len(),
        forall|j: int| 0 <= j < i ==> (#[trigger] entries[j]).0@ != file,
    ensures
        lookup(entries, file) == lookup(entries.subrange(i, entries.len() as int), file),
    decreases i,
{
    if i > 0 {
        let t = entries.subrange(1, entries.len() as int);
        assert forall|j: int| 0 <= j < i - 1 implies (#[trigger] t[j]).0@ != file by {
            assert(t[j] == entries[j + 1]);
        }
        lemma_lookup_skip(t, file, i - 1);
        assert(t.subrange(i - 1, t.len() as int) =~= entries.subrange(i, entries.len() as int));
    } else {
        assert(entries.subrange(0, entries.len() as int) =~= entries);
    }
}

proof fn lemma_lookup_push(entries: Seq<(String, Vec<String>)>, e: (String, Vec<String>), file: Seq<char>)
    ensures
        lookup(entries.push(e), file) == (if lookup(entries, file) is Some {
            lookup(entries, file)
        } else if e.0@ == file {
            Some(texts(e.1@))
        } else {
            None
        }),
    decreases entries.len(),
{
    let p = entries.push(e);
    if entries.len() == 0 {
        assert(p[0] == e);
        assert(p.subrange(1, p.len() as int) =~= Seq::<(String, Vec<String>)>::empty());
    } else {
        assert(p[0] == entries[0]);
        let t = entries.subrange(1, entries.len() as int);
        lemma_lookup_push(t, e, file);
        assert(p.subrange(1, p.len() as int) =~= t.push(e));
    }
}

/// The names declared in the game's data files, by file name, as far as
/// they were read.
pub struct FileCache {
    entries: Vec<(String, Vec<String>)>,
}

impl FileCache {
    /// The names held for `file`, if it was read.
    pub closed spec fn names_of(self, file: Seq<char>) -> Option<Seq<Seq<char>>> {
        lookup(self.entries@, file)
    }

    /// A cache that has read no file.
    pub fn new() -> (r: Self)
        ensures
            forall|f: Seq<char>| #[trigger] r.names_of(f) is None,
    {
        FileCache { entries: Vec::new() }
    }
}

impl FileCache {
    /// The names declared in data file `file`: those held from an earlier
    /// read, or else those in the content `read` gets from the game, which
    /// are then held; a failed read is handed back.
    pub fn get<'a, F: FnOnce() -> Result<String, EngineError>>(&'a mut self, file: &str, read: F) -> (r: Result<&'a [String], EngineError>)
        requires
            read.requires(()),
            forall|c: Result<String, EngineError>| read.ensures((), c) ==> (c matches Ok(t) ==> names_closed(t@)),
        ensures
            match old(self).names_of(file@) {
                Some(ns) => r matches Ok(v) && texts(v@) == ns
                    && forall|f: Seq<char>| #[trigger] final(self).names_of(f) == old(self).names_of(f),
                None => exists|c: Result<String, EngineError>| {
                    &&& read.ensures((), c)
                    &&& match c {
                        Err(e) => r matches Err(x) && x == e
                            && forall|f: Seq<char>| #[trigger] final(self).names_of(f) == old(self).names_of(f),
                        Ok(t) => r matches Ok(v) && texts(v@) == declared_names(t@)
                            && forall|f: Seq<char>| #[trigger] final(self).names_of(f)
                                == (if f == file@ { Some(declared_names(t@)) } else { old(self).names_of(f) }),
                    }
                },
            },
    {
        let mut i: usize = 0;
        while i < self.entries.len()
            invariant
                i <= self.entries@.len(),
                forall|j: int| 0 <= j < i ==> (#[trigger] self.entries@[j]).0@ != file@,
            decreases self.entries@.len() - i,
        {
            if str_eq(self.entries[i].0.as_str(), file) {
                proof {
                    lemma_lookup_skip(self.entries@, file@, i as int);
                    let rest = self.entries@.subrange(i as int, self.entries@.len() as int);
                    assert(rest[0] == self.entries@[i as int]);
                }
                return Ok(self.entries[i].1.as_slice());
            }
            i = i + 1;
        }
        proof {
            lemma_lookup_skip(self.entries@, file@, i as int);
            assert(self.entries@.subrange(i as int, self.entries@.len() as int).len() == 0);
        }
        let got = read();
        let ghost seen = got;
        let content = match got {
            Ok(t) => t,
            Err(e) => {
                proof {
                    assert(read.ensures((), seen));
                }
                return Err(e);
            },
        };
        let names = names_in_file(content.as_str());
        let key = String::from_str(file);
        let ghost before = self.entries@;
        let ghost entry = (key, names);
        proof {
            assert(texts(names@) =~= declared_names(content@));
        }
        self.entries.push((key, names));
        proof {
            assert forall|f: Seq<char>| #[trigger] lookup(self.entries@, f)
                == (if f == file@ { Some(declared_names(content@)) } else { lookup(before, f) }) by {
                lemma_lookup_push(before, entry, f);
            }
            assert(read.ensures((), seen));
        }
        let n = self.entries.len() - 1;
        Ok(self.entries[n].1.as_slice())
    }
}

/// The names declared in data file `file`, through the cache in `files`,
/// which must be there: as `FileCache::get`.
pub fn get_file<'a, F: FnOnce() -> Result<String, EngineError>>(files: &'a mut Option<FileCache>, file: &str, read: F) -> (r: Result<&'a [String], EngineError>)
    requires
        *old(files) is Some,
        read.requires(()),
        forall|c: Result<String, EngineError>| read.ensures((), c) ==> (c matches Ok(t) ==> names_closed(t@)),
    ensures
        *final(files) is Some,
        match (*old(files))->0.names_of(file@) {
            Some(ns) => r matches Ok(v) && texts(v@) == ns
                && forall|f: Seq<char>| #[trigger] (*final(files))->0.names_of(f) == (*old(files))->0.names_of(f),
            None => exists|c: Result<String, EngineError>| {
                &&& read.ensures((), c)
                &&& match c {
                    Err(e) => r matches Err(x) && x == e
                        && forall|f: Seq<char>| #[trigger] (*final(files))->0.names_of(f) == (*old(files))->0.names_of(f),
                    Ok(t) => r matches Ok(v) && texts(v@) == declared_names(t@)
                        && forall|f: Seq<char>| #[trigger] (*final(files))->0.names_of(f)
                            == (if f == file@ { Some(declared_names(t@)) } else { (*old(files))->0.names_of(f) }),
                }
            },
        },
{
    match files {
        Some(cache) => cache.get(file, read),
        None => {
            proof {
                assert(false);
            }
            Ok(&[])
        },
    }
}

} // verus!
