//! The game's buffer of the components of one type: components are numbered by
//! their position, and the components of each entity form a chain through the
//! `next` and `prev` tables, starting at the entity's entry.
use vstd::prelude::*;
use crate::std_vec::{can_grow, StdVec};
use crate::noita_types::{first_key_from, lemma_first_key_in_range, StdString, TagManager};

verus! {

/// A component buffer, with components and entities known by their addresses.
pub struct ComponentBuffer {
    pub vtable: usize,
    /// The value that ends a chain and marks an entity without components.
    pub end: usize,
    pub entity_entry: StdVec<usize>,
    pub entities: StdVec<usize>,
    pub prev: StdVec<usize>,
    pub next: StdVec<usize>,
    pub component_list: StdVec<usize>,
}

/// `s`, lengthened to at least `n` elements with `fill`.
pub open spec fn grown<T>(s: Seq<T>, n: int, fill: T) -> Seq<T> {
    if s.len() >= n {
        s
    } else {
        s + Seq::new((n - s.len()) as nat, |_i: int| fill)
    }
}

/// Following `next` from `off` stops within `n` steps: at a position past the
/// table, or at a component whose successor is `end`.
pub open spec fn reaches_end(next: Seq<usize>, end: usize, off: int, n: nat) -> bool
    decreases n,
{
    if !(0 <= off < next.len()) {
        true
    } else if next[off] == end {
        true
    } else if n == 0 {
        false
    } else {
        reaches_end(next, end, next[off] as int, (n - 1) as nat)
    }
}

/// Where a walk along `next` from `off` stops, as the last component visited
/// (`last` when none was) and the position it stopped at.
pub open spec fn walk(next: Seq<usize>, end: usize, off: int, last: int, n: nat) -> (int, int)
    decreases n,
{
    if !(0 <= off < next.len()) {
        (last, off)
    } else if next[off] == end {
        (off, off)
    } else if n == 0 {
        (off, off)
    } else {
        walk(next, end, next[off] as int, off, (n - 1) as nat)
    }
}

impl ComponentBuffer {
    /// Every table is consistent.
    pub open spec fn wf(&self) -> bool {
        &&& self.entity_entry.wf()
        &&& self.entities.wf()
        &&& self.prev.wf()
        &&& self.next.wf()
        &&& self.component_list.wf()
    }

    /// The first component of the entity at `entry`, if it has one.
    pub open spec fn head(&self, entry: int) -> Option<int> {
        if 0 <= entry < self.entity_entry@.len() && self.entity_entry@[entry] != self.end {
            Some(self.entity_entry@[entry] as int)
        } else {
            None
        }
    }

    /// Where the walk along the chain of the entity at `entry` stops.
    pub open spec fn tail(&self, entry: int) -> (int, int) {
        match self.head(entry) {
            Some(h) => walk(self.next@, self.end, h, self.end as int, self.next@.len()),
            None => (self.end as int, entry),
        }
    }

    /// Adding a component to the entity at `entry` ends: the entity's chain
    /// stops, and stops at a position the table can be written at.
    pub open spec fn can_create(&self, entry: int) -> bool {
        let index = self.component_list@.len() as int;
        match self.head(entry) {
            Some(h) => {
                &&& reaches_end(self.next@, self.end, h, self.next@.len())
                &&& 0 <= self.tail(entry).1 < grown(self.next@, index + 1, self.end).len()
            },
            None => true,
        }
    }

    /// Adds the component at address `component` to the entity at address
    /// `entity`, whose entry in the buffer is `entry`: the component takes the
    /// next position, and is linked at the end of the entity's chain, or
    /// starts it. Returns the component's position.
    pub fn create(&mut self, entry: usize, entity: usize, component: usize) -> (index: usize)
        requires
            old(self).wf(),
            old(self).can_create(entry as int),
            can_grow(old(self).component_list@.len() + 1, 1),
            can_grow(entry as nat + 1, 1),
        ensures
            final(self).wf(),
            index == old(self).component_list@.len(),
            final(self).end == old(self).end,
            final(self).component_list@ == old(self).component_list@.push(component),
            final(self).entities@ == grown(old(self).entities@, index + 1, 0).update(index as int, entity),
            match old(self).head(entry as int) {
                Some(h) => {
                    let (last, off) = old(self).tail(entry as int);
                    &&& final(self).entity_entry@ == grown(old(self).entity_entry@, entry + 1, old(self).end)
                    &&& final(self).next@ == grown(old(self).next@, index + 1, old(self).end).update(off, index)
                    &&& final(self).prev@ == grown(old(self).prev@, index + 1, old(self).end).update(index as int, last as usize)
                },
                None => {
                    &&& final(self).entity_entry@ == grown(old(self).entity_entry@, entry + 1, old(self).end).update(entry as int, index)
                    &&& final(self).next@ == grown(old(self).next@, index + 1, old(self).end).update(index as int, old(self).end)
                    &&& final(self).prev@ == old(self).prev@
                },
            },
    {
        let ghost old_self = *old(self);
        let index = self.component_list.len();
        self.component_list.push(component);
        if self.entities.len() > index {
            self.entities.set(index, entity);
            assert(grown(old_self.entities@, index + 1, 0) == old_self.entities@);
        } else {
            grow_to(&mut self.entities, index, 0);
            self.entities.push(entity);
            assert(self.entities@ =~= grown(old_self.entities@, index + 1, 0).update(index as int, entity));
        }
        let end = self.end;
        grow_to(&mut self.entity_entry, entry + 1, end);
        let e = *self.entity_entry.get(entry).unwrap();
        if e != end {
            let (last, off) = chain_tail(&self.next, end, e);
            grow_to(&mut self.next, index + 1, end);
            self.next.set(off, index);
            grow_to(&mut self.prev, index + 1, end);
            self.prev.set(index, last);
        } else {
            self.entity_entry.set(entry, index);
            grow_to(&mut self.next, index + 1, end);
            self.next.set(index, end);
        }
        index
    }
}

/// Lengthens `v` to at least `n` elements with `fill`.
fn grow_to(v: &mut StdVec<usize>, n: usize, fill: usize)
    requires
        old(v).wf(),
        n == 0 || can_grow((n - 1) as nat, 1),
    ensures
        final(v).wf(),
        final(v)@ == grown(old(v)@, n as int, fill),
{
    let ghost start = old(v)@;
    while v.len() < n
        invariant
            v.wf(),
            n == 0 || can_grow((n - 1) as nat, 1),
            v@.len() < n ==> v@ == grown(start, v@.len() as int, fill),
            v@.len() >= n ==> v@ == grown(start, n as int, fill),
            v@.len() <= n || v@ == start,
        decreases n - v@.len(),
    {
        let ghost before = v@;
        v.push(fill);
        assert(v@ =~= grown(start, v@.len() as int, fill));
    }
    proof {
        if start.len() < n {
            assert(v@ =~= grown(start, n as int, fill));
        }
    }
}

/// Walks the chain along `next` from `start`: the last component visited and
/// the position the walk stopped at.
fn chain_tail(next: &StdVec<usize>, end: usize, start: usize) -> (r: (usize, usize))
    requires
        reaches_end(next@, end, start as int, next@.len()),
    ensures
        (r.0 as int, r.1 as int) == walk(next@, end, start as int, end as int, next@.len()),
{
    let mut off: usize = start;
    let mut last: usize = end;
    let ghost mut fuel: nat = next@.len();
    loop
        invariant_except_break
            reaches_end(next@, end, off as int, fuel),
            walk(next@, end, off as int, last as int, fuel) == walk(next@, end, start as int, end as int, next@.len()),
        ensures
            (last as int, off as int) == walk(next@, end, start as int, end as int, next@.len()),
        decreases fuel,
    {
        match next.get(off) {
            Some(n) => {
                let n = *n;
                last = off;
                if n == end {
                    break;
                }
                off = n;
                proof {
                    fuel = (fuel - 1) as nat;
                }
            },
            None => {
                break;
            },
        }
    }
    (last, off)
}

/// Iterates the chain of one entity's components, yielding their addresses.
pub struct ComponentIter {
    component_list: StdVec<usize>,
    off: usize,
    end: usize,
    next: StdVec<usize>,
    prev: StdVec<usize>,
}

/// The same walk, for components that are to be changed.
pub type ComponentIterMut = ComponentIter;

/// One step of a walk along `links` from `off`: what is yielded and where the
/// walk goes on. A walk at `end`, or at a position past either table, yields
/// nothing and stays; a null component is skipped over but yields nothing.
pub open spec fn chain_step(list: Seq<usize>, links: Seq<usize>, end: usize, off: usize) -> (Option<usize>, usize) {
    if off == end || off >= list.len() || off >= links.len() {
        (None, off)
    } else if list[off as int] == 0 {
        (None, links[off as int])
    } else {
        (Some(list[off as int]), links[off as int])
    }
}

impl ComponentIter {
    /// The position the walk is at.
    pub closed spec fn position(&self) -> usize {
        self.off
    }

    /// The addresses of the components, by position.
    pub closed spec fn list(&self) -> Seq<usize> {
        self.component_list@
    }

    /// The forward links.
    pub closed spec fn forward(&self) -> Seq<usize> {
        self.next@
    }

    /// The backward links.
    pub closed spec fn backward(&self) -> Seq<usize> {
        self.prev@
    }

    /// The value that ends the walk.
    pub closed spec fn stop(&self) -> usize {
        self.end
    }

    /// The next component along the chain.
    pub fn next(&mut self) -> (r: Option<usize>)
        ensures
            (r, final(self).position()) == chain_step(old(self).list(), old(self).forward(), old(self).stop(), old(self).position()),
            final(self).list() == old(self).list(),
            final(self).forward() == old(self).forward(),
            final(self).backward() == old(self).backward(),
            final(self).stop() == old(self).stop(),
    {
        if self.off == self.end {
            return None;
        }
        let com = match self.component_list.get(self.off) {
            Some(c) => *c,
            None => {
                return None;
            },
        };
        match self.next.get(self.off) {
            Some(n) => {
                self.off = *n;
            },
            None => {
                return None;
            },
        }
        if com == 0 {
            None
        } else {
            Some(com)
        }
    }

    /// The next component walking the chain backwards.
    pub fn next_back(&mut self) -> (r: Option<usize>)
        ensures
            (r, final(self).position()) == chain_step(old(self).list(), old(self).backward(), old(self).stop(), old(self).position()),
            final(self).list() == old(self).list(),
            final(self).forward() == old(self).forward(),
            final(self).backward() == old(self).backward(),
            final(self).stop() == old(self).stop(),
    {
        if self.off == self.end {
            return None;
        }
        let com = match self.component_list.get(self.off) {
            Some(c) => *c,
            None => {
                return None;
            },
        };
        match self.prev.get(self.off) {
            Some(n) => {
                self.off = *n;
            },
            None => {
                return None;
            },
        }
        if com == 0 {
            None
        } else {
            Some(com)
        }
    }
}

impl ComponentBuffer {
    /// A walk over the components of the entity at `entry`, from its first one;
    /// an entity past the table gets an empty walk.
    pub fn iter_components(&self, entry: usize) -> (r: ComponentIter)
        requires
            self.wf(),
        ensures
            entry < self.entity_entry@.len() ==> r.position() == self.entity_entry@[entry as int]
                && r.list() == self.component_list@ && r.forward() == self.next@ && r.backward()
                == self.prev@ && r.stop() == self.end,
            entry >= self.entity_entry@.len() ==> r.position() == 0 && r.list().len() == 0
                && r.stop() == 0,
    {
        match self.entity_entry.get(entry) {
            Some(off) => ComponentIter {
                component_list: self.component_list.copy(),
                off: *off,
                next: self.next.copy(),
                prev: self.prev.copy(),
                end: self.end,
            },
            None => ComponentIter {
                component_list: StdVec::null(),
                off: 0,
                next: StdVec::null(),
                prev: StdVec::null(),
                end: 0,
            },
        }
    }

    /// Every component of the buffer, whatever entity it belongs to, in
    /// order of position; empty slots are left out.
    pub fn iter_every_component(&self) -> (r: Vec<usize>)
        requires
            self.wf(),
        ensures
            r@ == non_null(self.component_list@),
    {
        non_null_of(self.component_list.iter())
    }

    /// The first component of the entity at `entry`, if the walk yields one.
    pub fn get_first(&self, entry: usize) -> (r: Option<usize>)
        requires
            self.wf(),
        ensures
            entry < self.entity_entry@.len() ==> r == chain_step(self.component_list@, self.next@, self.end, self.entity_entry@[entry as int]).0,
            entry >= self.entity_entry@.len() ==> r is None,
    {
        let mut it = self.iter_components(entry);
        it.next()
    }
}

impl Default for ComponentBuffer {
    fn default() -> (r: Self)
        ensures
            r.wf(),
            r.end == usize::MAX,
            r.entity_entry@.len() == 0,
            r.entities@.len() == 0,
            r.prev@.len() == 0,
            r.next@.len() == 0,
            r.component_list@.len() == 0,
    {
        ComponentBuffer {
            vtable: 0,
            end: usize::MAX,
            entity_entry: StdVec::new(),
            entities: StdVec::new(),
            prev: StdVec::new(),
            next: StdVec::new(),
            component_list: StdVec::new(),
        }
    }
}

/// The game's entity manager, with entities and buffers known by their addresses.
pub struct EntityManager {
    pub vtable: usize,
    pub max_entity_id: usize,
    pub free_ids: StdVec<usize>,
    pub entities: StdVec<usize>,
    pub entity_buckets: StdVec<StdVec<usize>>,
    pub component_buffers: StdVec<usize>,
}

/// The addresses in `s` that are not null, in order.
pub open spec fn non_null(s: Seq<usize>) -> Seq<usize>
    decreases s.len(),
{
    if s.len() == 0 {
        Seq::empty()
    } else {
        non_null(s.drop_last()) + if s.last() != 0 {
            seq![s.last()]
        } else {
            Seq::empty()
        }
    }
}

fn non_null_of(s: &[usize]) -> (r: Vec<usize>)
    ensures
        r@ == non_null(s@),
{
    let mut out: Vec<usize> = Vec::new();
    let mut i: usize = 0;
    while i < s.len()
        invariant
            i <= s@.len(),
            out@ == non_null(s@.take(i as int)),
        decreases s@.len() - i,
    {
        assert(s@.take(i + 1).drop_last() =~= s@.take(i as int));
        if s[i] != 0 {
            out.push(s[i]);
        }
        i = i + 1;
    }
    assert(s@.take(i as int) =~= s@);
    out
}

impl EntityManager {
    /// Registers the entity at address `entity` under the next id: it takes the
    /// most recently freed entry, or a new one at the end. Returns its id and entry.
    pub fn create(&mut self, entity: usize) -> (r: (usize, usize))
        requires
            old(self).entities.wf(),
            old(self).free_ids.wf(),
            old(self).max_entity_id < usize::MAX,
            old(self).free_ids@.len() > 0 ==> old(self).free_ids@.last() < old(self).entities@.len(),
            old(self).free_ids@.len() == 0 ==> can_grow(old(self).entities@.len(), 1),
        ensures
            final(self).entities.wf(),
            final(self).free_ids.wf(),
            r.0 == old(self).max_entity_id + 1,
            final(self).max_entity_id == r.0,
            old(self).free_ids@.len() > 0 ==> r.1 == old(self).free_ids@.last()
                && final(self).free_ids@ == old(self).free_ids@.drop_last()
                && final(self).entities@ == old(self).entities@.update(r.1 as int, entity),
            old(self).free_ids@.len() == 0 ==> r.1 == old(self).entities@.len()
                && final(self).free_ids@ == old(self).free_ids@
                && final(self).entities@ == old(self).entities@.push(entity),
            final(self).entity_buckets == old(self).entity_buckets,
            final(self).component_buffers == old(self).component_buffers,
    {
        self.max_entity_id = self.max_entity_id + 1;
        let id = self.max_entity_id;
        match self.free_ids.pop() {
            Some(entry) => {
                self.entities.set(entry, entity);
                (id, entry)
            },
            None => {
                let entry = self.entities.len();
                self.entities.push(entity);
                (id, entry)
            },
        }
    }

    /// The entities that carry a tag, as the manager numbers it: the non-null
    /// addresses in the tag's bucket; none for a tag the manager does not know
    /// or a bucket that does not exist.
    pub fn iter_entities_with_tag(&self, tag_manager: &TagManager<u16>, tag: &StdString) -> (r: Vec<usize>)
        requires
            tag_manager.tag_indices.keys_wf(),
            tag.wf(),
        ensures
            r@ == match first_key_from(tag_manager.tag_indices@, tag.content(), 0) {
                Some(i) => {
                    let n = tag_manager.tag_indices@[i].1 as int;
                    if n < self.entity_buckets@.len() {
                        non_null(self.entity_buckets@[n]@)
                    } else {
                        Seq::empty()
                    }
                },
                None => Seq::empty(),
            },
    {
        proof {
            lemma_first_key_in_range(tag_manager.tag_indices@, tag.content(), 0);
        }
        match tag_manager.tag_indices.get(tag) {
            Some(n) => match self.entity_buckets.get(*n as usize) {
                Some(bucket) => non_null_of(bucket.iter()),
                None => Vec::new(),
            },
            None => Vec::new(),
        }
    }

    /// The entities that carry a tag the manager knows, with its bucket: the
    /// non-null addresses in the tag's bucket.
    pub fn get_entities_with_tag(&self, tag: &StdString, tag_manager: &TagManager<u16>) -> (r: Vec<usize>)
        requires
            tag_manager.tag_indices.keys_wf(),
            tag.wf(),
            first_key_from(tag_manager.tag_indices@, tag.content(), 0) matches Some(i)
                && (tag_manager.tag_indices@[i].1 as int) < self.entity_buckets@.len(),
        ensures
            r@ == non_null(self.entity_buckets@[tag_manager.tag_indices@[first_key_from(tag_manager.tag_indices@, tag.content(), 0)->0].1 as int]@),
    {
        proof {
            lemma_first_key_in_range(tag_manager.tag_indices@, tag.content(), 0);
        }
        let n = *tag_manager.tag_indices.get(tag).unwrap();
        let bucket = self.entity_buckets.get(n as usize).unwrap();
        non_null_of(bucket.iter())
    }

    /// Every entity, as the non-null addresses of the entity table.
    pub fn iter_entities(&self) -> (r: Vec<usize>)
        ensures
            r@ == non_null(self.entities@),
    {
        non_null_of(self.entities.iter())
    }

    /// Every component buffer, as the non-null addresses of the buffer table.
    pub fn iter_component_buffers(&self) -> (r: Vec<usize>)
        ensures
            r@ == non_null(self.component_buffers@),
    {
        non_null_of(self.component_buffers.iter())
    }
}

} // verus!
