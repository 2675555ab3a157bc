//! Identifiers of the game's entities and components, and the names of the
//! tags, variables and damage types that the game-side code refers to.
use vstd::prelude::*;
use vstd::string::{StringExecFns, StringSliceAdditionalSpecFns};
use crate::text::{comma_framed, decimal_isize, list_has_item, occurs_in, signed_decimal, str_eq};

verus! {

/// Why an id could not be made.
#[derive(Debug, Clone, Copy, PartialEq, Eq, Structural)]
pub struct ZeroId;

/// Id of an entity of the game; never zero.
#[derive(Debug, Clone, Copy, PartialEq, Eq, Hash, Structural)]
pub struct EntityID(isize);

impl EntityID {
    #[verifier::type_invariant]
    spec fn nonzero(self) -> bool {
        self.0 != 0
    }

    /// The raw id.
    pub closed spec fn id(self) -> isize {
        self.0
    }

    /// The entity with raw id `value`, unless it is zero.
    pub fn new(value: isize) -> (r: Result<Self, ZeroId>)
        ensures
            value != 0 ==> (r matches Ok(e) && e.id() == value),
            value == 0 ==> r is Err,
    {
        if value == 0 {
            Err(ZeroId)
        } else {
            Ok(EntityID(value))
        }
    }

    /// Returns id+1; the id after `-1` is zero, which is no id.
    pub fn next(self) -> (r: Result<Self, ZeroId>)
        requires
            self.id() < isize::MAX,
        ensures
            self.id() != -1 ==> (r matches Ok(e) && e.id() == self.id() + 1),
            self.id() == -1 ==> r is Err,
    {
        EntityID::new(self.0 + 1)
    }

    /// The raw id.
    pub fn raw(self) -> (r: isize)
        ensures
            r == self.id(),
            r != 0,
    {
        proof {
            use_type_invariant(self);
        }
        self.0
    }

    /// Two entities are the same exactly when their raw ids are.
    pub proof fn lemma_same_id(a: EntityID, b: EntityID)
        ensures
            (a.id() == b.id()) == (a == b),
    {
    }
}

/// An error the game's scripting interface reported: its message, and the
/// context that callers wrapped around it on its way out, innermost first.
pub struct EngineError {
    pub message: String,
    pub context: Vec<String>,
}

/// `e` is a new error with message `text` and no context.
pub open spec fn fresh_error(e: EngineError, text: Seq<char>) -> bool {
    e.message@ == text && e.context@.len() == 0
}

/// `x` is `e` with the context `text` wrapped around it.
pub open spec fn wraps(x: EngineError, e: EngineError, text: Seq<char>) -> bool {
    &&& x.message == e.message
    &&& x.context@.len() == e.context@.len() + 1
    &&& x.context@.drop_last() == e.context@
    &&& x.context@.last()@ == text
}

/// What an error shows: its outermost context, or its message when nothing
/// was wrapped around it.
pub open spec fn error_text(e: EngineError) -> Seq<char> {
    if e.context@.len() == 0 {
        e.message@
    } else {
        e.context@.last()@
    }
}

impl EngineError {
    /// An error with `message` and no context.
    pub fn new(message: String) -> (r: Self)
        ensures
            r.message == message,
            r.context@.len() == 0,
    {
        EngineError { message, context: Vec::new() }
    }

    /// The error with the context `text` wrapped around it.
    pub fn wrap(self, text: String) -> (r: Self)
        ensures
            wraps(r, self, text@),
            r.context@.last() == text,
    {
        let EngineError { message, context } = self;
        let ghost before = context@;
        let mut context = context;
        context.push(text);
        proof {
            assert(context@.drop_last() =~= before);
        }
        EngineError { message, context }
    }

    /// A copy.
    pub fn duplicate(&self) -> (r: Self)
        ensures
            r.message@ == self.message@,
            r.context@.len() == self.context@.len(),
            forall|i: int| 0 <= i < self.context@.len() ==> #[trigger] r.context@[i]@ == self.context@[i]@,
    {
        let mut context: Vec<String> = Vec::new();
        let mut i: usize = 0;
        while i < self.context.len()
            invariant
                i <= self.context@.len(),
                context@.len() == i,
                forall|j: int| 0 <= j < i ==> #[trigger] context@[j]@ == self.context@[j]@,
            decreases self.context@.len() - i,
        {
            context.push(self.context[i].clone());
            i = i + 1;
        }
        EngineError { message: self.message.clone(), context }
    }

    /// What the error shows: its outermost context, or its message.
    pub fn to_string(&self) -> (r: String)
        ensures
            r@ == error_text(*self),
    {
        if self.context.len() == 0 {
            self.message.clone()
        } else {
            self.context[self.context.len() - 1].clone()
        }
    }
}

/// What the game-side code makes of the game's replies about an entity: the
/// query goes to the game, and the reply is handed here.
impl EntityID {
    /// Whether the entity is alive, given the game's reply; a failed query
    /// counts as dead.
    pub fn is_alive(reply: Result<bool, EngineError>) -> (r: bool)
        ensures
            r == reply_true(reply),
    {
        match reply {
            Ok(b) => b,
            Err(_) => false,
        }
    }

    /// Whether the entity has a tag, given the game's reply; a failed query
    /// counts as no.
    pub fn has_tag(reply: Result<bool, EngineError>) -> (r: bool)
        ensures
            r == reply_true(reply),
    {
        match reply {
            Ok(b) => b,
            Err(_) => false,
        }
    }

    /// The entity's parent, given the game's reply; an entity without a
    /// parent is its own parent.
    pub fn parent(self, reply: Result<Option<EntityID>, EngineError>) -> (r: Result<EntityID, EngineError>)
        ensures
            match reply {
                Ok(Some(p)) => r matches Ok(q) && q == p,
                Ok(None) => r matches Ok(q) && q == self,
                Err(e) => r matches Err(x) && x == e,
            },
    {
        match reply {
            Ok(Some(p)) => Ok(p),
            Ok(None) => Ok(self),
            Err(e) => Err(e),
        }
    }

    /// The entity the game created, given its reply; no entity is an error.
    pub fn create(reply: Result<Option<EntityID>, EngineError>) -> (r: Result<EntityID, EngineError>)
        ensures
            match reply {
                Ok(Some(n)) => r matches Ok(q) && q == n,
                Ok(None) => r matches Err(e) && fresh_error(e, "ent not found"@),
                Err(e) => r matches Err(x) && x == e,
            },
    {
        match reply {
            Ok(Some(n)) => Ok(n),
            Err(s) => Err(s),
            Ok(None) => Err(EngineError::new(String::from_str("ent not found"))),
        }
    }

    /// The entity's tag list, given the game's reply; no list is the empty one.
    pub fn tags(reply: Result<Option<String>, EngineError>) -> (r: Result<String, EngineError>)
        ensures
            match reply {
                Ok(Some(t)) => r matches Ok(q) && q@ == t@,
                Ok(None) => r matches Ok(q) && q@ == Seq::<char>::empty(),
                Err(e) => r matches Err(x) && x == e,
            },
    {
        match reply {
            Ok(Some(t)) => Ok(t),
            Ok(None) => Ok(String::new()),
            Err(e) => Err(e),
        }
    }

    /// The ids the game listed, skipping the empty slots.
    fn present_ids(ids: Vec<Option<EntityID>>) -> (r: Vec<EntityID>)
        ensures
            r@ == present(ids@),
    {
        let mut out: Vec<EntityID> = Vec::new();
        let mut i: usize = 0;
        while i < ids.len()
            invariant
                i <= ids@.len(),
                out@ == present(ids@.take(i as int)),
            decreases ids@.len() - i,
        {
            assert(ids@.take(i + 1).drop_last() =~= ids@.take(i as int));
            match ids[i] {
                Some(e) => out.push(e),
                None => {},
            }
            i = i + 1;
        }
        assert(ids@.take(i as int) =~= ids@);
        out
    }

    /// The entity's children, given the game's reply; a failed query or no
    /// list is no children, and empty slots are skipped.
    pub fn children(reply: Result<Option<Vec<Option<EntityID>>>, EngineError>) -> (r: Vec<EntityID>)
        ensures
            match reply {
                Ok(Some(v)) => r@ == present(v@),
                _ => r@ == Seq::<EntityID>::empty(),
            },
    {
        match reply {
            Ok(Some(v)) => Self::present_ids(v),
            _ => Vec::new(),
        }
    }

    /// The entities with a tag, given the game's reply; empty slots are skipped.
    pub fn get_with_tag(reply: Result<Vec<Option<EntityID>>, EngineError>) -> (r: Result<Vec<EntityID>, EngineError>)
        ensures
            match reply {
                Ok(v) => r matches Ok(q) && q@ == present(v@),
                Err(e) => r matches Err(x) && x == e,
            },
    {
        match reply {
            Ok(v) => Ok(Self::present_ids(v)),
            Err(s) => Err(s),
        }
    }

    /// The largest entity id in use, given the game's reply; zero is no id.
    pub fn max_in_use(reply: Result<isize, EngineError>) -> (r: Result<EntityID, EngineError>)
        ensures
            match reply {
                Ok(v) => if v != 0 {
                    r matches Ok(e) && e.id() == v
                } else {
                    r matches Err(e) && fresh_error(e, "entity id is zero"@)
                },
                Err(e) => r matches Err(x) && x == e,
            },
    {
        match reply {
            Ok(v) => match EntityID::new(v) {
                Ok(e) => Ok(e),
                Err(_) => Err(EngineError::new(String::from_str("entity id is zero"))),
            },
            Err(e) => Err(e),
        }
    }

    /// Whether every physics body of the entity is initialised, given the
    /// game's answer for each; the first failed query fails the whole.
    pub fn check_all_phys_init(replies: Vec<Result<bool, EngineError>>) -> (r: Result<bool, EngineError>)
        ensures
            r matches Ok(b) ==> (b <==> forall|i: int| 0 <= i < replies@.len() ==> reply_true(#[trigger] replies@[i])),
            r is Err ==> exists|i: int| 0 <= i < replies@.len() && #[trigger] replies@[i] is Err,
    {
        let mut i: usize = 0;
        while i < replies.len()
            invariant
                i <= replies@.len(),
                forall|j: int| 0 <= j < i ==> reply_true(#[trigger] replies@[j]),
            decreases replies@.len() - i,
        {
            match &replies[i] {
                Ok(true) => {},
                Ok(false) => {
                    assert(!reply_true(replies@[i as int]));
                    return Ok(false);
                },
                Err(e) => {
                    assert(replies@[i as int] is Err);
                    return Err(e.duplicate());
                },
            }
            i = i + 1;
        }
        Ok(true)
    }
}

/// Bit `i` of a stain mask.
pub open spec fn stain_bit(mask: u64, i: int) -> bool {
    (mask >> (i as u64)) & 1u64 == 1u64
}

/// The stain mask whose bit `i` is set exactly for the stain effects
/// `stained` marks (those at or above the game's threshold).
pub fn stain_mask(stained: &[bool]) -> (r: u64)
    requires
        stained@.len() <= 64,
    ensures
        forall|i: int| 0 <= i < 64 ==> #[trigger] stain_bit(r, i) == (i < stained@.len() && stained@[i]),
{
    let mut mask: u64 = 0;
    let mut i: usize = 0;
    assert forall|j: int| 0 <= j < 64 implies !#[trigger] stain_bit(0u64, j) by {
        let jj = j as u64;
        assert((0u64 >> jj) & 1u64 != 1u64) by (bit_vector);
    }
    while i < stained.len()
        invariant
            i <= stained@.len(),
            stained@.len() <= 64,
            forall|j: int| 0 <= j < 64 ==> #[trigger] stain_bit(mask, j) == (j < i && stained@[j]),
        decreases stained@.len() - i,
    {
        let before = mask;
        if stained[i] {
            let k = i as u64;
            mask = mask | (1u64 << k);
            assert forall|j: int| 0 <= j < 64 implies #[trigger] stain_bit(mask, j) == (j == i || stain_bit(before, j)) by {
                let jj = j as u64;
                assert(((before | (1u64 << k)) >> jj) & 1u64 == 1u64 <==> (jj == k || (before >> jj) & 1u64 == 1u64)) by (bit_vector)
                    requires
                        k < 64,
                        jj < 64,
                ;
            }
        }
        i = i + 1;
    }
    mask
}

/// Stain effect `i` is to be cleared: the status shows it (among the first
/// `known` effects, those with a known id) and `current` does not.
pub open spec fn stain_to_clear(current: u64, stained: Seq<bool>, known: int, i: usize) -> bool {
    &&& i < stained.len()
    &&& i < known
    &&& stained[i as int]
    &&& !stain_bit(current, i as int)
}

/// Clears, through `remove`, every stain effect of `stained` that `current`
/// does not hold, in order; the first failure ends the work.
pub fn clear_stains<F: Fn(usize) -> Result<(), EngineError>>(current: u64, stained: &[bool], known: usize, remove: F) -> (r: Result<(), EngineError>)
    requires
        forall|i: usize| remove.requires((i,)),
        stained@.len() <= 64 || known <= 64,
    ensures
        r is Ok ==> forall|i: usize| #[trigger] stain_to_clear(current, stained@, known as int, i)
            ==> exists|res: Result<(), EngineError>| res is Ok && remove.ensures((i,), res),
        r matches Err(e) ==> exists|i: usize| #[trigger] stain_to_clear(current, stained@, known as int, i)
            && remove.ensures((i,), Err(e)),
{
    let mut i: usize = 0;
    while i < stained.len() && i < known
        invariant
            i <= stained@.len(),
            stained@.len() <= 64 || known <= 64,
            i <= known,
            forall|i: usize| remove.requires((i,)),
            forall|j: usize| j < i && #[trigger] stain_to_clear(current, stained@, known as int, j)
                ==> exists|res: Result<(), EngineError>| res is Ok && remove.ensures((j,), res),
        decreases stained@.len() - i,
    {
        let k = i as u64;
        assert(((current >> k) & 1u64 == 0) == !((current >> k) & 1u64 == 1u64)) by (bit_vector);
        assert(stain_bit(current, i as int) == ((current >> k) & 1u64 == 1u64));
        if stained[i] && (current >> k) & 1u64 == 0 {
            let res = remove(i);
            proof {
                assert(stain_to_clear(current, stained@, known as int, i));
            }
            match res {
                Ok(()) => {
                    proof {
                        assert(res is Ok && remove.ensures((i,), res));
                    }
                },
                Err(e) => {
                    return Err(e);
                },
            }
        }
        i = i + 1;
    }
    Ok(())
}

impl EntityID {
    /// The entity's stain mask, given its status component's stain effects
    /// marked at or above the game's threshold (`None` when the entity has no
    /// status component or the lookup failed); a failure to read the effects
    /// is handed back.
    pub fn get_current_stains(status: Option<Result<Vec<bool>, EngineError>>) -> (r: Result<u64, EngineError>)
        requires
            status matches Some(Ok(v)) ==> v@.len() <= 64,
        ensures
            status is None ==> r == Ok::<u64, EngineError>(0),
            status matches Some(Err(e)) ==> r == Err::<u64, EngineError>(e),
            status matches Some(Ok(v)) ==> r matches Ok(m) && forall|i: int| 0 <= i < 64 ==> #[trigger] stain_bit(m, i) == (i < v@.len() && v@[i]),
    {
        match status {
            None => {
                assert forall|j: int| 0 <= j < 64 implies !#[trigger] stain_bit(0u64, j) by {
                    let jj = j as u64;
                    assert((0u64 >> jj) & 1u64 != 1u64) by (bit_vector);
                }
                Ok(0)
            },
            Some(Err(e)) => Err(e),
            Some(Ok(v)) => Ok(stain_mask(v.as_slice())),
        }
    }

    /// Clears, through `remove`, the stain effects the entity shows but
    /// `current_stains` does not hold, given its status component's stain
    /// effects as for `get_current_stains`; only the first `known` effects
    /// have an id to clear by.
    pub fn set_current_stains<F: Fn(usize) -> Result<(), EngineError>>(current_stains: u64, status: Option<Result<Vec<bool>, EngineError>>, known: usize, remove: F) -> (r: Result<(), EngineError>)
        requires
            forall|i: usize| remove.requires((i,)),
            status matches Some(Ok(v)) ==> v@.len() <= 64 || known <= 64,
        ensures
            status is None ==> r is Ok,
            status matches Some(Err(e)) ==> r == Err::<(), EngineError>(e),
            status matches Some(Ok(v)) ==> {
                &&& r is Ok ==> forall|i: usize| #[trigger] stain_to_clear(current_stains, v@, known as int, i)
                    ==> exists|res: Result<(), EngineError>| res is Ok && remove.ensures((i,), res)
                &&& r matches Err(e) ==> exists|i: usize| #[trigger] stain_to_clear(current_stains, v@, known as int, i)
                    && remove.ensures((i,), Err(e))
            },
    {
        match status {
            None => Ok(()),
            Some(Err(e)) => Err(e),
            Some(Ok(v)) => clear_stains(current_stains, v.as_slice(), known, remove),
        }
    }
}

/// The telekinesis components among `grabs` (each with the body it holds)
/// that hold one of `bodies`, in order.
pub open spec fn held_bodies(bodies: Seq<PhysicsBodyID>, grabs: Seq<(ComponentID, PhysicsBodyID)>) -> Seq<ComponentID>
    decreases grabs.len(),
{
    if grabs.len() == 0 {
        Seq::empty()
    } else {
        let rest = held_bodies(bodies, grabs.drop_last());
        if bodies.contains(grabs.last().1) {
            rest.push(grabs.last().0)
        } else {
            rest
        }
    }
}

impl EntityID {
    /// Whether killing the entity first lets go of its physics bodies: it is
    /// alive, it has no cell eater (a failed lookup counts as none), and all
    /// its physics bodies are initialised (a failed check counts as not).
    pub fn kill_frees_bodies(alive: bool, cell_eater: Result<Option<ComponentID>, EngineError>, phys_init: Result<bool, EngineError>) -> (r: bool)
        ensures
            r == (alive && !(cell_eater matches Ok(Some(_))) && reply_true(phys_init)),
    {
        if !alive {
            return false;
        }
        match cell_eater {
            Ok(Some(_)) => false,
            _ => match phys_init {
                Ok(b) => b,
                Err(_) => false,
            },
        }
    }

    /// The telekinesis components of the players (each given with the body
    /// it holds) that hold one of the killed entity's `bodies`; each is reset
    /// before the entity goes.
    pub fn grabs_to_release(bodies: &[PhysicsBodyID], grabs: &[(ComponentID, PhysicsBodyID)]) -> (r: Vec<ComponentID>)
        ensures
            r@ == held_bodies(bodies@, grabs@),
    {
        let mut out: Vec<ComponentID> = Vec::new();
        let mut i: usize = 0;
        while i < grabs.len()
            invariant
                i <= grabs@.len(),
                out@ == held_bodies(bodies@, grabs@.take(i as int)),
            decreases grabs@.len() - i,
        {
            let (component, body) = grabs[i];
            let mut held = false;
            let mut j: usize = 0;
            while j < bodies.len()
                invariant
                    j <= bodies@.len(),
                    held == exists|k: int| 0 <= k < j && bodies@[k] == body,
                decreases bodies@.len() - j,
            {
                if bodies[j] == body {
                    held = true;
                }
                j = j + 1;
            }
            proof {
                assert(grabs@.take(i as int + 1).drop_last() =~= grabs@.take(i as int));
                assert(grabs@.take(i as int + 1).last() == (component, body));
                if held {
                    let k = choose|k: int| 0 <= k < bodies@.len() && bodies@[k] == body;
                    assert(bodies@.contains(body));
                }
            }
            if held {
                out.push(component);
            }
            i = i + 1;
        }
        proof {
            assert(grabs@.take(grabs@.len() as int) =~= grabs@);
        }
        out
    }
}

/// How an entity is shown in messages: `EntityID(` and its raw id in decimal.
pub open spec fn entity_shown(e: EntityID) -> Seq<char> {
    "EntityID("@ + signed_decimal(e.id() as int) + ")"@
}

/// The context put around a failed lookup of component type `name`.
pub open spec fn lookup_failed_text(e: EntityID, name: Seq<char>) -> Seq<char> {
    "Failed to get first component "@ + name + " for "@ + entity_shown(e)
}

/// The error for an entity without a component of type `name`.
pub open spec fn no_component_text(e: EntityID, name: Seq<char>) -> Seq<char> {
    "Entity "@ + entity_shown(e) + " has no component "@ + name
}

impl EntityID {
    /// How the entity is shown in messages.
    pub fn shown(self) -> (r: String)
        ensures
            r@ == entity_shown(self),
    {
        let mut s = String::from_str("EntityID(");
        let digits = decimal_isize(self.0);
        s.append(digits.as_str());
        s.append(")");
        s
    }

    /// The entity's first enabled component of type `name`, given the
    /// game's reply: an empty slot counts as none, and a failure comes back
    /// with the context naming the type and the entity.
    pub fn try_get_first_component(self, name: &str, reply: Result<Option<Option<ComponentID>>, EngineError>) -> (r: Result<Option<ComponentID>, EngineError>)
        ensures
            match reply {
                Ok(Some(Some(c))) => r matches Ok(Some(d)) && d == c,
                Ok(Some(None)) => r matches Ok(None),
                Ok(None) => r matches Ok(None),
                Err(e) => r matches Err(x) && wraps(x, e, lookup_failed_text(self, name@)),
            },
    {
        match reply {
            Ok(Some(Some(c))) => Ok(Some(c)),
            Ok(_) => Ok(None),
            Err(e) => {
                let mut text = String::from_str("Failed to get first component ");
                text.append(name);
                text.append(" for ");
                let shown = self.shown();
                text.append(shown.as_str());
                Err(e.wrap(text))
            },
        }
    }

    /// As `try_get_first_component`, for the first component enabled or not.
    pub fn try_get_first_component_including_disabled(self, name: &str, reply: Result<Option<Option<ComponentID>>, EngineError>) -> (r: Result<Option<ComponentID>, EngineError>)
        ensures
            match reply {
                Ok(Some(Some(c))) => r matches Ok(Some(d)) && d == c,
                Ok(Some(None)) => r matches Ok(None),
                Ok(None) => r matches Ok(None),
                Err(e) => r matches Err(x) && wraps(x, e, lookup_failed_text(self, name@)),
            },
    {
        self.try_get_first_component(name, reply)
    }

    /// The entity's first enabled component of type `name`, given the
    /// game's reply; none is an error naming the entity and the type.
    pub fn get_first_component(self, name: &str, reply: Result<Option<Option<ComponentID>>, EngineError>) -> (r: Result<ComponentID, EngineError>)
        ensures
            match reply {
                Ok(Some(Some(c))) => r matches Ok(d) && d == c,
                Ok(Some(None)) => r matches Err(x) && fresh_error(x, no_component_text(self, name@)),
                Ok(None) => r matches Err(x) && fresh_error(x, no_component_text(self, name@)),
                Err(e) => r matches Err(x) && wraps(x, e, lookup_failed_text(self, name@)),
            },
    {
        match self.try_get_first_component(name, reply) {
            Ok(Some(c)) => Ok(c),
            Ok(None) => {
                let mut text = String::from_str("Entity ");
                let shown = self.shown();
                text.append(shown.as_str());
                text.append(" has no component ");
                text.append(name);
                Err(EngineError::new(text))
            },
            Err(e) => Err(e),
        }
    }

    /// As `get_first_component`, for the first component enabled or not.
    pub fn get_first_component_including_disabled(self, name: &str, reply: Result<Option<Option<ComponentID>>, EngineError>) -> (r: Result<ComponentID, EngineError>)
        ensures
            match reply {
                Ok(Some(Some(c))) => r matches Ok(d) && d == c,
                Ok(Some(None)) => r matches Err(x) && fresh_error(x, no_component_text(self, name@)),
                Ok(None) => r matches Err(x) && fresh_error(x, no_component_text(self, name@)),
                Err(e) => r matches Err(x) && wraps(x, e, lookup_failed_text(self, name@)),
            },
    {
        self.get_first_component(name, reply)
    }
}

impl ComponentID {
    /// The component's tag list, given the game's reply; no list is an error.
    pub fn get_tags(reply: Result<Option<String>, EngineError>) -> (r: Result<String, EngineError>)
        ensures
            match reply {
                Ok(Some(t)) => r matches Ok(q) && q@ == t@,
                Ok(None) => r matches Err(e) && fresh_error(e, "no string found"@),
                Err(e) => r matches Err(x) && x == e,
            },
    {
        match reply {
            Ok(Some(t)) => Ok(t),
            Ok(None) => Err(EngineError::new(String::from_str("no string found"))),
            Err(e) => Err(e),
        }
    }
}

/// The game answered yes.
pub open spec fn reply_true(r: Result<bool, EngineError>) -> bool {
    r matches Ok(b) && b
}

/// The ids present in a list with empty slots, in order.
pub open spec fn present(ids: Seq<Option<EntityID>>) -> Seq<EntityID>
    decreases ids.len(),
{
    if ids.len() == 0 {
        Seq::empty()
    } else {
        present(ids.drop_last()) + match ids.last() {
            Some(e) => seq![e],
            None => Seq::empty(),
        }
    }
}

/// Id of a component of the game; never zero.
#[derive(Debug, Clone, Copy, PartialEq, Eq, Hash, Structural)]
pub struct ComponentID(isize);

impl ComponentID {
    #[verifier::type_invariant]
    spec fn nonzero(self) -> bool {
        self.0 != 0
    }

    /// The raw id.
    pub closed spec fn id(self) -> isize {
        self.0
    }

    /// The component with raw id `value`, unless it is zero.
    pub fn new(value: isize) -> (r: Result<Self, ZeroId>)
        ensures
            value != 0 ==> (r matches Ok(c) && c.id() == value),
            value == 0 ==> r is Err,
    {
        if value == 0 {
            Err(ZeroId)
        } else {
            Ok(ComponentID(value))
        }
    }

    /// The raw id.
    pub fn raw(self) -> (r: isize)
        ensures
            r == self.id(),
            r != 0,
    {
        proof {
            use_type_invariant(self);
        }
        self.0
    }
}

/// Handle of a game object.
pub struct Obj(pub usize);

/// A packed colour.
pub struct Color(pub u32);

/// Id of a physics body.
#[derive(Debug, Clone, Copy, PartialEq, Eq, Hash, Structural)]
pub struct PhysicsBodyID(pub i32);

/// The kinds of damage the game knows.
#[derive(Debug, Clone, Copy, PartialEq, Eq, Structural)]
pub enum DamageType {
    DamageNone,
    DamageMelee,
    DamageProjectile,
    DamageExplosion,
    DamageBite,
    DamageFire,
    DamageMaterial,
    DamageFall,
    DamageElectricity,
    DamageDrowning,
    DamagePhysicsBodyDamaged,
    DamageDrill,
    DamageSlice,
    DamageIce,
    DamageHealing,
    DamagePhysicsHit,
    DamageRadioActive,
    DamagePoison,
    DamageMaterialWithFlash,
    DamageOvereating,
    DamageCurse,
    DamageHoly,
}

/// The name the game uses for a damage type. The physics hit is spelled the
/// way the game spells it.
pub open spec fn damage_type_name(d: DamageType) -> Seq<char> {
    match d {
        DamageType::DamageNone => "NONE"@,
        DamageType::DamageMelee => "DAMAGE_MELEE"@,
        DamageType::DamageProjectile => "DAMAGE_PROJECTILE"@,
        DamageType::DamageExplosion => "DAMAGE_EXPLOSION"@,
        DamageType::DamageBite => "DAMAGE_BITE"@,
        DamageType::DamageFire => "DAMAGE_FIRE"@,
        DamageType::DamageMaterial => "DAMAGE_MATERIAL"@,
        DamageType::DamageFall => "DAMAGE_FALL"@,
        DamageType::DamageElectricity => "DAMAGE_ELECTRICITY"@,
        DamageType::DamageDrowning => "DAMAGE_DROWNING"@,
        DamageType::DamagePhysicsBodyDamaged => "DAMAGE_PHYSICS_BODY_DAMAGED"@,
        DamageType::DamageDrill => "DAMAGE_DRILL"@,
        DamageType::DamageSlice => "DAMAGE_SLICE"@,
        DamageType::DamageIce => "DAMAGE_ICE"@,
        DamageType::DamageHealing => "DAMAGE_HEALING"@,
        DamageType::DamagePhysicsHit => "DAMAGE_PHYSIICS_HIT"@,
        DamageType::DamageRadioActive => "DAMAGE_RADIOACTIVE"@,
        DamageType::DamagePoison => "DAMAGE_POISON"@,
        DamageType::DamageMaterialWithFlash => "DAMAGE_MATERIAL_WITH_FLASH"@,
        DamageType::DamageOvereating => "DAMAGE_OVEREATING"@,
        DamageType::DamageCurse => "DAMAGE_CURSE"@,
        DamageType::DamageHoly => "DAMAGE_HOLY"@,
    }
}

/// The names the game gives its damage types, letter by letter: the game
/// knows a damage type only by this name, so each must be exactly its own.
pub proof fn lemma_damage_type_names()
    ensures
        damage_type_name(DamageType::DamageNone) =~= seq!['N', 'O', 'N', 'E'],
        damage_type_name(DamageType::DamageMelee) =~= seq!['D', 'A', 'M', 'A', 'G', 'E', '_', 'M', 'E', 'L', 'E', 'E'],
        damage_type_name(DamageType::DamageProjectile) =~= seq!['D', 'A', 'M', 'A', 'G', 'E', '_', 'P', 'R', 'O', 'J', 'E', 'C', 'T', 'I', 'L', 'E'],
        damage_type_name(DamageType::DamageExplosion) =~= seq!['D', 'A', 'M', 'A', 'G', 'E', '_', 'E', 'X', 'P', 'L', 'O', 'S', 'I', 'O', 'N'],
        damage_type_name(DamageType::DamageBite) =~= seq!['D', 'A', 'M', 'A', 'G', 'E', '_', 'B', 'I', 'T', 'E'],
        damage_type_name(DamageType::DamageFire) =~= seq!['D', 'A', 'M', 'A', 'G', 'E', '_', 'F', 'I', 'R', 'E'],
        damage_type_name(DamageType::DamageMaterial) =~= seq!['D', 'A', 'M', 'A', 'G', 'E', '_', 'M', 'A', 'T', 'E', 'R', 'I', 'A', 'L'],
        damage_type_name(DamageType::DamageFall) =~= seq!['D', 'A', 'M', 'A', 'G', 'E', '_', 'F', 'A', 'L', 'L'],
        damage_type_name(DamageType::DamageElectricity) =~= seq!['D', 'A', 'M', 'A', 'G', 'E', '_', 'E', 'L', 'E', 'C', 'T', 'R', 'I', 'C', 'I', 'T', 'Y'],
        damage_type_name(DamageType::DamageDrowning) =~= seq!['D', 'A', 'M', 'A', 'G', 'E', '_', 'D', 'R', 'O', 'W', 'N', 'I', 'N', 'G'],
        damage_type_name(DamageType::DamagePhysicsBodyDamaged) =~= seq!['D', 'A', 'M', 'A', 'G', 'E', '_', 'P', 'H', 'Y', 'S', 'I', 'C', 'S', '_', 'B', 'O', 'D', 'Y', '_', 'D', 'A', 'M', 'A', 'G', 'E', 'D'],
        damage_type_name(DamageType::DamageDrill) =~= seq!['D', 'A', 'M', 'A', 'G', 'E', '_', 'D', 'R', 'I', 'L', 'L'],
        damage_type_name(DamageType::DamageSlice) =~= seq!['D', 'A', 'M', 'A', 'G', 'E', '_', 'S', 'L', 'I', 'C', 'E'],
        damage_type_name(DamageType::DamageIce) =~= seq!['D', 'A', 'M', 'A', 'G', 'E', '_', 'I', 'C', 'E'],
        damage_type_name(DamageType::DamageHealing) =~= seq!['D', 'A', 'M', 'A', 'G', 'E', '_', 'H', 'E', 'A', 'L', 'I', 'N', 'G'],
        damage_type_name(DamageType::DamagePhysicsHit) =~= seq!['D', 'A', 'M', 'A', 'G', 'E', '_', 'P', 'H', 'Y', 'S', 'I', 'I', 'C', 'S', '_', 'H', 'I', 'T'],
        damage_type_name(DamageType::DamageRadioActive) =~= seq!['D', 'A', 'M', 'A', 'G', 'E', '_', 'R', 'A', 'D', 'I', 'O', 'A', 'C', 'T', 'I', 'V', 'E'],
        damage_type_name(DamageType::DamagePoison) =~= seq!['D', 'A', 'M', 'A', 'G', 'E', '_', 'P', 'O', 'I', 'S', 'O', 'N'],
        damage_type_name(DamageType::DamageMaterialWithFlash) =~= seq!['D', 'A', 'M', 'A', 'G', 'E', '_', 'M', 'A', 'T', 'E', 'R', 'I', 'A', 'L', '_', 'W', 'I', 'T', 'H', '_', 'F', 'L', 'A', 'S', 'H'],
        damage_type_name(DamageType::DamageOvereating) =~= seq!['D', 'A', 'M', 'A', 'G', 'E', '_', 'O', 'V', 'E', 'R', 'E', 'A', 'T', 'I', 'N', 'G'],
        damage_type_name(DamageType::DamageCurse) =~= seq!['D', 'A', 'M', 'A', 'G', 'E', '_', 'C', 'U', 'R', 'S', 'E'],
        damage_type_name(DamageType::DamageHoly) =~= seq!['D', 'A', 'M', 'A', 'G', 'E', '_', 'H', 'O', 'L', 'Y'],
{
    reveal_strlit("NONE");
    reveal_strlit("DAMAGE_MELEE");
    reveal_strlit("DAMAGE_PROJECTILE");
    reveal_strlit("DAMAGE_EXPLOSION");
    reveal_strlit("DAMAGE_BITE");
    reveal_strlit("DAMAGE_FIRE");
    reveal_strlit("DAMAGE_MATERIAL");
    reveal_strlit("DAMAGE_FALL");
    reveal_strlit("DAMAGE_ELECTRICITY");
    reveal_strlit("DAMAGE_DROWNING");
    reveal_strlit("DAMAGE_PHYSICS_BODY_DAMAGED");
    reveal_strlit("DAMAGE_DRILL");
    reveal_strlit("DAMAGE_SLICE");
    reveal_strlit("DAMAGE_ICE");
    reveal_strlit("DAMAGE_HEALING");
    reveal_strlit("DAMAGE_PHYSIICS_HIT");
    reveal_strlit("DAMAGE_RADIOACTIVE");
    reveal_strlit("DAMAGE_POISON");
    reveal_strlit("DAMAGE_MATERIAL_WITH_FLASH");
    reveal_strlit("DAMAGE_OVEREATING");
    reveal_strlit("DAMAGE_CURSE");
    reveal_strlit("DAMAGE_HOLY");
}

/// Distinct damage types are named differently, so the game never takes one
/// for another.
pub proof fn lemma_damage_type_names_distinct(a: DamageType, b: DamageType)
    ensures
        a != b ==> damage_type_name(a) != damage_type_name(b),
{
    lemma_damage_type_names();
    if a != b && damage_type_name(a) == damage_type_name(b) {
        let x = damage_type_name(a);
        let y = damage_type_name(b);
        assert(x.len() == y.len());
        assert(forall|i: int| 0 <= i < x.len() ==> x[i] == y[i]);
    }
}

impl DamageType {
    /// The name the game uses for the damage type.
    pub fn to_str(&self) -> (r: &'static str)
        ensures
            r@ == damage_type_name(*self),
    {
        match self {
            DamageType::DamageNone => "NONE",
            DamageType::DamageMelee => "DAMAGE_MELEE",
            DamageType::DamageProjectile => "DAMAGE_PROJECTILE",
            DamageType::DamageExplosion => "DAMAGE_EXPLOSION",
            DamageType::DamageBite => "DAMAGE_BITE",
            DamageType::DamageFire => "DAMAGE_FIRE",
            DamageType::DamageMaterial => "DAMAGE_MATERIAL",
            DamageType::DamageFall => "DAMAGE_FALL",
            DamageType::DamageElectricity => "DAMAGE_ELECTRICITY",
            DamageType::DamageDrowning => "DAMAGE_DROWNING",
            DamageType::DamagePhysicsBodyDamaged => "DAMAGE_PHYSICS_BODY_DAMAGED",
            DamageType::DamageDrill => "DAMAGE_DRILL",
            DamageType::DamageSlice => "DAMAGE_SLICE",
            DamageType::DamageIce => "DAMAGE_ICE",
            DamageType::DamageHealing => "DAMAGE_HEALING",
            DamageType::DamagePhysicsHit => "DAMAGE_PHYSIICS_HIT",
            DamageType::DamageRadioActive => "DAMAGE_RADIOACTIVE",
            DamageType::DamagePoison => "DAMAGE_POISON",
            DamageType::DamageMaterialWithFlash => "DAMAGE_MATERIAL_WITH_FLASH",
            DamageType::DamageOvereating => "DAMAGE_OVEREATING",
            DamageType::DamageCurse => "DAMAGE_CURSE",
            DamageType::DamageHoly => "DAMAGE_HOLY",
        }
    }
}

/// Entity tags whose presence is remembered per entity.
#[derive(Debug, Clone, Copy, PartialEq, Eq, Structural)]
pub enum CachedTag {
    EwClient,
    PitcheckB,
    SeedD,
    BossWizard,
    CardAction,
    BossCentipede,
    BossCentipedeActive,
    DesTag,
    BossDragon,
    PolymorphableNOT,
    EggItem,
}

/// The tag text of a cached tag.
pub open spec fn cached_tag_name(t: CachedTag) -> Seq<char> {
    match t {
        CachedTag::EwClient => "ew_client"@,
        CachedTag::PitcheckB => "pitcheck_b"@,
        CachedTag::SeedD => "seed_d"@,
        CachedTag::BossWizard => "boss_wizard"@,
        CachedTag::CardAction => "card_action"@,
        CachedTag::BossCentipede => "boss_centipede"@,
        CachedTag::BossCentipedeActive => "boss_centipede_active"@,
        CachedTag::DesTag => "ew_des"@,
        CachedTag::BossDragon => "boss_dragon"@,
        CachedTag::PolymorphableNOT => "polymorphable_NOT"@,
        CachedTag::EggItem => "egg_item"@,
    }
}

/// The bit a cached tag takes in a tag set.
pub open spec fn cached_tag_index(t: CachedTag) -> u16 {
    match t {
        CachedTag::EwClient => 0,
        CachedTag::PitcheckB => 1,
        CachedTag::SeedD => 2,
        CachedTag::BossWizard => 3,
        CachedTag::CardAction => 4,
        CachedTag::BossCentipede => 5,
        CachedTag::BossCentipedeActive => 6,
        CachedTag::DesTag => 7,
        CachedTag::BossDragon => 8,
        CachedTag::PolymorphableNOT => 9,
        CachedTag::EggItem => 10,
    }
}

impl CachedTag {
    /// The tag text.
    pub fn to_tag(&self) -> (r: &'static str)
        ensures
            r@ == cached_tag_name(*self),
    {
        match self {
            Self::EwClient => "ew_client",
            Self::PitcheckB => "pitcheck_b",
            Self::SeedD => "seed_d",
            Self::BossWizard => "boss_wizard",
            Self::CardAction => "card_action",
            Self::BossCentipede => "boss_centipede",
            Self::BossCentipedeActive => "boss_centipede_active",
            Self::DesTag => "ew_des",
            Self::BossDragon => "boss_dragon",
            Self::PolymorphableNOT => "polymorphable_NOT",
            Self::EggItem => "egg_item",
        }
    }

    /// The bit this tag takes in a tag set.
    pub fn index(&self) -> (r: u16)
        ensures
            r == cached_tag_index(*self),
    {
        match self {
            Self::EwClient => 0,
            Self::PitcheckB => 1,
            Self::SeedD => 2,
            Self::BossWizard => 3,
            Self::CardAction => 4,
            Self::BossCentipede => 5,
            Self::BossCentipedeActive => 6,
            Self::DesTag => 7,
            Self::BossDragon => 8,
            Self::PolymorphableNOT => 9,
            Self::EggItem => 10,
        }
    }

    /// The cached tag with the given text, which must be one of them.
    pub fn from_tag(s: &str) -> (r: Self)
        requires
            exists|t: CachedTag| #[trigger] cached_tag_name(t) == s@,
        ensures
            cached_tag_name(r) == s@,
    {
        if str_eq(s, "ew_client") {
            Self::EwClient
        } else if str_eq(s, "pitcheck_b") {
            Self::PitcheckB
        } else if str_eq(s, "seed_d") {
            Self::SeedD
        } else if str_eq(s, "boss_wizard") {
            Self::BossWizard
        } else if str_eq(s, "card_action") {
            Self::CardAction
        } else if str_eq(s, "boss_centipede") {
            Self::BossCentipede
        } else if str_eq(s, "boss_centipede_active") {
            Self::BossCentipedeActive
        } else if str_eq(s, "ew_des") {
            Self::DesTag
        } else if str_eq(s, "boss_dragon") {
            Self::BossDragon
        } else if str_eq(s, "polymorphable_NOT") {
            Self::PolymorphableNOT
        } else if str_eq(s, "egg_item") {
            Self::EggItem
        } else {
            proof {
                let t = choose|t: CachedTag| #[trigger] cached_tag_name(t) == s@;
                assert(cached_tag_name(t) == s@);
            }
            Self::EwClient
        }
    }
}

/// Different cached tags have different texts, so a tag read back from its
/// text is the tag itself.
pub proof fn lemma_cached_tag_names_distinct(a: CachedTag, b: CachedTag)
    requires
        cached_tag_name(a) == cached_tag_name(b),
    ensures
        a == b,
{
    reveal_strlit("ew_client");
    reveal_strlit("pitcheck_b");
    reveal_strlit("seed_d");
    reveal_strlit("boss_wizard");
    reveal_strlit("card_action");
    reveal_strlit("boss_centipede");
    reveal_strlit("boss_centipede_active");
    reveal_strlit("ew_des");
    reveal_strlit("boss_dragon");
    reveal_strlit("polymorphable_NOT");
    reveal_strlit("egg_item");
    if a != b {
        let na = cached_tag_name(a);
        let nb = cached_tag_name(b);
        assert(na.len() != nb.len() || na[0] != nb[0] || na[1] != nb[1] || na[2] != nb[2]
            || na[3] != nb[3] || na[4] != nb[4] || na[5] != nb[5] || na[6] != nb[6] || na[7]
            != nb[7] || na[8] != nb[8] || na[9] != nb[9] || na[10] != nb[10] || na[11] != nb[11]
            || na[12] != nb[12] || na[13] != nb[13] || na[14] != nb[14]);
    }
}

/// Component types whose components are remembered per entity.
#[derive(Debug, Clone, Copy, PartialEq, Eq, Hash, Structural)]
pub enum CachedComponent {
    PhysicsBody2Component,
    VariableStorageComponent,
    AnimalAIComponent,
    ItemCostComponent,
    LaserEmitterComponent,
    CharacterDataComponent,
    WormComponent,
    VelocityComponent,
    BossDragonComponent,
    LuaComponent,
    BossHealthBarComponent,
    DamageModelComponent,
    ItemComponent,
    StreamingKeepAliveComponent,
    SpriteComponent,
    CameraBoundComponent,
    GhostComponent,
    PhysicsBodyComponent,
    Inventory2Component,
    AIAttackComponent,
    IKLimbWalkerComponent,
    IKLimbAttackerComponent,
    IKLimbsAnimatorComponent,
    CharacterPlatformingComponent,
    PhysicsAIComponent,
    AdvancedFishAIComponent,
    LifetimeComponent,
    ExplodeOnDamageComponent,
    ItemPickUpperComponent,
    AudioComponent,
    AbilityComponent,
    StatusEffectDataComponent,
}

/// The type name of a cached component type.
pub open spec fn cached_component_name(c: CachedComponent) -> Seq<char> {
    match c {
        CachedComponent::PhysicsBody2Component => "PhysicsBody2Component"@,
        CachedComponent::VariableStorageComponent => "VariableStorageComponent"@,
        CachedComponent::AnimalAIComponent => "AnimalAIComponent"@,
        CachedComponent::ItemCostComponent => "ItemCostComponent"@,
        CachedComponent::LaserEmitterComponent => "LaserEmitterComponent"@,
        CachedComponent::CharacterDataComponent => "CharacterDataComponent"@,
        CachedComponent::WormComponent => "WormComponent"@,
        CachedComponent::VelocityComponent => "VelocityComponent"@,
        CachedComponent::BossDragonComponent => "BossDragonComponent"@,
        CachedComponent::LuaComponent => "LuaComponent"@,
        CachedComponent::BossHealthBarComponent => "BossHealthBarComponent"@,
        CachedComponent::DamageModelComponent => "DamageModelComponent"@,
        CachedComponent::ItemComponent => "ItemComponent"@,
        CachedComponent::StreamingKeepAliveComponent => "StreamingKeepAliveComponent"@,
        CachedComponent::SpriteComponent => "SpriteComponent"@,
        CachedComponent::CameraBoundComponent => "CameraBoundComponent"@,
        CachedComponent::GhostComponent => "GhostComponent"@,
        CachedComponent::PhysicsBodyComponent => "PhysicsBodyComponent"@,
        CachedComponent::Inventory2Component => "Inventory2Component"@,
        CachedComponent::AIAttackComponent => "AIAttackComponent"@,
        CachedComponent::IKLimbWalkerComponent => "IKLimbWalkerComponent"@,
        CachedComponent::IKLimbAttackerComponent => "IKLimbAttackerComponent"@,
        CachedComponent::IKLimbsAnimatorComponent => "IKLimbsAnimatorComponent"@,
        CachedComponent::CharacterPlatformingComponent => "CharacterPlatformingComponent"@,
        CachedComponent::PhysicsAIComponent => "PhysicsAIComponent"@,
        CachedComponent::AdvancedFishAIComponent => "AdvancedFishAIComponent"@,
        CachedComponent::LifetimeComponent => "LifetimeComponent"@,
        CachedComponent::ExplodeOnDamageComponent => "ExplodeOnDamageComponent"@,
        CachedComponent::ItemPickUpperComponent => "ItemPickUpperComponent"@,
        CachedComponent::AudioComponent => "AudioComponent"@,
        CachedComponent::AbilityComponent => "AbilityComponent"@,
        CachedComponent::StatusEffectDataComponent => "StatusEffectDataComponent"@,
    }
}

/// Number of cached component types.
pub const COMP_LEN: usize = 32;

/// The slot of a cached component type among the `COMP_LEN` per-type lists.
pub open spec fn cached_component_index(c: CachedComponent) -> int {
    match c {
        CachedComponent::PhysicsBody2Component => 0,
        CachedComponent::VariableStorageComponent => 1,
        CachedComponent::AnimalAIComponent => 2,
        CachedComponent::ItemCostComponent => 3,
        CachedComponent::LaserEmitterComponent => 4,
        CachedComponent::CharacterDataComponent => 5,
        CachedComponent::WormComponent => 6,
        CachedComponent::VelocityComponent => 7,
        CachedComponent::BossDragonComponent => 8,
        CachedComponent::LuaComponent => 9,
        CachedComponent::BossHealthBarComponent => 10,
        CachedComponent::DamageModelComponent => 11,
        CachedComponent::ItemComponent => 12,
        CachedComponent::StreamingKeepAliveComponent => 13,
        CachedComponent::SpriteComponent => 14,
        CachedComponent::CameraBoundComponent => 15,
        CachedComponent::GhostComponent => 16,
        CachedComponent::PhysicsBodyComponent => 17,
        CachedComponent::Inventory2Component => 18,
        CachedComponent::AIAttackComponent => 19,
        CachedComponent::IKLimbWalkerComponent => 20,
        CachedComponent::IKLimbAttackerComponent => 21,
        CachedComponent::IKLimbsAnimatorComponent => 22,
        CachedComponent::CharacterPlatformingComponent => 23,
        CachedComponent::PhysicsAIComponent => 24,
        CachedComponent::AdvancedFishAIComponent => 25,
        CachedComponent::LifetimeComponent => 26,
        CachedComponent::ExplodeOnDamageComponent => 27,
        CachedComponent::ItemPickUpperComponent => 28,
        CachedComponent::AudioComponent => 29,
        CachedComponent::AbilityComponent => 30,
        CachedComponent::StatusEffectDataComponent => 31,
    }
}

/// The cached component type at slot `n` (the last one past the end).
pub open spec fn cached_component_of_index(n: int) -> CachedComponent {
    if n == 0 {
        CachedComponent::PhysicsBody2Component
    } else if n == 1 {
        CachedComponent::VariableStorageComponent
    } else if n == 2 {
        CachedComponent::AnimalAIComponent
    } else if n == 3 {
        CachedComponent::ItemCostComponent
    } else if n == 4 {
        CachedComponent::LaserEmitterComponent
    } else if n == 5 {
        CachedComponent::CharacterDataComponent
    } else if n == 6 {
        CachedComponent::WormComponent
    } else if n == 7 {
        CachedComponent::VelocityComponent
    } else if n == 8 {
        CachedComponent::BossDragonComponent
    } else if n == 9 {
        CachedComponent::LuaComponent
    } else if n == 10 {
        CachedComponent::BossHealthBarComponent
    } else if n == 11 {
        CachedComponent::DamageModelComponent
    } else if n == 12 {
        CachedComponent::ItemComponent
    } else if n == 13 {
        CachedComponent::StreamingKeepAliveComponent
    } else if n == 14 {
        CachedComponent::SpriteComponent
    } else if n == 15 {
        CachedComponent::CameraBoundComponent
    } else if n == 16 {
        CachedComponent::GhostComponent
    } else if n == 17 {
        CachedComponent::PhysicsBodyComponent
    } else if n == 18 {
        CachedComponent::Inventory2Component
    } else if n == 19 {
        CachedComponent::AIAttackComponent
    } else if n == 20 {
        CachedComponent::IKLimbWalkerComponent
    } else if n == 21 {
        CachedComponent::IKLimbAttackerComponent
    } else if n == 22 {
        CachedComponent::IKLimbsAnimatorComponent
    } else if n == 23 {
        CachedComponent::CharacterPlatformingComponent
    } else if n == 24 {
        CachedComponent::PhysicsAIComponent
    } else if n == 25 {
        CachedComponent::AdvancedFishAIComponent
    } else if n == 26 {
        CachedComponent::LifetimeComponent
    } else if n == 27 {
        CachedComponent::ExplodeOnDamageComponent
    } else if n == 28 {
        CachedComponent::ItemPickUpperComponent
    } else if n == 29 {
        CachedComponent::AudioComponent
    } else if n == 30 {
        CachedComponent::AbilityComponent
    } else {
        CachedComponent::StatusEffectDataComponent
    }
}

/// Distinct cached component types take distinct slots.
pub proof fn lemma_cached_component_slot(c: CachedComponent)
    ensures
        cached_component_of_index(cached_component_index(c)) == c,
        0 <= cached_component_index(c) < COMP_LEN,
{
}

/// Each slot holds the cached component type that `cached_component_of_index` names.
pub proof fn lemma_cached_component_of_index(n: int)
    requires
        0 <= n < COMP_LEN,
    ensures
        cached_component_index(cached_component_of_index(n)) == n,
{
}

impl CachedComponent {
    /// The cached component type of component type `C`, which must be one.
    pub fn from_component<C: crate::components::Component>() -> (r: Self)
        requires
            exists|c: CachedComponent| #[trigger] cached_component_name(c) == C::name_spec(),
        ensures
            cached_component_name(r) == C::name_spec(),
    {
        match Self::from_component_non_const(C::name()) {
            Some(c) => c,
            None => {
                proof {
                    let c = choose|c: CachedComponent| #[trigger] cached_component_name(c) == C::name_spec();
                    assert(cached_component_name(c) != C::name_spec());
                }
                Self::PhysicsBody2Component
            },
        }
    }
}

impl CachedComponent {
    /// The slot of this component type among the per-type lists.
    pub fn index(self) -> (r: usize)
        ensures
            r == cached_component_index(self),
            r < COMP_LEN,
    {
        match self {
            Self::PhysicsBody2Component => 0,
            Self::VariableStorageComponent => 1,
            Self::AnimalAIComponent => 2,
            Self::ItemCostComponent => 3,
            Self::LaserEmitterComponent => 4,
            Self::CharacterDataComponent => 5,
            Self::WormComponent => 6,
            Self::VelocityComponent => 7,
            Self::BossDragonComponent => 8,
            Self::LuaComponent => 9,
            Self::BossHealthBarComponent => 10,
            Self::DamageModelComponent => 11,
            Self::ItemComponent => 12,
            Self::StreamingKeepAliveComponent => 13,
            Self::SpriteComponent => 14,
            Self::CameraBoundComponent => 15,
            Self::GhostComponent => 16,
            Self::PhysicsBodyComponent => 17,
            Self::Inventory2Component => 18,
            Self::AIAttackComponent => 19,
            Self::IKLimbWalkerComponent => 20,
            Self::IKLimbAttackerComponent => 21,
            Self::IKLimbsAnimatorComponent => 22,
            Self::CharacterPlatformingComponent => 23,
            Self::PhysicsAIComponent => 24,
            Self::AdvancedFishAIComponent => 25,
            Self::LifetimeComponent => 26,
            Self::ExplodeOnDamageComponent => 27,
            Self::ItemPickUpperComponent => 28,
            Self::AudioComponent => 29,
            Self::AbilityComponent => 30,
            Self::StatusEffectDataComponent => 31,
        }
    }
}

impl CachedComponent {
    /// The cached component type with the given type name, if there is one.
    pub fn from_component_non_const(s: &str) -> (r: Option<Self>)
        ensures
            r matches Some(c) ==> cached_component_name(c) == s@,
            r is None ==> forall|c: CachedComponent| #[trigger] cached_component_name(c) != s@,
    {
        if str_eq(s, "PhysicsBody2Component") {
            Some(Self::PhysicsBody2Component)
        } else if str_eq(s, "VariableStorageComponent") {
            Some(Self::VariableStorageComponent)
        } else if str_eq(s, "AnimalAIComponent") {
            Some(Self::AnimalAIComponent)
        } else if str_eq(s, "ItemCostComponent") {
            Some(Self::ItemCostComponent)
        } else if str_eq(s, "LaserEmitterComponent") {
            Some(Self::LaserEmitterComponent)
        } else if str_eq(s, "CharacterDataComponent") {
            Some(Self::CharacterDataComponent)
        } else if str_eq(s, "WormComponent") {
            Some(Self::WormComponent)
        } else if str_eq(s, "VelocityComponent") {
            Some(Self::VelocityComponent)
        } else if str_eq(s, "BossDragonComponent") {
            Some(Self::BossDragonComponent)
        } else if str_eq(s, "LuaComponent") {
            Some(Self::LuaComponent)
        } else if str_eq(s, "BossHealthBarComponent") {
            Some(Self::BossHealthBarComponent)
        } else if str_eq(s, "DamageModelComponent") {
            Some(Self::DamageModelComponent)
        } else if str_eq(s, "ItemComponent") {
            Some(Self::ItemComponent)
        } else if str_eq(s, "StreamingKeepAliveComponent") {
            Some(Self::StreamingKeepAliveComponent)
        } else if str_eq(s, "SpriteComponent") {
            Some(Self::SpriteComponent)
        } else if str_eq(s, "CameraBoundComponent") {
            Some(Self::CameraBoundComponent)
        } else if str_eq(s, "GhostComponent") {
            Some(Self::GhostComponent)
        } else if str_eq(s, "PhysicsBodyComponent") {
            Some(Self::PhysicsBodyComponent)
        } else if str_eq(s, "Inventory2Component") {
            Some(Self::Inventory2Component)
        } else if str_eq(s, "AIAttackComponent") {
            Some(Self::AIAttackComponent)
        } else if str_eq(s, "IKLimbWalkerComponent") {
            Some(Self::IKLimbWalkerComponent)
        } else if str_eq(s, "IKLimbAttackerComponent") {
            Some(Self::IKLimbAttackerComponent)
        } else if str_eq(s, "IKLimbsAnimatorComponent") {
            Some(Self::IKLimbsAnimatorComponent)
        } else if str_eq(s, "CharacterPlatformingComponent") {
            Some(Self::CharacterPlatformingComponent)
        } else if str_eq(s, "PhysicsAIComponent") {
            Some(Self::PhysicsAIComponent)
        } else if str_eq(s, "AdvancedFishAIComponent") {
            Some(Self::AdvancedFishAIComponent)
        } else if str_eq(s, "LifetimeComponent") {
            Some(Self::LifetimeComponent)
        } else if str_eq(s, "ExplodeOnDamageComponent") {
            Some(Self::ExplodeOnDamageComponent)
        } else if str_eq(s, "ItemPickUpperComponent") {
            Some(Self::ItemPickUpperComponent)
        } else if str_eq(s, "AudioComponent") {
            Some(Self::AudioComponent)
        } else if str_eq(s, "AbilityComponent") {
            Some(Self::AbilityComponent)
        } else if str_eq(s, "StatusEffectDataComponent") {
            Some(Self::StatusEffectDataComponent)
        } else {
            assert forall|c: CachedComponent| #[trigger] cached_component_name(c) != s@ by {
                match c {
                    CachedComponent::PhysicsBody2Component => {},
                    CachedComponent::VariableStorageComponent => {},
                    CachedComponent::AnimalAIComponent => {},
                    CachedComponent::ItemCostComponent => {},
                    CachedComponent::LaserEmitterComponent => {},
                    CachedComponent::CharacterDataComponent => {},
                    CachedComponent::WormComponent => {},
                    CachedComponent::VelocityComponent => {},
                    CachedComponent::BossDragonComponent => {},
                    CachedComponent::LuaComponent => {},
                    CachedComponent::BossHealthBarComponent => {},
                    CachedComponent::DamageModelComponent => {},
                    CachedComponent::ItemComponent => {},
                    CachedComponent::StreamingKeepAliveComponent => {},
                    CachedComponent::SpriteComponent => {},
                    CachedComponent::CameraBoundComponent => {},
                    CachedComponent::GhostComponent => {},
                    CachedComponent::PhysicsBodyComponent => {},
                    CachedComponent::Inventory2Component => {},
                    CachedComponent::AIAttackComponent => {},
                    CachedComponent::IKLimbWalkerComponent => {},
                    CachedComponent::IKLimbAttackerComponent => {},
                    CachedComponent::IKLimbsAnimatorComponent => {},
                    CachedComponent::CharacterPlatformingComponent => {},
                    CachedComponent::PhysicsAIComponent => {},
                    CachedComponent::AdvancedFishAIComponent => {},
                    CachedComponent::LifetimeComponent => {},
                    CachedComponent::ExplodeOnDamageComponent => {},
                    CachedComponent::ItemPickUpperComponent => {},
                    CachedComponent::AudioComponent => {},
                    CachedComponent::AbilityComponent => {},
                    CachedComponent::StatusEffectDataComponent => {},
                }
            }
            None
        }
    }
}

/// Names of the variables the game-side code keeps on entities. `NoName` is
/// the empty name, `Unknown` any name not listed.
#[derive(Debug, Clone, Copy, PartialEq, Eq, Structural)]
pub enum VarName {
    NoName,
    SunbabyEssencesList,
    Rolling,
    EwWasStealable,
    EwRng,
    ThrowTime,
    GhostId,
    EwGidLid,
    Active,
    EwHasStarted,
    Unknown,
}

/// A variable name that stands for a listed text.
pub open spec fn var_name_listed(v: VarName) -> bool {
    v != VarName::NoName && v != VarName::Unknown
}

/// The text of a variable name; `Unknown` has none and maps to the empty text.
pub open spec fn var_name_text(v: VarName) -> Seq<char> {
    match v {
        VarName::NoName => ""@,
        VarName::SunbabyEssencesList => "sunbaby_essences_list"@,
        VarName::Rolling => "rolling"@,
        VarName::EwWasStealable => "ew_was_stealable"@,
        VarName::EwRng => "ew_rng"@,
        VarName::ThrowTime => "throw_time"@,
        VarName::GhostId => "ghost_id"@,
        VarName::EwGidLid => "ew_gid_lid"@,
        VarName::Active => "active"@,
        VarName::EwHasStarted => "ew_has_started"@,
        VarName::Unknown => ""@,
    }
}

/// The variable name a text stands for: the listed name with that text, or
/// `NoName` for the empty text, or `Unknown`.
pub open spec fn var_name_of_text(s: Seq<char>) -> VarName {
    if exists|v: VarName| var_name_listed(v) && #[trigger] var_name_text(v) == s {
        choose|v: VarName| var_name_listed(v) && #[trigger] var_name_text(v) == s
    } else if s.len() == 0 {
        VarName::NoName
    } else {
        VarName::Unknown
    }
}

impl VarName {
    /// The variable name with the given text, which must be one of the listed ones.
    pub fn from_str(s: &str) -> (r: Self)
        requires
            exists|v: VarName| var_name_listed(v) && #[trigger] var_name_text(v) == s@,
        ensures
            var_name_listed(r),
            var_name_text(r) == s@,
    {
        match Self::from_str_non_const(s) {
            VarName::NoName => {
                proof {
                    reveal_strlit("");
                    let v = choose|v: VarName| var_name_listed(v) && #[trigger] var_name_text(v) == s@;
                    lemma_var_names_nonempty(v);
                }
                VarName::Rolling
            },
            VarName::Unknown => {
                proof {
                    let v = choose|v: VarName| var_name_listed(v) && #[trigger] var_name_text(v) == s@;
                    assert(var_name_text(v) == s@);
                }
                VarName::Rolling
            },
            v => v,
        }
    }

    /// The variable name with the given text: a listed one, `NoName` for the
    /// empty text, `Unknown` for anything else.
    pub fn from_str_non_const(s: &str) -> (r: Self)
        ensures
            r == var_name_of_text(s@),
    {
        proof {
            reveal_strlit("");
            reveal_strlit("sunbaby_essences_list");
            reveal_strlit("rolling");
            reveal_strlit("ew_was_stealable");
            reveal_strlit("ew_rng");
            reveal_strlit("throw_time");
            reveal_strlit("ghost_id");
            reveal_strlit("ew_gid_lid");
            reveal_strlit("active");
            reveal_strlit("ew_has_started");
        }
        let r = if str_eq(s, "sunbaby_essences_list") {
            Self::SunbabyEssencesList
        } else if str_eq(s, "rolling") {
            Self::Rolling
        } else if str_eq(s, "ew_was_stealable") {
            Self::EwWasStealable
        } else if str_eq(s, "ew_rng") {
            Self::EwRng
        } else if str_eq(s, "throw_time") {
            Self::ThrowTime
        } else if str_eq(s, "ghost_id") {
            Self::GhostId
        } else if str_eq(s, "ew_gid_lid") {
            Self::EwGidLid
        } else if str_eq(s, "active") {
            Self::Active
        } else if str_eq(s, "ew_has_started") {
            Self::EwHasStarted
        } else if s.is_empty() {
            Self::NoName
        } else {
            assert forall|v: VarName| var_name_listed(v) implies #[trigger] var_name_text(v) != s@ by {
                match v {
                    VarName::SunbabyEssencesList => {},
                    VarName::Rolling => {},
                    VarName::EwWasStealable => {},
                    VarName::EwRng => {},
                    VarName::ThrowTime => {},
                    VarName::GhostId => {},
                    VarName::EwGidLid => {},
                    VarName::Active => {},
                    VarName::EwHasStarted => {},
                    _ => {},
                }
            }
            Self::Unknown
        };
        proof {
            if r != VarName::Unknown && r != VarName::NoName {
                assert(var_name_text(r) == s@);
                let w = choose|w: VarName| var_name_listed(w) && #[trigger] var_name_text(w) == s@;
                lemma_var_names_distinct(r, w);
            }
            if r == VarName::NoName {
                assert forall|v: VarName| var_name_listed(v) implies #[trigger] var_name_text(v) != s@ by {
                    lemma_var_names_nonempty(v);
                }
            }
        }
        r
    }

    /// The text of the variable name; there is none for `Unknown`.
    pub fn to_str(self) -> (r: &'static str)
        requires
            self != VarName::Unknown,
        ensures
            r@ == var_name_text(self),
    {
        match self {
            Self::NoName => "",
            Self::SunbabyEssencesList => "sunbaby_essences_list",
            Self::Rolling => "rolling",
            Self::EwWasStealable => "ew_was_stealable",
            Self::EwRng => "ew_rng",
            Self::ThrowTime => "throw_time",
            Self::GhostId => "ghost_id",
            Self::EwGidLid => "ew_gid_lid",
            Self::Active => "active",
            Self::EwHasStarted => "ew_has_started",
            Self::Unknown => "",
        }
    }
}

/// Listed variable names have non-empty texts.
pub proof fn lemma_var_names_nonempty(v: VarName)
    requires
        var_name_listed(v),
    ensures
        var_name_text(v).len() > 0,
{
    reveal_strlit("sunbaby_essences_list");
    reveal_strlit("rolling");
    reveal_strlit("ew_was_stealable");
    reveal_strlit("ew_rng");
    reveal_strlit("throw_time");
    reveal_strlit("ghost_id");
    reveal_strlit("ew_gid_lid");
    reveal_strlit("active");
    reveal_strlit("ew_has_started");
}

/// Different listed variable names have different texts.
pub proof fn lemma_var_names_distinct(a: VarName, b: VarName)
    requires
        var_name_listed(a),
        var_name_listed(b),
        var_name_text(a) == var_name_text(b),
    ensures
        a == b,
{
    reveal_strlit("sunbaby_essences_list");
    reveal_strlit("rolling");
    reveal_strlit("ew_was_stealable");
    reveal_strlit("ew_rng");
    reveal_strlit("throw_time");
    reveal_strlit("ghost_id");
    reveal_strlit("ew_gid_lid");
    reveal_strlit("active");
    reveal_strlit("ew_has_started");
    if a != b {
        let na = var_name_text(a);
        let nb = var_name_text(b);
        assert(na.len() != nb.len() || na[0] != nb[0] || na[1] != nb[1] || na[2] != nb[2]
            || na[3] != nb[3] || na[4] != nb[4] || na[5] != nb[5] || na[6] != nb[6] || na[7]
            != nb[7] || na[8] != nb[8] || na[9] != nb[9] || na[10] != nb[10]);
    }
}

/// Reading back the text of a variable name gives the name itself.
pub proof fn lemma_var_name_round_trip(v: VarName)
    requires
        v != VarName::Unknown,
    ensures
        var_name_of_text(var_name_text(v)) == v,
{
    reveal_strlit("");
    if var_name_listed(v) {
        lemma_var_names_nonempty(v);
        let w = choose|w: VarName| var_name_listed(w) && #[trigger] var_name_text(w) == var_name_text(v);
        lemma_var_names_distinct(v, w);
    } else {
        assert forall|w: VarName| var_name_listed(w) implies #[trigger] var_name_text(w) != var_name_text(v) by {
            lemma_var_names_nonempty(w);
        }
    }
}

/// Component tags the game-side code looks for. `NoTag` stands for no tag.
#[derive(Debug, Clone, Copy, PartialEq, Eq, Structural)]
pub enum ComponentTag {
    DisabledAtStart,
    SunbabySprite,
    EwSyncedVar,
    Disabled,
    Activate,
    EnabledAtStart,
    ShopCost,
    Character,
    EwDesLua,
    NoTag,
}

/// The text of a component tag; empty for `NoTag`.
pub open spec fn component_tag_name(t: ComponentTag) -> Seq<char> {
    match t {
        ComponentTag::DisabledAtStart => "disabled_at_start"@,
        ComponentTag::SunbabySprite => "sunbaby_sprite"@,
        ComponentTag::EwSyncedVar => "ew_synced_var"@,
        ComponentTag::Disabled => "disabled"@,
        ComponentTag::Activate => "activate"@,
        ComponentTag::EnabledAtStart => "enabled_at_start"@,
        ComponentTag::ShopCost => "shop_cost"@,
        ComponentTag::Character => "character"@,
        ComponentTag::EwDesLua => "ew_des_lua"@,
        ComponentTag::NoTag => ""@,
    }
}

/// The bit a component tag takes in a tag set.
pub open spec fn component_tag_index(t: ComponentTag) -> u16 {
    match t {
        ComponentTag::DisabledAtStart => 0,
        ComponentTag::SunbabySprite => 1,
        ComponentTag::EwSyncedVar => 2,
        ComponentTag::Disabled => 3,
        ComponentTag::Activate => 4,
        ComponentTag::EnabledAtStart => 5,
        ComponentTag::ShopCost => 6,
        ComponentTag::Character => 7,
        ComponentTag::EwDesLua => 8,
        ComponentTag::NoTag => 9,
    }
}

impl ComponentTag {
    /// The component tag with the given text, which must be one of the listed ones.
    pub fn from_str(s: &str) -> (r: Self)
        requires
            exists|t: ComponentTag| t != ComponentTag::NoTag && #[trigger] component_tag_name(t) == s@,
        ensures
            r != ComponentTag::NoTag,
            component_tag_name(r) == s@,
    {
        if str_eq(s, "disabled_at_start") {
            Self::DisabledAtStart
        } else if str_eq(s, "sunbaby_sprite") {
            Self::SunbabySprite
        } else if str_eq(s, "ew_synced_var") {
            Self::EwSyncedVar
        } else if str_eq(s, "disabled") {
            Self::Disabled
        } else if str_eq(s, "activate") {
            Self::Activate
        } else if str_eq(s, "enabled_at_start") {
            Self::EnabledAtStart
        } else if str_eq(s, "shop_cost") {
            Self::ShopCost
        } else if str_eq(s, "character") {
            Self::Character
        } else if str_eq(s, "ew_des_lua") {
            Self::EwDesLua
        } else {
            proof {
                let t = choose|t: ComponentTag| t != ComponentTag::NoTag && #[trigger] component_tag_name(t) == s@;
                assert(component_tag_name(t) == s@);
            }
            Self::DisabledAtStart
        }
    }

    /// The text of the tag.
    pub fn to_str(self) -> (r: &'static str)
        ensures
            r@ == component_tag_name(self),
    {
        match self {
            Self::DisabledAtStart => "disabled_at_start",
            Self::SunbabySprite => "sunbaby_sprite",
            Self::EwSyncedVar => "ew_synced_var",
            Self::Disabled => "disabled",
            Self::Activate => "activate",
            Self::EnabledAtStart => "enabled_at_start",
            Self::ShopCost => "shop_cost",
            Self::Character => "character",
            Self::EwDesLua => "ew_des_lua",
            Self::NoTag => "",
        }
    }

    /// The bit this tag takes in a tag set.
    pub fn index(self) -> (r: u16)
        ensures
            r == component_tag_index(self),
    {
        match self {
            Self::DisabledAtStart => 0,
            Self::SunbabySprite => 1,
            Self::EwSyncedVar => 2,
            Self::Disabled => 3,
            Self::Activate => 4,
            Self::EnabledAtStart => 5,
            Self::ShopCost => 6,
            Self::Character => 7,
            Self::EwDesLua => 8,
            Self::NoTag => 9,
        }
    }
}

/// Different component tags have different texts, so a tag read back from
/// its text is the tag itself.
pub proof fn lemma_component_tag_names_distinct(a: ComponentTag, b: ComponentTag)
    requires
        component_tag_name(a) == component_tag_name(b),
    ensures
        a == b,
{
    reveal_strlit("");
    reveal_strlit("disabled_at_start");
    reveal_strlit("sunbaby_sprite");
    reveal_strlit("ew_synced_var");
    reveal_strlit("disabled");
    reveal_strlit("activate");
    reveal_strlit("enabled_at_start");
    reveal_strlit("shop_cost");
    reveal_strlit("character");
    reveal_strlit("ew_des_lua");
    if a != b {
        let na = component_tag_name(a);
        let nb = component_tag_name(b);
        assert(na.len() != nb.len() || na[0] != nb[0] || na[1] != nb[1] || na[2] != nb[2]
            || na[3] != nb[3] || na[4] != nb[4] || na[5] != nb[5] || na[6] != nb[6] || na[7]
            != nb[7] || na[8] != nb[8] || na[9] != nb[9] || na[10] != nb[10]);
    }
}

/// Bit `n` of a tag set.
pub open spec fn tag_bit(v: u16, n: u16) -> bool {
    (v >> n) & 1u16 == 1u16
}

/// A set of up to 16 tags, one bit each.
#[derive(Debug, Clone, Copy)]
pub struct Tags<T>(pub T);

impl Tags<u16> {
    /// Whether tag `n` is in the set.
    pub fn get(&self, n: u16) -> (r: bool)
        requires
            n < 16,
        ensures
            r == tag_bit(self.0, n),
    {
        let v = self.0;
        assert((v & (1u16 << n) != 0) == ((v >> n) & 1u16 == 1u16)) by (bit_vector)
            requires
                n < 16,
        ;
        self.0 & (1u16 << n) != 0
    }

    /// Adds tag `n`.
    pub fn set(&mut self, n: u16)
        requires
            n < 16,
        ensures
            final(self).0 == old(self).0 | (1u16 << n),
            forall|m: u16| m < 16 ==> #[trigger] tag_bit(final(self).0, m) == (m == n || tag_bit(old(self).0, m)),
        no_unwind
    {
        let v = self.0;
        self.0 = v | (1u16 << n);
        let w = self.0;
        assert forall|m: u16| m < 16 implies #[trigger] tag_bit(w, m) == (m == n || tag_bit(v, m)) by {
            assert(((w >> m) & 1u16 == 1u16) == (m == n || (v >> m) & 1u16 == 1u16)) by (bit_vector)
                requires
                    w == v | (1u16 << n),
                    n < 16,
                    m < 16,
            ;
        }
    }

    /// Removes tag `n`.
    pub fn clear(&mut self, n: u16)
        requires
            n < 16,
        ensures
            final(self).0 == old(self).0 & !(1u16 << n),
            forall|m: u16| m < 16 ==> #[trigger] tag_bit(final(self).0, m) == (m != n && tag_bit(old(self).0, m)),
        no_unwind
    {
        let v = self.0;
        self.0 = v & !(1u16 << n);
        let w = self.0;
        assert forall|m: u16| m < 16 implies #[trigger] tag_bit(w, m) == (m != n && tag_bit(v, m)) by {
            assert(((w >> m) & 1u16 == 1u16) == (m != n && (v >> m) & 1u16 == 1u16)) by (bit_vector)
                requires
                    w == v & !(1u16 << n),
                    n < 16,
                    m < 16,
            ;
        }
    }
}

impl Default for Tags<u16> {
    fn default() -> (r: Self)
        ensures
            r.0 == 0,
    {
        Tags(0)
    }
}

/// An empty tag set has no tag.
pub proof fn lemma_no_tag_in_zero(m: u16)
    requires
        m < 16,
    ensures
        !tag_bit(0, m),
{
    assert(((0u16 >> m) & 1u16) == 0u16) by (bit_vector);
}

/// `name` is one of the entries of the comma-separated `list`, compared by bytes.
pub open spec fn list_holds(list: Seq<u8>, name: Seq<char>) -> bool {
    occurs_in(comma_framed(list), comma_framed(vstd::utf8::encode_utf8(name)))
}

/// The tag that takes bit `n`.
pub open spec fn component_tag_of_index(n: int) -> ComponentTag {
    if n == 0 {
        ComponentTag::DisabledAtStart
    } else if n == 1 {
        ComponentTag::SunbabySprite
    } else if n == 2 {
        ComponentTag::EwSyncedVar
    } else if n == 3 {
        ComponentTag::Disabled
    } else if n == 4 {
        ComponentTag::Activate
    } else if n == 5 {
        ComponentTag::EnabledAtStart
    } else if n == 6 {
        ComponentTag::ShopCost
    } else if n == 7 {
        ComponentTag::Character
    } else if n == 8 {
        ComponentTag::EwDesLua
    } else {
        ComponentTag::NoTag
    }
}

/// The tag that takes bit `n`.
pub open spec fn cached_tag_of_index(n: int) -> CachedTag {
    if n == 0 {
        CachedTag::EwClient
    } else if n == 1 {
        CachedTag::PitcheckB
    } else if n == 2 {
        CachedTag::SeedD
    } else if n == 3 {
        CachedTag::BossWizard
    } else if n == 4 {
        CachedTag::CardAction
    } else if n == 5 {
        CachedTag::BossCentipede
    } else if n == 6 {
        CachedTag::BossCentipedeActive
    } else if n == 7 {
        CachedTag::DesTag
    } else if n == 8 {
        CachedTag::BossDragon
    } else if n == 9 {
        CachedTag::PolymorphableNOT
    } else if n == 10 {
        CachedTag::EggItem
    } else {
        CachedTag::EwClient
    }
}

impl ComponentTag {
    /// The tag that takes bit `n`.
    pub fn from_index(n: u16) -> (r: Self)
        requires
            n < 9,
        ensures
            r == component_tag_of_index(n as int),
            component_tag_index(r) == n,
    {
        match n {
            0 => Self::DisabledAtStart,
            1 => Self::SunbabySprite,
            2 => Self::EwSyncedVar,
            3 => Self::Disabled,
            4 => Self::Activate,
            5 => Self::EnabledAtStart,
            6 => Self::ShopCost,
            7 => Self::Character,
            8 => Self::EwDesLua,
            _ => Self::EwDesLua,
        }
    }
}

impl CachedTag {
    /// The tag that takes bit `n`.
    pub fn from_index(n: u16) -> (r: Self)
        requires
            n < 11,
        ensures
            r == cached_tag_of_index(n as int),
            cached_tag_index(r) == n,
    {
        match n {
            0 => Self::EwClient,
            1 => Self::PitcheckB,
            2 => Self::SeedD,
            3 => Self::BossWizard,
            4 => Self::CardAction,
            5 => Self::BossCentipede,
            6 => Self::BossCentipedeActive,
            7 => Self::DesTag,
            8 => Self::BossDragon,
            9 => Self::PolymorphableNOT,
            10 => Self::EggItem,
            _ => Self::EggItem,
        }
    }
}

/// The component tags among the comma-separated tag list of a component, each
/// at its bit. A tag counts only as a whole entry of the list.
pub fn component_tags_from_list(list: &str) -> (r: Tags<u16>)
    ensures
        forall|t: ComponentTag| t != ComponentTag::NoTag ==> #[trigger] tag_bit(r.0, component_tag_index(t)) == list_holds(list.spec_bytes(), component_tag_name(t)),
        forall|n: u16| 9 <= n < 16 ==> !#[trigger] tag_bit(r.0, n),
{
    let mut tags = Tags(0u16);
    let mut i: u16 = 0;
    assert forall|n: u16| n < 16 implies !#[trigger] tag_bit(tags.0, n) by {
        lemma_no_tag_in_zero(n);
    }
    while i < 9
        invariant
            i <= 9,
            forall|n: u16| n < 16 ==> #[trigger] tag_bit(tags.0, n) == (n < i && list_holds(list.spec_bytes(), component_tag_name(component_tag_of_index(n as int)))),
        decreases 9 - i,
    {
        let t = ComponentTag::from_index(i);
        let name = t.to_str();
        let ghost before = tags.0;
        if list_has_item(list, name) {
            tags.set(i);
        }
        proof {
            assert forall|n: u16| n < 16 implies #[trigger] tag_bit(tags.0, n) == (n < i + 1 && list_holds(list.spec_bytes(), component_tag_name(component_tag_of_index(n as int)))) by {
                assert(tag_bit(before, n) == (n < i && list_holds(list.spec_bytes(), component_tag_name(component_tag_of_index(n as int)))));
            }
        }
        i = i + 1;
    }
    proof {
        assert forall|t: ComponentTag| t != ComponentTag::NoTag implies #[trigger] tag_bit(tags.0, component_tag_index(t)) == list_holds(list.spec_bytes(), component_tag_name(t)) by {
            assert(component_tag_of_index(component_tag_index(t) as int) == t);
        }
    }
    tags
}

/// The cached tags among the comma-separated tag list of an entity, each at
/// its bit. A tag counts only as a whole entry of the list.
pub fn entity_tags_from_list(list: &str) -> (r: Tags<u16>)
    ensures
        forall|t: CachedTag| #[trigger] tag_bit(r.0, cached_tag_index(t)) == list_holds(list.spec_bytes(), cached_tag_name(t)),
        forall|n: u16| 11 <= n < 16 ==> !#[trigger] tag_bit(r.0, n),
{
    let mut tags = Tags(0u16);
    let mut i: u16 = 0;
    assert forall|n: u16| n < 16 implies !#[trigger] tag_bit(tags.0, n) by {
        lemma_no_tag_in_zero(n);
    }
    while i < 11
        invariant
            i <= 11,
            forall|n: u16| n < 16 ==> #[trigger] tag_bit(tags.0, n) == (n < i && list_holds(list.spec_bytes(), cached_tag_name(cached_tag_of_index(n as int)))),
        decreases 11 - i,
    {
        let t = CachedTag::from_index(i);
        let name = t.to_tag();
        let ghost before = tags.0;
        if list_has_item(list, name) {
            tags.set(i);
        }
        proof {
            assert forall|n: u16| n < 16 implies #[trigger] tag_bit(tags.0, n) == (n < i + 1 && list_holds(list.spec_bytes(), cached_tag_name(cached_tag_of_index(n as int)))) by {
                assert(tag_bit(before, n) == (n < i && list_holds(list.spec_bytes(), cached_tag_name(cached_tag_of_index(n as int)))));
            }
        }
        i = i + 1;
    }
    proof {
        assert forall|t: CachedTag| #[trigger] tag_bit(tags.0, cached_tag_index(t)) == list_holds(list.spec_bytes(), cached_tag_name(t)) by {
            assert(cached_tag_of_index(cached_tag_index(t) as int) == t);
        }
    }
    tags
}

} // verus!
