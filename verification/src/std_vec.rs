//! The game's C++ vector, held as its contents and its capacity: the growth
//! policy and the element operations the game-side code performs on it.
use vstd::prelude::*;
use vstd::arithmetic::power2::{pow2, lemma_pow2_adds, lemma2_to64};

verus! {

/// `p` is the smallest power of two that is at least `x`.
pub open spec fn is_next_power_of_two(x: nat, p: nat) -> bool {
    (exists|e: nat| #[trigger] pow2(e) == p) && x <= p && (p == 1 || p < 2 * x)
}

/// The smallest power of two that is at least `x`; 1 for 0.
pub fn next_power_of_two(x: usize) -> (r: usize)
    requires
        x <= usize::MAX / 2 + 1,
    ensures
        is_next_power_of_two(x as nat, r as nat),
{
    let mut p: usize = 1;
    let ghost mut e: nat = 0;
    proof {
        lemma2_to64();
    }
    while p < x
        invariant
            pow2(e) == p,
            p == 1 || p < 2 * x,
            1 <= p,
            x <= usize::MAX / 2 + 1,
        decreases usize::MAX - p,
    {
        proof {
            lemma_pow2_adds(e, 1);
            lemma2_to64();
        }
        p = p * 2;
        proof {
            e = e + 1;
        }
    }
    p
}

/// A vector of the game: its elements and the capacity that was reserved.
pub struct StdVec<T> {
    items: Vec<T>,
    cap: usize,
}

impl<T> View for StdVec<T> {
    type V = Seq<T>;

    closed spec fn view(&self) -> Seq<T> {
        self.items@
    }
}

/// The capacity after reserving room for `n` more elements.
pub open spec fn grown_capacity(cap: nat, len: nat, n: nat) -> nat {
    if cap < len + n {
        choose|p: nat| #[trigger] is_next_power_of_two(len + n, p)
    } else {
        cap
    }
}

/// Room for `n` more elements can be reserved without the capacity overflowing.
pub open spec fn can_grow(len: nat, n: nat) -> bool {
    len + n <= usize::MAX / 2 + 1
}

/// The next power of two is unique.
pub proof fn lemma_next_power_unique(x: nat, p: nat, q: nat)
    requires
        is_next_power_of_two(x, p),
        is_next_power_of_two(x, q),
    ensures
        p == q,
{
    let a = choose|e: nat| #[trigger] pow2(e) == p;
    let b = choose|e: nat| #[trigger] pow2(e) == q;
    if a < b {
        lemma_pow2_adds(a, (b - a) as nat);
        lemma_pow2_at_least_double(a, (b - a) as nat);
    } else if b < a {
        lemma_pow2_adds(b, (a - b) as nat);
        lemma_pow2_at_least_double(b, (a - b) as nat);
    }
}

proof fn lemma_pow2_at_least_double(a: nat, d: nat)
    requires
        d >= 1,
    ensures
        pow2(a + d) >= 2 * pow2(a),
    decreases d,
{
    lemma_pow2_adds(a, d);
    lemma_pow2_adds(a, 1);
    vstd::arithmetic::power2::lemma_pow2_pos(a);
    if d == 1 {
        vstd::arithmetic::power2::lemma2_to64();
        assert(pow2(1) == 2);
    } else {
        lemma_pow2_at_least_double(a, (d - 1) as nat);
        lemma_pow2_adds((a + d - 1) as nat, 1);
        vstd::arithmetic::power2::lemma2_to64();
        assert(pow2(1) == 2);
    }
}

impl<T> StdVec<T> {
    /// The capacity, in elements.
    pub closed spec fn cap(&self) -> nat {
        self.cap as nat
    }

    /// The elements fit in the capacity.
    pub closed spec fn wf(&self) -> bool {
        self.items@.len() <= self.cap
    }

    /// An empty vector with nothing reserved.
    pub fn null() -> (r: Self)
        ensures
            r.wf(),
            r@ == Seq::<T>::empty(),
            r.cap() == 0,
    {
        StdVec { items: Vec::new(), cap: 0 }
    }

    /// Reserves room for `n` more elements: when they do not fit, the capacity
    /// becomes the next power of two of the needed length.
    pub fn reserve(&mut self, n: usize)
        requires
            old(self).wf(),
            can_grow(old(self)@.len(), n as nat),
        ensures
            final(self).wf(),
            final(self)@ == old(self)@,
            final(self).cap() == grown_capacity(old(self).cap(), old(self)@.len(), n as nat),
            final(self).cap() >= final(self)@.len() + n,
    {
        let len = self.items.len();
        if self.cap < len + n {
            let new_cap = next_power_of_two(len + n);
            self.cap = new_cap;
            proof {
                let c = choose|p: nat| #[trigger] is_next_power_of_two((len + n) as nat, p);
                lemma_next_power_unique((len + n) as nat, c, new_cap as nat);
            }
        }
    }

    /// An empty vector with room for `n` elements.
    pub fn with_capacity(n: usize) -> (r: Self)
        requires
            can_grow(0, n as nat),
        ensures
            r.wf(),
            r@ == Seq::<T>::empty(),
            r.cap() == grown_capacity(0, 0, n as nat),
    {
        let mut v = Self::null();
        v.reserve(n);
        v
    }

    /// An empty vector with room for four elements.
    pub fn new() -> (r: Self)
        ensures
            r.wf(),
            r@ == Seq::<T>::empty(),
            r.cap() == 4,
    {
        let r = Self::with_capacity(4);
        proof {
            lemma2_to64();
            assert(is_next_power_of_two(4, 4)) by {
                assert(pow2(2) == 4);
            }
            let c = choose|p: nat| #[trigger] is_next_power_of_two(4, p);
            lemma_next_power_unique(4, c, 4);
        }
        r
    }

    /// The elements, in order.
    pub fn iter(&self) -> (r: &[T])
        ensures
            r@ == self@,
    {
        self.items.as_slice()
    }

    /// The capacity, in elements.
    pub fn capacity(&self) -> (r: usize)
        ensures
            r == self.cap(),
    {
        self.cap
    }

    /// The number of elements.
    pub fn len(&self) -> (r: usize)
        ensures
            r == self@.len(),
    {
        self.items.len()
    }

    /// Whether there is no element.
    pub fn is_empty(&self) -> (r: bool)
        ensures
            r == (self@.len() == 0),
    {
        self.items.len() == 0
    }

    /// The element at `index`, if there is one.
    pub fn get(&self, index: usize) -> (r: Option<&T>)
        ensures
            index < self@.len() ==> r == Some(&self@[index as int]),
            index >= self@.len() ==> r is None,
    {
        if index < self.items.len() {
            Some(&self.items[index])
        } else {
            None
        }
    }

    /// The last element, if there is one.
    pub fn last(&self) -> (r: Option<&T>)
        ensures
            self@.len() > 0 ==> r == Some(&self@.last()),
            self@.len() == 0 ==> r is None,
    {
        let n = self.items.len();
        if n > 0 {
            Some(&self.items[n - 1])
        } else {
            None
        }
    }

    /// Appends an element, growing the capacity when it is full. The game
    /// reads this memory as its own vector, whose push puts the value at the
    /// next index; the component tables built with it rely on that.
    pub fn push(&mut self, value: T)
        requires
            old(self).wf(),
            can_grow(old(self)@.len(), 1),
        ensures
            final(self).wf(),
            final(self)@ == old(self)@.push(value),
            final(self).cap() == grown_capacity(old(self).cap(), old(self)@.len(), 1),
    {
        self.reserve(1);
        self.items.push(value);
    }

    /// Removes and returns the last element, if there is one.
    pub fn pop(&mut self) -> (r: Option<T>)
        requires
            old(self).wf(),
        ensures
            final(self).wf(),
            final(self).cap() == old(self).cap(),
            old(self)@.len() > 0 ==> r == Some(old(self)@.last()) && final(self)@ == old(self)@.drop_last(),
            old(self)@.len() == 0 ==> r is None && final(self)@ == old(self)@,
    {
        self.items.pop()
    }

    /// Inserts an element at `index`, shifting the later ones up.
    pub fn insert(&mut self, index: usize, value: T)
        requires
            old(self).wf(),
            index <= old(self)@.len(),
            can_grow(old(self)@.len(), 1),
        ensures
            final(self).wf(),
            final(self)@ == old(self)@.insert(index as int, value),
            final(self).cap() == grown_capacity(old(self).cap(), old(self)@.len(), 1),
    {
        self.reserve(1);
        self.items.insert(index, value);
    }

    /// Replaces the element at `index`.
    pub fn set(&mut self, index: usize, value: T)
        requires
            old(self).wf(),
            index < old(self)@.len(),
        ensures
            final(self).wf(),
            final(self).cap() == old(self).cap(),
            final(self)@ == old(self)@.update(index as int, value),
    {
        self.items.set(index, value);
    }

    /// Removes and returns the element at `index`, shifting the later ones down.
    pub fn remove(&mut self, index: usize) -> (r: T)
        requires
            old(self).wf(),
            index < old(self)@.len(),
        ensures
            final(self).wf(),
            final(self).cap() == old(self).cap(),
            r == old(self)@[index as int],
            final(self)@ == old(self)@.remove(index as int),
    {
        self.items.remove(index)
    }
}

impl<T: Copy> StdVec<T> {
    /// Another vector with the same elements and capacity.
    pub fn copy(&self) -> (r: Self)
        requires
            self.wf(),
        ensures
            r.wf(),
            r@ == self@,
            r.cap() == self.cap(),
    {
        let mut items: Vec<T> = Vec::new();
        let mut i: usize = 0;
        while i < self.items.len()
            invariant
                i <= self.items@.len(),
                items@ == self.items@.take(i as int),
            decreases self.items@.len() - i,
        {
            items.push(self.items[i]);
            i = i + 1;
            assert(items@ =~= self.items@.take(i as int));
        }
        assert(self.items@.take(i as int) =~= self.items@);
        StdVec { items, cap: self.cap }
    }
}

impl<T> Default for StdVec<T> {
    fn default() -> (r: Self)
        ensures
            r.wf(),
            r@ == Seq::<T>::empty(),
            r.cap() == 4,
    {
        Self::new()
    }
}

} // verus!
