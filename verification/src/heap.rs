//! Pointers into memory that the game's allocator owns, held as addresses.
use vstd::prelude::*;
use std::marker::PhantomData;

verus! {

/// Pointer for memory allocated by the game's allocator, held as its address.
pub struct Ptr<T> {
    addr: usize,
    marker: PhantomData<T>,
}

impl<T> Ptr<T> {
    /// The address the pointer holds.
    pub closed spec fn address(&self) -> usize {
        self.addr
    }

    /// The null pointer.
    pub fn null() -> (r: Self)
        ensures
            r.address() == 0,
    {
        Ptr { addr: 0, marker: PhantomData }
    }

    /// Whether the pointer is null.
    pub fn is_null(&self) -> (r: bool)
        ensures
            r == (self.address() == 0),
    {
        self.addr == 0
    }

    /// The same address, as a pointer to another type.
    pub fn cast<U>(self) -> (r: Ptr<U>)
        ensures
            r.address() == self.address(),
    {
        Ptr { addr: self.addr, marker: PhantomData }
    }

    /// The address.
    pub fn as_raw(&self) -> (r: usize)
        ensures
            r == self.address(),
    {
        self.addr
    }
}

impl<T> Clone for Ptr<T> {
    fn clone(&self) -> (r: Self)
        ensures
            r.address() == self.address(),
    {
        Ptr { addr: self.addr, marker: PhantomData }
    }
}

} // verus!
