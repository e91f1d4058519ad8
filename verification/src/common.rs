//! Small general-purpose containers shared by the rest of the library.

use vstd::prelude::*;

verus! {

/// A generic LIFO collection.
pub struct Stack<T>(Vec<T>);

impl<T> View for Stack<T> {
    type V = Seq<T>;

    closed spec fn view(&self) -> Seq<T> {
        self.0@
    }
}

impl<T> Stack<T> {
    /// Construct a new stack.
    pub fn new() -> (r: Self)
        ensures
            r@ == Seq::<T>::empty(),
    {
        Stack(Vec::new())
    }

    /// Construct a new stack given a vector.
    pub fn from_vec(vec: Vec<T>) -> (r: Self)
        ensures
            r@ == vec@,
    {
        Stack(vec)
    }

    /// Push an item onto the stack.
    pub fn push(&mut self, item: T)
        ensures
            final(self)@ == old(self)@.push(item),
    {
        self.0.push(item);
    }

    /// Pop an item off the stack.
    pub fn pop(&mut self) -> (r: Option<T>)
        ensures
            old(self)@.len() == 0 ==> r is None && final(self)@ == old(self)@,
            old(self)@.len() > 0 ==> r == Some(old(self)@.last()) && final(self)@ == old(
                self,
            )@.drop_last(),
    {
        self.0.pop()
    }

    /// View the internal vector as a reference.
    pub fn vec(&self) -> (r: &Vec<T>)
        ensures
            r@ == self@,
    {
        &self.0
    }
}

} // verus!
