//! A LIFO collection built as a chain of exclusively owned nodes, each
//! holding one value and a link to the node beneath it. Push and pop are
//! atomic steps with respect to the cooperative scheduler, so two racing
//! pops can never both win the same top node. The length is derived from
//! the chain, never stored as a counter that could desynchronize from it.

use vstd::prelude::*;

verus! {

/// One link of the chain: a value and the node beneath it.
pub struct StackNode<T> {
    value: T,
    below: Option<Box<StackNode<T>>>,
}

/// A LIFO collection with at-most-one-winner semantics per pop.
pub struct ConcurrentStack<T> {
    top: Option<Box<StackNode<T>>>,
}

/// The contents of a chain, top first.
pub closed spec fn chain_view<T>(node: Option<Box<StackNode<T>>>) -> Seq<T>
    decreases node,
{
    match node {
        None => Seq::empty(),
        Some(n) => seq![n.value] + chain_view(n.below),
    }
}

impl<T> ConcurrentStack<T> {
    /// The mathematical contents, top first: `self@[0]` is the value the
    /// next pop would win.
    pub closed spec fn view(&self) -> Seq<T> {
        chain_view(self.top)
    }

    /// Creates an empty stack.
    pub fn new() -> (r: Self)
        ensures
            r@ == Seq::<T>::empty(),
    {
        ConcurrentStack { top: None }
    }

    /// Makes `value` the new top. Always succeeds.
    pub fn push(&mut self, value: T)
        ensures
            final(self)@ == seq![value] + old(self)@,
    {
        let below = self.top.take();
        self.top = Some(Box::new(StackNode { value, below }));
    }

    /// Removes and returns the current top value, or `None` when no top
    /// exists at the moment of the attempt. The value of any node is
    /// delivered to at most one caller.
    pub fn pop(&mut self) -> (r: Option<T>)
        ensures
            old(self)@.len() == 0 ==> r is None && final(self)@ == old(self)@,
            old(self)@.len() > 0 ==> r == Some(old(self)@[0])
                && final(self)@ == old(self)@.drop_first(),
    {
        match self.top.take() {
            None => None,
            Some(node) => {
                let node = *node;
                self.top = node.below;
                proof {
                    assert(old(self)@.drop_first() =~= chain_view(node.below));
                }
                Some(node.value)
            },
        }
    }

    /// Returns the current node count, saturating at `usize::MAX`. Under
    /// concurrent mutation the value is a snapshot of a moving target and
    /// may be stale by the time the caller acts on it.
    pub fn len(&self) -> (r: usize)
        ensures
            r == self@.len() || (r == usize::MAX && self@.len() > usize::MAX),
    {
        let mut count: usize = 0;
        let mut cursor: &Option<Box<StackNode<T>>> = &self.top;
        loop
            invariant
                count + chain_view(*cursor).len() == self@.len(),
            decreases chain_view(*cursor).len(),
        {
            match cursor {
                None => {
                    return count;
                },
                Some(node) => {
                    if count == usize::MAX {
                        return count;
                    }
                    count = count + 1;
                    cursor = &node.below;
                },
            }
        }
    }
}

impl<T: Copy> ConcurrentStack<T> {
    /// Reads the whole chain into a vector, top first, one node at a time,
    /// without removing anything.
    pub fn contents(&self) -> (r: Vec<T>)
        ensures
            r@ == self@,
    {
        let mut items: Vec<T> = Vec::new();
        let mut cursor: &Option<Box<StackNode<T>>> = &self.top;
        loop
            invariant
                items@ + chain_view(*cursor) == self@,
            decreases chain_view(*cursor).len(),
        {
            match cursor {
                None => {
                    proof {
                        assert(items@ =~= items@ + chain_view(*cursor));
                    }
                    return items;
                },
                Some(node) => {
                    items.push(node.value);
                    proof {
                        assert(items@ + chain_view(node.below) =~= self@);
                    }
                    cursor = &node.below;
                },
            }
        }
    }
}

} // verus!
