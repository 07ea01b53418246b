//! A plain binary tree node with nullable children.

use vstd::prelude::*;

verus! {

/// A binary tree node: an owned value and two optional boxed children.
#[derive(Debug)]
pub struct Node<T> {
    pub left: Option<Box<Node<T>>>,
    pub right: Option<Box<Node<T>>>,
    pub value: T,
}

impl<T> Node<T> {
    /// A new boxed node holding `value`, with no children.
    pub fn new(value: T) -> (r: Box<Self>)
        ensures
            r.value == value,
            r.left is None,
            r.right is None,
    {
        Box::new(Self { value, left: None, right: None })
    }
}

} // verus!
