//! A simple ordered tree, the shape a downstream parser would assemble
//! tokens into: each node owns a data item and a vector of child nodes.

use vstd::prelude::*;

verus! {

/// One node of the tree: its data item and its children, in insertion order.
#[derive(Debug, PartialEq)]
pub struct Node<T> {
    /// The children, in the order they were added.
    pub children: Vec<Node<T>>,
    /// The data item this node carries.
    pub data: T,
}

impl<T> Node<T> {
    /// Creates a leaf node carrying `data`.
    pub fn new(data: T) -> (r: Node<T>)
        ensures
            r.data == data,
            r.children@.len() == 0,
    {
        Node { children: Vec::new(), data }
    }

    /// The data item of this node.
    pub fn get_data(&self) -> (r: &T)
        ensures
            *r == self.data,
    {
        &self.data
    }

    /// The number of children of this node.
    pub fn get_count(&self) -> (r: usize)
        ensures
            r == self.children@.len(),
    {
        self.children.len()
    }

    /// Appends a new leaf child carrying `data` and hands it back for
    /// further building; the existing children are kept in place.
    pub fn add_child(&mut self, data: T) -> (child: &mut Node<T>)
        ensures
            (*child).data == data,
            (*child).children@.len() == 0,
            final(self).data == old(self).data,
            final(self).children@ == old(self).children@.push(*final(child)),
    {
        let node = Node { children: Vec::new(), data };
        self.children.push(node);
        let index: usize = self.children.len() - 1;
        let ghost base = self.children@;
        proof {
            assert forall|y: Node<T>| base.update(index as int, y) =~= old(self).children@.push(
                y,
            ) by {}
        }
        &mut self.children[index]
    }

    /// The child at `index`, for reading or further building.
    pub fn get_child(&mut self, index: usize) -> (child: &mut Node<T>)
        requires
            index < old(self).children@.len(),
        ensures
            *child == old(self).children@[index as int],
            final(self).data == old(self).data,
            final(self).children@ == old(self).children@.update(index as int, *final(child)),
    {
        &mut self.children[index]
    }

    /// The data item of the child at `index`.
    pub fn get_child_data(&self, index: usize) -> (r: &T)
        requires
            index < self.children@.len(),
        ensures
            *r == self.children@[index as int].data,
    {
        self.children[index].get_data()
    }

    /// The child at `index`, or nothing when no such child exists.
    pub fn get_child_save(&self, index: usize) -> (child: Option<&Node<T>>)
        ensures
            index < self.children@.len() ==> (child matches Some(c) && *c
                == self.children@[index as int]),
            index >= self.children@.len() ==> child is None,
    {
        if index < self.children.len() {
            Some(&self.children[index])
        } else {
            None
        }
    }
}

} // verus!
