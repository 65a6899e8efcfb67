//! A dialogue tree for story-driven games.
//!
//! Each node holds a message the player can read, the responses the player
//! may pick from, and one child per response representing the branch the
//! story takes.

use vstd::prelude::*;

verus! {

/// A dialogue-tree node: a message, the response choices (response index
/// corresponds to child index), the currently selected response, and the
/// child branches.
pub struct ListTreeNode {
    pub message: String,
    pub text_index: usize,
    pub responses: Vec<String>,
    pub response_index: usize,
    pub children: Vec<ListTreeNode>,
}

impl ListTreeNode {
    /// A fresh node with both cursors at the start.
    pub fn new(message: String, responses: Vec<String>, children: Vec<ListTreeNode>) -> (n:
        ListTreeNode)
        ensures
            n.message == message,
            n.text_index == 0,
            n.responses == responses,
            n.response_index == 0,
            n.children == children,
    {
        ListTreeNode { message, text_index: 0, responses, response_index: 0, children }
    }

    /// Appends a child branch built from the given message, responses and
    /// grandchildren; everything else is left as it was.
    pub fn add(&mut self, message: String, responses: Vec<String>, children: Vec<ListTreeNode>)
        ensures
            final(self).message == old(self).message,
            final(self).text_index == old(self).text_index,
            final(self).responses == old(self).responses,
            final(self).response_index == old(self).response_index,
            final(self).children@ == old(self).children@.push(
                ListTreeNode { message, text_index: 0, responses, response_index: 0, children },
            ),
    {
        self.children.push(
            ListTreeNode { message, text_index: 0, responses, response_index: 0, children },
        );
    }

    /// Descends into the child at `index`: the node becomes that child,
    /// with both cursors reset to the start.
    pub fn next(&mut self, index: usize)
        requires
            index < old(self).children@.len(),
        ensures
            final(self).message == old(self).children@[index as int].message,
            final(self).text_index == 0,
            final(self).responses == old(self).children@[index as int].responses,
            final(self).response_index == 0,
            final(self).children == old(self).children@[index as int].children,
    {
        let child = self.children.remove(index);
        self.message = child.message;
        self.text_index = 0;
        self.responses = child.responses;
        self.response_index = 0;
        self.children = child.children;
    }
}

} // verus!
