//! A tree as text, one block for each node.
//!
//! The block of a node names the node and its parent, holds the blocks of
//! its children, each on a new line, and ends with a rule:
//!
//! ```text
//! node: b
//! parent: a
//! children:
//! ----
//! ```

use vstd::prelude::*;
use crate::tree::{NodeId, NodeModel, XmlTree};

verus! {

/// The name of the parent of the node at `id`; empty for a node without one.
pub open spec fn parent_tag(nodes: Seq<NodeModel>, id: int) -> Seq<char> {
    match nodes[id].parent {
        Some(p) => if 0 <= p < nodes.len() {
            nodes[p].tag
        } else {
            Seq::empty()
        },
        None => Seq::empty(),
    }
}

/// The block of the node at `id`; empty when `id` names no node.
pub open spec fn render_node(nodes: Seq<NodeModel>, id: int) -> Seq<char>
    decreases nodes.len() - id, 1int, 0int,
{
    if 0 <= id < nodes.len() {
        "node: "@ + nodes[id].tag + "\nparent: "@ + parent_tag(nodes, id) + "\nchildren: "@
            + render_children(nodes, id, 0) + "\n----"@
    } else {
        Seq::empty()
    }
}

/// The blocks of the children of the node at `id` from the child at `from`
/// on, each behind a line break. A child that does not stand behind its
/// parent in the tree, as no child of a well-formed tree does, is left out.
pub open spec fn render_children(nodes: Seq<NodeModel>, id: int, from: int) -> Seq<char>
    decreases nodes.len() - id, 0int, nodes[id].children.len() - from,
{
    if 0 <= id < nodes.len() && 0 <= from < nodes[id].children.len() {
        let child = nodes[id].children[from];
        if id < child < nodes.len() {
            "\n"@ + render_node(nodes, child) + render_children(nodes, id, from + 1)
        } else {
            render_children(nodes, id, from + 1)
        }
    } else {
        Seq::empty()
    }
}

impl XmlTree {
    /// Writes the block of the node at `id` to the end of `out`.
    pub fn render_into(&self, id: NodeId, out: &mut String)
        ensures
            final(out)@ == old(out)@ + render_node(self@, id as int),
        decreases self.nodes.len() - id,
    {
        if id >= self.nodes.len() {
            return ;
        }
        let node = &self.nodes[id];
        out.append("node: ");
        out.append(node.tag.as_str());
        out.append("\nparent: ");
        match node.parent {
            Some(p) => {
                if p < self.nodes.len() {
                    out.append(self.nodes[p].tag.as_str());
                }
            },
            None => {},
        }
        out.append("\nchildren: ");
        let ghost head = out@;
        let mut k: usize = 0;
        while k < node.children.len()
            invariant
                id < self.nodes.len(),
                node == &self.nodes[id as int],
                k <= node.children.len(),
                out@ + render_children(self@, id as int, k as int) == head + render_children(
                    self@,
                    id as int,
                    0,
                ),
            decreases node.children.len() - k,
        {
            let child = node.children[k];
            if id < child && child < self.nodes.len() {
                out.append("\n");
                self.render_into(child, out);
            }
            k += 1;
        }
        out.append("\n----");
    }

    /// The block of the node at `id`, which holds those of all the nodes
    /// below it.
    pub fn render(&self, id: NodeId) -> (text: String)
        ensures
            text@ == render_node(self@, id as int),
    {
        let mut text = String::new();
        self.render_into(id, &mut text);
        text
    }
}

} // verus!
