//! The element tree.
//!
//! A tree keeps its nodes in one vector, in the order in which their tags
//! stand in the text, and a node names its parent and its children by their
//! places in that vector. The parent owns nothing through that name: the
//! tree owns every node, and goes as a whole.

use vstd::prelude::*;
use crate::tag::{
    attributes_of, find_attribute, index_of_name, unique_names, Attribute, AttributeModel,
};

verus! {

/// The place of a node in its tree.
pub type NodeId = usize;

/// One element.
#[derive(Clone, Debug, PartialEq, Eq)]
pub struct XmlNode {
    /// The name of the element.
    pub tag: String,
    /// The attributes, in the order in which their names first occur.
    pub attributes: Vec<Attribute>,
    /// The enclosing element; `None` for the root.
    pub parent: Option<NodeId>,
    /// The elements directly inside this one, in the order of the text.
    pub children: Vec<NodeId>,
}

/// The mathematical value of an `XmlNode`.
#[verifier::ext_equal]
pub struct NodeModel {
    pub tag: Seq<char>,
    pub attributes: Seq<AttributeModel>,
    pub parent: Option<int>,
    pub children: Seq<int>,
}

/// The places that a sequence of ids names.
pub open spec fn ids_of(ids: Seq<NodeId>) -> Seq<int> {
    ids.map_values(|i: NodeId| i as int)
}

/// The place that an optional id names.
pub open spec fn id_of(id: Option<NodeId>) -> Option<int> {
    match id {
        Some(i) => Some(i as int),
        None => None,
    }
}

impl View for XmlNode {
    type V = NodeModel;

    open spec fn view(&self) -> NodeModel {
        NodeModel {
            tag: self.tag@,
            attributes: attributes_of(self.attributes@),
            parent: id_of(self.parent),
            children: ids_of(self.children@),
        }
    }
}

/// The values of a sequence of nodes.
pub open spec fn nodes_of(nodes: Seq<XmlNode>) -> Seq<NodeModel> {
    nodes.map_values(|n: XmlNode| n@)
}

/// A node that has no children yet.
pub open spec fn leaf(
    tag: Seq<char>,
    attributes: Seq<AttributeModel>,
    parent: Option<int>,
) -> NodeModel {
    NodeModel { tag, attributes, parent, children: Seq::empty() }
}

/// `nodes` after the node at `parent` has got `child` as its last child.
pub open spec fn with_child(nodes: Seq<NodeModel>, parent: int, child: int) -> Seq<NodeModel> {
    nodes.update(
        parent,
        NodeModel { children: nodes[parent].children.push(child), ..nodes[parent] },
    )
}

impl XmlNode {
    /// A node with the given name, attributes and parent, and no children.
    pub fn new(tag: String, attributes: Vec<Attribute>, parent: Option<NodeId>) -> (node: XmlNode)
        ensures
            node@ == leaf(tag@, attributes_of(attributes@), id_of(parent)),
            node.tag == tag,
            node.attributes == attributes,
            node.parent == parent,
    {
        XmlNode { tag, attributes, parent, children: Vec::new() }
    }

    /// Puts a new node with no children into `arena`, where other nodes can
    /// name it, and gives its place there. The node that `parent` names is
    /// left as it is.
    pub fn shared(
        tag: String,
        attributes: Vec<Attribute>,
        parent: Option<NodeId>,
        arena: &mut Vec<XmlNode>,
    ) -> (id: NodeId)
        ensures
            id == old(arena).len(),
            final(arena)@.len() == old(arena)@.len() + 1,
            final(arena)@.take(id as int) == old(arena)@,
            nodes_of(final(arena)@) == nodes_of(old(arena)@).push(
                leaf(tag@, attributes_of(attributes@), id_of(parent)),
            ),
    {
        let id = arena.len();
        arena.push(XmlNode::new(tag, attributes, parent));
        id
    }
}

/// Makes `child` the last child of the node at `parent`.
pub fn append_child(nodes: &mut Vec<XmlNode>, parent: NodeId, child: NodeId)
    requires
        parent < old(nodes).len(),
    ensures
        final(nodes).len() == old(nodes).len(),
        nodes_of(final(nodes)@) == with_child(nodes_of(old(nodes)@), parent as int, child as int),
{
    nodes[parent].children.push(child);
    assert(nodes@[parent as int]@.children =~= old(nodes)@[parent as int]@.children.push(
        child as int,
    ));
}

/// What holds of the node at `i` in a well-formed tree: its attributes have
/// distinct names; the node at 0 has no parent, and every other node has one
/// that stands before it and lists it; its children stand behind it, in
/// rising order, and each names it as its parent.
pub open spec fn node_wf(nodes: Seq<NodeModel>, i: int) -> bool {
    let node = nodes[i];
    &&& unique_names(node.attributes)
    &&& (i == 0 ==> node.parent is None)
    &&& (i > 0 ==> (node.parent matches Some(p) && 0 <= p < i && nodes[p].children.contains(i)))
    &&& forall|k: int|
        0 <= k < node.children.len() ==> {
            &&& i < #[trigger] node.children[k] < nodes.len()
            &&& nodes[node.children[k]].parent == Some(i)
        }
    &&& forall|j: int, k: int|
        0 <= j < k < node.children.len() ==> #[trigger] node.children[j] < #[trigger] node.children[k]
}

/// A well-formed tree: every node is as `node_wf` says.
pub open spec fn tree_wf(nodes: Seq<NodeModel>) -> bool {
    forall|i: int| 0 <= i < nodes.len() ==> node_wf(nodes, i)
}

/// A tree of elements; empty when the text held no element.
#[derive(Clone, Debug, PartialEq, Eq)]
pub struct XmlTree {
    /// The nodes in the order of their tags in the text; the root comes
    /// first.
    pub nodes: Vec<XmlNode>,
}

impl View for XmlTree {
    type V = Seq<NodeModel>;

    open spec fn view(&self) -> Seq<NodeModel> {
        nodes_of(self.nodes@)
    }
}

/// In a well-formed tree the node at 0 is the only one without a parent,
/// and the parent of any other node stands before it, so that the way up
/// from a node ends at the root.
pub proof fn lemma_single_root(nodes: Seq<NodeModel>, i: int)
    requires
        tree_wf(nodes),
        0 <= i < nodes.len(),
    ensures
        nodes[i].parent is None <==> i == 0,
        nodes[i].parent matches Some(p) ==> 0 <= p < i,
{
    assert(node_wf(nodes, i));
}

/// In a well-formed tree a node other than the root stands exactly once
/// among the children of its parent, and nowhere among the children of any
/// other node.
pub proof fn lemma_listed_once(nodes: Seq<NodeModel>, i: int)
    requires
        tree_wf(nodes),
        0 < i < nodes.len(),
    ensures
        nodes[i].parent is Some,
        0 <= nodes[i].parent->Some_0 < i,
        exists|k: int|
            {
                &&& 0 <= k < nodes[nodes[i].parent->Some_0].children.len()
                &&& #[trigger] nodes[nodes[i].parent->Some_0].children[k] == i
                &&& forall|j: int|
                    0 <= j < nodes[nodes[i].parent->Some_0].children.len()
                        && #[trigger] nodes[nodes[i].parent->Some_0].children[j] == i ==> j == k
            },
        forall|q: int, j: int|
            0 <= q < nodes.len() && q != nodes[i].parent->Some_0 && 0 <= j
                < nodes[q].children.len() ==> #[trigger] nodes[q].children[j] != i,
{
    assert(node_wf(nodes, i));
    let p = nodes[i].parent->Some_0;
    assert(node_wf(nodes, p));
    let listed = nodes[p].children;
    let k = choose|k: int| 0 <= k < listed.len() && listed[k] == i;
    assert forall|j: int| 0 <= j < listed.len() && #[trigger] listed[j] == i implies j == k by {}
    assert forall|q: int, j: int|
        0 <= q < nodes.len() && q != p && 0 <= j < nodes[q].children.len() implies #[trigger] nodes[q].children[j]
            != i by {
        assert(node_wf(nodes, q));
    }
}

impl XmlNode {
    /// The value of the attribute called `name`, if the element has one.
    pub fn attribute(&self, name: &str) -> (value: Option<&String>)
        ensures
            match value {
                Some(v) => {
                    &&& index_of_name(self@.attributes, name@, 0) < self@.attributes.len()
                    &&& v@ == self@.attributes[index_of_name(self@.attributes, name@, 0)].value
                },
                None => index_of_name(self@.attributes, name@, 0) == self@.attributes.len(),
            },
    {
        let wanted = name.to_owned();
        let at = find_attribute(&self.attributes, &wanted);
        if at < self.attributes.len() {
            Some(&self.attributes[at].value)
        } else {
            None
        }
    }

    /// Whether the node is a root: it has no parent.
    pub fn is_root(&self) -> (root: bool)
        ensures
            root == (self@.parent is None),
    {
        self.parent.is_none()
    }
}

impl XmlTree {
    /// Whether the tree is well-formed.
    pub open spec fn wf(&self) -> bool {
        tree_wf(self@)
    }

    /// The number of nodes.
    pub fn len(&self) -> (n: usize)
        ensures
            n == self@.len(),
    {
        self.nodes.len()
    }

    /// Whether the tree has no node.
    pub fn is_empty(&self) -> (empty: bool)
        ensures
            empty == (self@.len() == 0),
    {
        self.nodes.len() == 0
    }

    /// The root: the first node, unless the tree is empty.
    pub fn root(&self) -> (root: Option<&XmlNode>)
        ensures
            match root {
                Some(node) => self.nodes@.len() > 0 && *node == self.nodes@[0],
                None => self.nodes@.len() == 0,
            },
    {
        self.get(0)
    }

    /// The node at `id`, if there is one.
    pub fn get(&self, id: NodeId) -> (node: Option<&XmlNode>)
        ensures
            match node {
                Some(n) => id < self.nodes@.len() && *n == self.nodes@[id as int],
                None => id >= self.nodes@.len(),
            },
    {
        if id < self.nodes.len() {
            Some(&self.nodes[id])
        } else {
            None
        }
    }

    /// The parent of the node at `id`: `None` when `id` names no node or
    /// the node has no parent. In a well-formed tree every node but the
    /// root has one.
    pub fn parent_of(&self, id: NodeId) -> (parent: Option<&XmlNode>)
        ensures
            match parent {
                Some(p) => {
                    &&& id < self.nodes@.len()
                    &&& self.nodes@[id as int].parent matches Some(at)
                    &&& at < self.nodes@.len()
                    &&& *p == self.nodes@[at as int]
                },
                None => !(self.wf() && 0 < id < self.nodes@.len()),
            },
    {
        if id >= self.nodes.len() {
            return None;
        }
        proof {
            if self.wf() {
                assert(node_wf(self@, id as int));
            }
        }
        match self.nodes[id].parent {
            Some(at) => self.get(at),
            None => None,
        }
    }

    /// The `k`th child of the node at `id`: `None` when `id` names no node
    /// or the node has no `k`th child.
    pub fn child_of(&self, id: NodeId, k: usize) -> (child: Option<&XmlNode>)
        ensures
            match child {
                Some(c) => {
                    &&& id < self.nodes@.len()
                    &&& k < self.nodes@[id as int].children@.len()
                    &&& self.nodes@[id as int].children@[k as int] < self.nodes@.len()
                    &&& *c == self.nodes@[self.nodes@[id as int].children@[k as int] as int]
                },
                None => !(self.wf() && id < self.nodes@.len() && k
                    < self.nodes@[id as int].children@.len()),
            },
    {
        if id >= self.nodes.len() {
            return None;
        }
        let node = &self.nodes[id];
        if k >= node.children.len() {
            return None;
        }
        proof {
            if self.wf() {
                assert(node_wf(self@, id as int));
                assert(self@[id as int].children[k as int] == node.children@[k as int]);
            }
        }
        self.get(node.children[k])
    }
}

} // verus!
