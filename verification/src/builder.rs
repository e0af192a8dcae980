//! The tree builder: a state machine over the tags of a text, driven by a
//! stack of the elements that are open, the innermost last.
//!
//! An opening tag makes a node, lists it under the element on top of the
//! stack and pushes it. A self-closing tag makes a node in the same way and
//! leaves the stack alone. A closing tag pops the element on top, whose name
//! it must carry. The builder is done when the root has been closed; tags
//! that come after that are passed over.

use vstd::prelude::*;
use crate::error::{ParseError, ParseErrorKind, ParseErrorModel};
use crate::tag::{unique_names, Tag, TagKind, TagModel};
use crate::tree::{
    append_child, id_of, leaf, node_wf, nodes_of, tree_wf, with_child, NodeId, NodeModel, XmlNode,
    XmlTree,
};

verus! {

/// An element that has been opened and not closed yet.
#[derive(Clone, Copy, Debug, PartialEq, Eq)]
pub struct OpenElement {
    /// The node of the element.
    pub node: NodeId,
    /// Index, in characters, of the `<` of its opening tag.
    pub position: usize,
}

/// The mathematical value of an `OpenElement`.
pub struct OpenModel {
    pub node: int,
    pub position: int,
}

impl View for OpenElement {
    type V = OpenModel;

    open spec fn view(&self) -> OpenModel {
        OpenModel { node: self.node as int, position: self.position as int }
    }
}

/// The values of a stack of open elements.
pub open spec fn stack_of(stack: Seq<OpenElement>) -> Seq<OpenModel> {
    stack.map_values(|e: OpenElement| e@)
}

/// The state of the builder: the nodes made so far and the stack of open
/// elements.
#[verifier::ext_equal]
pub struct BuilderModel {
    pub nodes: Seq<NodeModel>,
    pub stack: Seq<OpenModel>,
}

impl BuilderModel {
    /// The state before any tag.
    pub open spec fn empty() -> BuilderModel {
        BuilderModel { nodes: Seq::empty(), stack: Seq::empty() }
    }

    /// The root has been made and closed.
    pub open spec fn done(self) -> bool {
        self.nodes.len() > 0 && self.stack.len() == 0
    }

    /// The innermost open element, which becomes the parent of the next
    /// node; `None` while no element is open.
    pub open spec fn top(self) -> Option<int> {
        if self.stack.len() > 0 {
            Some(self.stack.last().node)
        } else {
            None
        }
    }

    /// The nodes after a node for `tag` has been made: it comes last, has
    /// the innermost open element as its parent, and is the last child of
    /// that element.
    pub open spec fn with_node(self, tag: TagModel) -> Seq<NodeModel> {
        let id = self.nodes.len() as int;
        let node = leaf(tag.name, tag.attributes, self.top());
        match self.top() {
            Some(parent) => with_child(self.nodes, parent, id).push(node),
            None => self.nodes.push(node),
        }
    }

    /// What holds of every state that the builder reaches: the nodes are a
    /// well-formed tree, and the stack holds a chain of nodes from the root
    /// down, each the parent of the next.
    pub open spec fn wf(self) -> bool {
        &&& tree_wf(self.nodes)
        &&& forall|j: int|
            0 <= j < self.stack.len() ==> 0 <= (#[trigger] self.stack[j]).node < self.nodes.len()
        &&& self.stack.len() > 0 ==> self.stack[0].node == 0
        &&& forall|j: int|
            0 < j < self.stack.len() ==> self.nodes[(#[trigger] self.stack[j]).node].parent == Some(
                self.stack[j - 1].node,
            )
    }
}

/// The failure of a tag that no open element encloses.
pub open spec fn orphan(tag: TagModel) -> ParseErrorModel {
    ParseErrorModel {
        kind: ParseErrorKind::OrphanElement,
        position: tag.position,
        tags: seq![tag.name],
    }
}

/// The failure of a closing tag that does not carry the name `open`.
pub open spec fn mismatch(open: Seq<char>, tag: TagModel) -> ParseErrorModel {
    ParseErrorModel {
        kind: ParseErrorKind::MismatchedTag,
        position: tag.position,
        tags: seq![open, tag.name],
    }
}

/// The state after `tag`, or the failure that `tag` is.
///
/// Once the builder is done a tag changes nothing. Before that, an opening
/// tag makes a node and pushes it; a self-closing tag makes a node, and
/// fails with `OrphanElement` when no element is open; a closing tag pops the
/// innermost open element, and fails with `OrphanElement` when no element is
/// open and with `MismatchedTag` when that element has another name.
pub open spec fn step(s: BuilderModel, tag: TagModel) -> Result<BuilderModel, ParseErrorModel> {
    if s.done() {
        Ok(s)
    } else {
        match tag.kind {
            TagKind::Open => Ok(
                BuilderModel {
                    nodes: s.with_node(tag),
                    stack: s.stack.push(
                        OpenModel { node: s.nodes.len() as int, position: tag.position },
                    ),
                },
            ),
            TagKind::SelfClosing => if s.stack.len() == 0 {
                Err(orphan(tag))
            } else {
                Ok(BuilderModel { nodes: s.with_node(tag), stack: s.stack })
            },
            TagKind::Close => if s.stack.len() == 0 {
                Err(orphan(tag))
            } else if s.nodes[s.stack.last().node].tag != tag.name {
                Err(mismatch(s.nodes[s.stack.last().node].tag, tag))
            } else {
                Ok(BuilderModel { nodes: s.nodes, stack: s.stack.drop_last() })
            },
        }
    }
}

/// The tree that the text gave when it ends in state `s`: the nodes made,
/// or the failure `UnclosedElement`, at the opening tag of the innermost
/// element that is still open.
pub open spec fn finish(s: BuilderModel) -> Result<Seq<NodeModel>, ParseErrorModel> {
    if s.stack.len() > 0 {
        Err(
            ParseErrorModel {
                kind: ParseErrorKind::UnclosedElement,
                position: s.stack.last().position,
                tags: seq![s.nodes[s.stack.last().node].tag],
            },
        )
    } else {
        Ok(s.nodes)
    }
}

/// Making a node keeps the tree well-formed.
pub proof fn lemma_with_node_wf(s: BuilderModel, tag: TagModel)
    requires
        s.wf(),
        !s.done(),
        unique_names(tag.attributes),
    ensures
        tree_wf(s.with_node(tag)),
        s.with_node(tag).len() == s.nodes.len() + 1,
        s.with_node(tag).last() == leaf(tag.name, tag.attributes, s.top()),
        forall|i: int|
            0 <= i < s.nodes.len() ==> (#[trigger] s.with_node(tag)[i]).parent == s.nodes[i].parent,
{
    let id = s.nodes.len() as int;
    let after = s.with_node(tag);
    if let Some(p) = s.top() {
        // The new node is the last child of `p`.
        assert(after[p].children[s.nodes[p].children.len() as int] == id);
        assert forall|i: int| 0 <= i < after.len() implies node_wf(after, i) by {
            if i != id {
                assert(node_wf(s.nodes, i));
                if i > 0 {
                    // The parent of the node at `i` lists it where it did.
                    let q = s.nodes[i].parent->Some_0;
                    let at = choose|k: int|
                        0 <= k < s.nodes[q].children.len() && s.nodes[q].children[k] == i;
                    assert(after[q].children[at] == i);
                }
            }
        }
    }
}

/// A step keeps the state well-formed.
pub proof fn lemma_step_wf(s: BuilderModel, tag: TagModel)
    requires
        s.wf(),
        unique_names(tag.attributes),
    ensures
        step(s, tag) matches Ok(next) ==> next.wf(),
{
    if !s.done() && tag.kind !is Close && step(s, tag) is Ok {
        lemma_with_node_wf(s, tag);
    }
}

/// The builder.
#[derive(Clone, Debug)]
pub struct TreeBuilder {
    /// The nodes made so far.
    pub nodes: Vec<XmlNode>,
    /// The elements that are open, the innermost last.
    pub stack: Vec<OpenElement>,
}

impl View for TreeBuilder {
    type V = BuilderModel;

    open spec fn view(&self) -> BuilderModel {
        BuilderModel { nodes: nodes_of(self.nodes@), stack: stack_of(self.stack@) }
    }
}

impl TreeBuilder {
    /// A builder that has seen no tag.
    pub fn new() -> (builder: TreeBuilder)
        ensures
            builder@ == BuilderModel::empty(),
            builder@.wf(),
    {
        TreeBuilder { nodes: Vec::new(), stack: Vec::new() }
    }

    /// Whether the root has been made and closed.
    pub fn is_done(&self) -> (done: bool)
        ensures
            done == self@.done(),
    {
        self.nodes.len() > 0 && self.stack.len() == 0
    }

    /// The number of elements that are open.
    pub fn depth(&self) -> (depth: usize)
        ensures
            depth == self@.stack.len(),
    {
        self.stack.len()
    }

    /// The innermost open element.
    pub fn top(&self) -> (top: Option<NodeId>)
        ensures
            self@.top() == id_of(top),
    {
        let n = self.stack.len();
        if n > 0 {
            Some(self.stack[n - 1].node)
        } else {
            None
        }
    }

    /// Makes the node of `tag` under the innermost open element.
    fn add_node(&mut self, tag: Tag) -> (id: NodeId)
        requires
            old(self)@.wf(),
        ensures
            id == old(self).nodes.len(),
            final(self)@.nodes == old(self)@.with_node(tag@),
            final(self).stack == old(self).stack,
    {
        let parent = self.top();
        let id = XmlNode::shared(tag.name, tag.attributes, parent, &mut self.nodes);
        if let Some(p) = parent {
            append_child(&mut self.nodes, p, id);
        }
        id
    }

    /// Takes the next tag.
    ///
    /// Moves to the state that `step` gives. On a failure the builder is
    /// left as it was.
    pub fn push_tag(&mut self, tag: Tag) -> (r: Result<(), ParseError>)
        requires
            old(self)@.wf(),
            unique_names(tag@.attributes),
        ensures
            match r {
                Ok(_) => step(old(self)@, tag@) == Ok::<_, ParseErrorModel>(final(self)@),
                Err(e) => step(old(self)@, tag@) == Err::<BuilderModel, _>(e@) && *final(self)
                    == *old(self),
            },
            final(self)@.wf(),
    {
        proof {
            lemma_step_wf(self@, tag@);
        }
        if self.is_done() {
            return Ok(());
        }
        let depth = self.stack.len();
        match tag.kind {
            TagKind::Open => {
                let position = tag.position;
                let id = self.add_node(tag);
                self.stack.push(OpenElement { node: id, position });
                assert(self@.stack =~= old(self)@.stack.push(
                    OpenModel { node: id as int, position: position as int },
                ));
                Ok(())
            },
            TagKind::SelfClosing => {
                if depth == 0 {
                    Err(ParseError::named(ParseErrorKind::OrphanElement, tag.position, tag.name))
                } else {
                    let _ = self.add_node(tag);
                    Ok(())
                }
            },
            TagKind::Close => {
                if depth == 0 {
                    return Err(
                        ParseError::named(ParseErrorKind::OrphanElement, tag.position, tag.name),
                    );
                }
                let open = self.stack[depth - 1].node;
                if self.nodes[open].tag != tag.name {
                    let name = self.nodes[open].tag.clone();
                    return Err(
                        ParseError::named_pair(
                            ParseErrorKind::MismatchedTag,
                            tag.position,
                            name,
                            tag.name,
                        ),
                    );
                }
                self.stack.pop();
                assert(self@.stack =~= old(self)@.stack.drop_last());
                Ok(())
            },
        }
    }

    /// Ends the text: gives the tree, or fails with `UnclosedElement` when an
    /// element is still open.
    pub fn finish(self) -> (tree: Result<XmlTree, ParseError>)
        requires
            self@.wf(),
        ensures
            match tree {
                Ok(t) => finish(self@) == Ok::<_, ParseErrorModel>(t@) && t.wf(),
                Err(e) => finish(self@) == Err::<Seq<NodeModel>, _>(e@),
            },
    {
        let depth = self.stack.len();
        if depth > 0 {
            let open = self.stack[depth - 1];
            let name = self.nodes[open.node].tag.clone();
            Err(ParseError::named(ParseErrorKind::UnclosedElement, open.position, name))
        } else {
            Ok(XmlTree { nodes: self.nodes })
        }
    }
}

} // verus!
