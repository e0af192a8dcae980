//! Runs of the builder over a sequence of tags, and what holds of them.

use vstd::prelude::*;
use crate::builder::{
    finish, lemma_step_wf, lemma_with_node_wf, step, BuilderModel, TreeBuilder,
};
use crate::error::{ParseError, ParseErrorModel};
use crate::tag::{tags_of, unique_names, valid_tags, Tag, TagKind, TagModel};
use crate::tree::{node_wf, tree_wf, NodeModel, XmlTree};

verus! {

/// The state after the tags of `tags`, taken in order from state `s`, or the
/// first failure among them.
pub open spec fn feed(s: BuilderModel, tags: Seq<TagModel>) -> Result<
    BuilderModel,
    ParseErrorModel,
>
    decreases tags.len(),
{
    if tags.len() == 0 {
        Ok(s)
    } else {
        match step(s, tags[0]) {
            Err(e) => Err(e),
            Ok(next) => feed(next, tags.drop_first()),
        }
    }
}

/// The tree of a sequence of tags: what is left when the text ends after
/// them.
pub open spec fn build_spec(tags: Seq<TagModel>) -> Result<Seq<NodeModel>, ParseErrorModel> {
    match feed(BuilderModel::empty(), tags) {
        Err(e) => Err(e),
        Ok(last) => finish(last),
    }
}

/// The builder takes every tag of `tags`: it is not done before any of them.
pub open spec fn takes_all(s: BuilderModel, tags: Seq<TagModel>) -> bool
    decreases tags.len(),
{
    tags.len() == 0 || (!s.done() && (step(s, tags[0]) matches Ok(next) ==> takes_all(
        next,
        tags.drop_first(),
    )))
}

/// The number of tags of the given kind.
pub open spec fn count_kind(tags: Seq<TagModel>, kind: TagKind) -> nat
    decreases tags.len(),
{
    if tags.len() == 0 {
        0
    } else if tags[0].kind == kind {
        1 + count_kind(tags.drop_first(), kind)
    } else {
        count_kind(tags.drop_first(), kind)
    }
}

/// The tags that stand for an element, in order: the opening and the
/// self-closing ones.
pub open spec fn element_tags(tags: Seq<TagModel>) -> Seq<TagModel>
    decreases tags.len(),
{
    if tags.len() == 0 {
        Seq::empty()
    } else if tags[0].kind is Close {
        element_tags(tags.drop_first())
    } else {
        seq![tags[0]] + element_tags(tags.drop_first())
    }
}

/// Whether the node `id` is an open element in state `s`.
pub open spec fn is_open(s: BuilderModel, id: int) -> bool {
    exists|j: int| 0 <= j < s.stack.len() && (#[trigger] s.stack[j]).node == id
}

/// Two nodes that are the same element: they agree in all but their
/// children.
pub open spec fn same_element(a: NodeModel, b: NodeModel) -> bool {
    a.tag == b.tag && a.attributes == b.attributes && a.parent == b.parent
}

/// Every part of a valid sequence of tags is valid.
proof fn lemma_valid_parts(tags: Seq<TagModel>, k: int)
    requires
        valid_tags(tags),
        0 <= k <= tags.len(),
    ensures
        valid_tags(tags.take(k)),
        valid_tags(tags.skip(k)),
{
    let head = tags.take(k);
    let tail = tags.skip(k);
    assert forall|i: int| 0 <= i < head.len() implies unique_names(
        (#[trigger] head[i]).attributes,
    ) by {}
    assert forall|i: int| 0 <= i < tail.len() implies unique_names(
        (#[trigger] tail[i]).attributes,
    ) by {}
}

/// A run of valid tags keeps the state well-formed.
pub proof fn lemma_feed_wf(s: BuilderModel, tags: Seq<TagModel>)
    requires
        s.wf(),
        valid_tags(tags),
    ensures
        feed(s, tags) matches Ok(last) ==> last.wf(),
    decreases tags.len(),
{
    if tags.len() > 0 {
        lemma_valid_parts(tags, 1);
        lemma_step_wf(s, tags[0]);
        match step(s, tags[0]) {
            Ok(next) => lemma_feed_wf(next, tags.drop_first()),
            Err(_) => {},
        }
    }
}

/// Once the builder is done, no run changes its state.
pub proof fn lemma_feed_done(s: BuilderModel, tags: Seq<TagModel>)
    requires
        s.done(),
    ensures
        feed(s, tags) == Ok::<_, ParseErrorModel>(s),
    decreases tags.len(),
{
    if tags.len() > 0 {
        lemma_feed_done(s, tags.drop_first());
    }
}

/// A run can be cut in two at any place: the first `k` tags lead to a state
/// from which the others lead where the whole run leads.
pub proof fn lemma_feed_split(s: BuilderModel, tags: Seq<TagModel>, k: int)
    requires
        0 <= k <= tags.len(),
        feed(s, tags) is Ok,
    ensures
        feed(s, tags.take(k)) is Ok,
        feed(feed(s, tags.take(k))->Ok_0, tags.skip(k)) == feed(s, tags),
        takes_all(s, tags) ==> takes_all(s, tags.take(k)) && takes_all(
            feed(s, tags.take(k))->Ok_0,
            tags.skip(k),
        ),
    decreases k,
{
    if k == 0 {
        assert(tags.skip(0) =~= tags);
    } else {
        let next = step(s, tags[0])->Ok_0;
        let rest = tags.drop_first();
        lemma_feed_split(next, rest, k - 1);
        assert(tags.take(k).drop_first() =~= rest.take(k - 1));
        assert(tags.skip(k) =~= rest.skip(k - 1));
    }
}

/// While every tag is taken, each opening tag adds one open element and
/// each closing tag removes one.
pub proof fn lemma_feed_depth(s: BuilderModel, tags: Seq<TagModel>)
    requires
        feed(s, tags) is Ok,
        takes_all(s, tags),
    ensures
        feed(s, tags)->Ok_0.stack.len() + count_kind(tags, TagKind::Close) == s.stack.len()
            + count_kind(tags, TagKind::Open),
    decreases tags.len(),
{
    if tags.len() > 0 {
        lemma_feed_depth(step(s, tags[0])->Ok_0, tags.drop_first());
    }
}

/// What a run does to the nodes.
///
/// It makes one node for each opening or self-closing tag, in the order of
/// the tags, with the name and the attributes of its tag; the node of a
/// self-closing tag has no children. A node that was there before stays the
/// same element, and stays wholly as it was unless it was open: only an open
/// element gets children, and no element is opened again.
pub proof fn lemma_feed_nodes(s: BuilderModel, tags: Seq<TagModel>)
    requires
        s.wf(),
        valid_tags(tags),
        feed(s, tags) is Ok,
        takes_all(s, tags),
    ensures
        ({
            let last = feed(s, tags)->Ok_0;
            let made = element_tags(tags);
            let base = s.nodes.len() as int;
            &&& last.wf()
            &&& last.nodes.len() == base + made.len()
            &&& forall|i: int|
                0 <= i < base ==> same_element(#[trigger] last.nodes[i], s.nodes[i])
            &&& forall|i: int| 0 <= i < base && !is_open(s, i) ==> #[trigger] last.nodes[i] == s.nodes[i]
            &&& forall|i: int| 0 <= i < base && #[trigger] is_open(last, i) ==> is_open(s, i)
            &&& forall|i: int|
                0 <= i < made.len() ==> {
                    &&& last.nodes[base + i].tag == (#[trigger] made[i]).name
                    &&& last.nodes[base + i].attributes == made[i].attributes
                    &&& made[i].kind is SelfClosing ==> last.nodes[base + i].children.len() == 0
                }
        }),
    decreases tags.len(),
{
    let base = s.nodes.len() as int;
    if tags.len() > 0 {
        let tag = tags[0];
        let rest = tags.drop_first();
        let next = step(s, tag)->Ok_0;
        let last = feed(s, tags)->Ok_0;
        let made = element_tags(tags);
        lemma_valid_parts(tags, 1);
        lemma_step_wf(s, tag);
        lemma_feed_nodes(next, rest);
        if tag.kind is Close {
            // The stack of `next` is that of `s` without its top.
            assert forall|i: int| 0 <= i < base && is_open(next, i) implies is_open(s, i) by {}
        } else {
            // The new node stands at `base`; it is open in `next` only if
            // its tag is an opening one, and no other node has been opened.
            lemma_with_node_wf(s, tag);
            assert forall|i: int| 0 <= i <= base && is_open(next, i) implies (if i < base {
                is_open(s, i)
            } else {
                tag.kind is Open
            }) by {}
            assert forall|i: int| 0 <= i < base && !is_open(s, i) implies next.nodes[i]
                == s.nodes[i] by {}
            assert forall|i: int| 0 <= i < base implies same_element(
                #[trigger] last.nodes[i],
                s.nodes[i],
            ) by {}
            assert forall|i: int| 0 <= i < made.len() implies {
                &&& last.nodes[base + i].tag == (#[trigger] made[i]).name
                &&& last.nodes[base + i].attributes == made[i].attributes
                &&& made[i].kind is SelfClosing ==> last.nodes[base + i].children.len() == 0
            } by {}
        }
    }
}

/// A run from the first tag to the closing tag of the root has as many
/// opening tags as closing ones, and its stack, which is empty at the end,
/// is not empty at any place between the first tag and the end.
pub proof fn lemma_balanced_run(tags: Seq<TagModel>)
    requires
        valid_tags(tags),
        feed(BuilderModel::empty(), tags) matches Ok(last) && last.done(),
        takes_all(BuilderModel::empty(), tags),
    ensures
        count_kind(tags, TagKind::Open) == count_kind(tags, TagKind::Close),
        feed(BuilderModel::empty(), tags)->Ok_0.stack.len() == 0,
        forall|k: int|
            0 < k < tags.len() ==> ((#[trigger] feed(BuilderModel::empty(), tags.take(k))) matches Ok(
                mid,
            ) && mid.stack.len() > 0),
{
    let start = BuilderModel::empty();
    lemma_feed_depth(start, tags);
    assert forall|k: int| 0 < k < tags.len() implies ((#[trigger] feed(start, tags.take(k))) matches Ok(
        mid,
    ) && mid.stack.len() > 0) by {
        lemma_feed_split(start, tags, k);
        lemma_valid_parts(tags, k);
        lemma_feed_nodes(start, tags.take(k));
    }
}

/// The nodes of a run stand in the order of their tags: the node at `i` has
/// the name and the attributes of the `i`th opening or self-closing tag, and
/// no children when that tag is self-closing; and the children of every node
/// are listed in that same order.
pub proof fn lemma_nodes_follow_tags(tags: Seq<TagModel>)
    requires
        valid_tags(tags),
        feed(BuilderModel::empty(), tags) is Ok,
        takes_all(BuilderModel::empty(), tags),
    ensures
        ({
            let nodes = feed(BuilderModel::empty(), tags)->Ok_0.nodes;
            let made = element_tags(tags);
            &&& nodes.len() == made.len()
            &&& tree_wf(nodes)
            &&& forall|i: int|
                0 <= i < nodes.len() ==> {
                    &&& (#[trigger] nodes[i]).tag == made[i].name
                    &&& nodes[i].attributes == made[i].attributes
                    &&& made[i].kind is SelfClosing ==> nodes[i].children.len() == 0
                }
            &&& forall|i: int, j: int, k: int|
                0 <= i < nodes.len() && 0 <= j < k < nodes[i].children.len() ==> #[trigger] nodes[i].children[j]
                    < #[trigger] nodes[i].children[k]
        }),
{
    lemma_feed_nodes(BuilderModel::empty(), tags);
    let nodes = feed(BuilderModel::empty(), tags)->Ok_0.nodes;
    let made = element_tags(tags);
    assert forall|i: int| 0 <= i < nodes.len() implies {
        &&& (#[trigger] nodes[i]).tag == made[i].name
        &&& nodes[i].attributes == made[i].attributes
        &&& made[i].kind is SelfClosing ==> nodes[i].children.len() == 0
    } by {}
    assert forall|i: int, j: int, k: int|
        0 <= i < nodes.len() && 0 <= j < k < nodes[i].children.len() implies #[trigger] nodes[i].children[j]
            < #[trigger] nodes[i].children[k] by {
        assert(node_wf(nodes, i));
    }
}

/// The parent of a node is the element that was innermost among the open
/// ones when the tag of the node arrived: if the `k`th tag makes a node, the
/// parent of that node at the end of the run is the top of the stack that
/// the first `k` tags left.
pub proof fn lemma_parent_is_top_at_creation(tags: Seq<TagModel>, k: int)
    requires
        valid_tags(tags),
        feed(BuilderModel::empty(), tags) is Ok,
        takes_all(BuilderModel::empty(), tags),
        0 <= k < tags.len(),
        tags[k].kind !is Close,
    ensures
        ({
            let before = feed(BuilderModel::empty(), tags.take(k));
            let last = feed(BuilderModel::empty(), tags)->Ok_0;
            &&& before is Ok
            &&& before->Ok_0.nodes.len() < last.nodes.len()
            &&& last.nodes[before->Ok_0.nodes.len() as int].parent == before->Ok_0.top()
        }),
{
    // The first `k` tags lead to `s`, the `k`th tag makes the node, and the
    // tags behind it leave the node the element that it is.
    let start = BuilderModel::empty();
    let tail = tags.skip(k);
    lemma_feed_split(start, tags, k);
    lemma_valid_parts(tags, k);
    lemma_feed_wf(start, tags.take(k));
    let s = feed(start, tags.take(k))->Ok_0;
    let next = step(s, tail[0])->Ok_0;
    lemma_valid_parts(tail, 1);
    lemma_step_wf(s, tail[0]);
    lemma_with_node_wf(s, tail[0]);
    lemma_feed_nodes(next, tail.drop_first());
}

/// Builds the tree of a sequence of tags.
///
/// Hands the tags to a builder one after the other and ends the text behind
/// the last: gives the tree, or the first failure.
pub fn build_tree(tags: Vec<Tag>) -> (tree: Result<XmlTree, ParseError>)
    requires
        valid_tags(tags_of(tags@)),
    ensures
        match tree {
            Ok(t) => build_spec(tags_of(tags@)) == Ok::<_, ParseErrorModel>(t@) && t.wf(),
            Err(e) => build_spec(tags_of(tags@)) == Err::<Seq<NodeModel>, _>(e@),
        },
{
    let mut builder = TreeBuilder::new();
    let ghost all = tags_of(tags@);
    assert(all.skip(0) =~= all);
    for tag in it: tags
        invariant
            it.seq() == tags@,
            all == tags_of(tags@),
            valid_tags(all),
            builder@.wf(),
            feed(BuilderModel::empty(), all) == feed(builder@, all.skip(it.index())),
    {
        assert(all.skip(it.index()).drop_first() =~= all.skip(it.index() + 1));
        match builder.push_tag(tag) {
            Err(e) => {
                return Err(e);
            },
            Ok(_) => {},
        }
    }
    builder.finish()
}

} // verus!
