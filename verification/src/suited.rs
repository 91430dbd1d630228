//! Every patch of a diff can be applied to the widgets of the old tree.
use vstd::prelude::*;
use crate::agreement::lemma_index_agreement;
use crate::apply::{admitted, passes};
use crate::attrs::suits;
use crate::diff::{
    attr_patches, diff_at, diff_children, diff_spec, editable, partner, shape_patches,
};
use crate::factory::built;
use crate::index::{node_at, node_at_in};
use crate::native::NativeView;
use crate::node::{count, count_all, lemma_count_all_step, NodeView};
use crate::patch::{target, PatchView};
use crate::value::AttributeView;
use crate::widget::WidgetView;

verus! {

/// A tree numbered from `at` holds exactly the numbers from `at` up to,
/// and without, `at` plus the number of its nodes.
pub proof fn lemma_node_at_range(node: NodeView, at: nat, idx: nat)
    ensures
        node_at(node, at, idx) is Some <==> at <= idx < at + count(node),
    decreases node, 0int,
{
    if idx != at {
        match node {
            NodeView::Element { children, .. } => {
                lemma_node_at_in_range(children, children.len() as int, at + 1, idx);
                assert(children.take(children.len() as int) == children);
            },
            NodeView::Text(_) => {},
        }
    }
}

/// The first `n` trees of a list, numbered from `first`, hold exactly
/// the numbers from `first` up to, and without, `first` plus the number
/// of their nodes.
pub proof fn lemma_node_at_in_range(nodes: Seq<NodeView>, n: int, first: nat, idx: nat)
    requires
        0 <= n <= nodes.len(),
    ensures
        node_at_in(nodes, n, first, idx) is Some <==> first <= idx < first + count_all(
            nodes.take(n),
        ),
    decreases nodes, n,
{
    if n == 0 {
        assert(nodes.take(0) =~= Seq::<NodeView>::empty());
    } else {
        lemma_node_at_in_range(nodes, n - 1, first, idx);
        lemma_count_all_step(nodes, n - 1);
        lemma_node_at_range(nodes[n - 1], first + count_all(nodes.take(n - 1)), idx);
    }
}

/// A node that one tree of a list holds is the node of its number in the
/// list.
pub proof fn lemma_node_at_in_child(nodes: Seq<NodeView>, n: int, first: nat, i: int, idx: nat)
    requires
        0 <= i < n <= nodes.len(),
        node_at(nodes[i], first + count_all(nodes.take(i)), idx) is Some,
    ensures
        node_at_in(nodes, n, first, idx) == node_at(
            nodes[i],
            first + count_all(nodes.take(i)),
            idx,
        ),
    decreases n,
{
    if n - 1 > i {
        lemma_node_at_in_child(nodes, n - 1, first, i, idx);
    } else {
        lemma_node_at_in_range(nodes, i, first, idx);
        lemma_node_at_range(nodes[i], first + count_all(nodes.take(i)), idx);
    }
}

/// Whether a patch names a node of a tree numbered from `at`: the tree
/// has a node of the number the patch targets, and a patch that sets or
/// clears attributes carries the kind of that node.
pub open spec fn names_node(tree: NodeView, at: nat, patch: PatchView) -> bool {
    match node_at(tree, at, target(patch)) {
        Some(node) => match patch {
            PatchView::AddAttributes(tag, _, _) => node is Element && node->tag == tag,
            PatchView::RemoveAttributes(tag, _, _) => node is Element && node->tag == tag,
            _ => true,
        },
        None => false,
    }
}

/// Whether every patch of a list names a node of a tree.
pub open spec fn all_name(tree: NodeView, at: nat, patches: Seq<PatchView>) -> bool {
    forall|k: int| 0 <= k < patches.len() ==> names_node(tree, at, #[trigger] patches[k])
}

/// Every patch of a diff names a node of the old tree.
pub proof fn lemma_diff_names_at(old_node: NodeView, new_node: NodeView, idx: nat)
    ensures
        all_name(old_node, idx, diff_at(old_node, new_node, idx)),
    decreases old_node, 0int,
{
    match (old_node, new_node) {
        (
            NodeView::Element { tag: old_tag, attrs: old_attrs, children: olds },
            NodeView::Element { tag: new_tag, attrs: new_attrs, children: news },
        ) => {
            if old_tag == new_tag && editable(olds, news) {
                let a = attr_patches(old_tag, idx, old_attrs, new_attrs);
                let s = shape_patches(old_tag, idx, olds, news);
                let c = diff_children(olds, news, olds.len() as int, idx + 1);
                let d = diff_at(old_node, new_node, idx);
                lemma_diff_names_children(old_tag, old_attrs, olds, news, olds.len() as int, idx);
                assert(d == a + s + c);
                assert forall|k: int| 0 <= k < d.len() implies names_node(
                    old_node,
                    idx,
                    #[trigger] d[k],
                ) by {
                    if k < a.len() {
                        assert(d[k] == a[k]);
                    } else if k < a.len() + s.len() {
                        assert(d[k] == s[k - a.len()]);
                    } else {
                        assert(d[k] == c[k - a.len() - s.len()]);
                    }
                }
            }
        },
        _ => {},
    }
}

/// Every patch of the first `n` children of an element names a node of
/// the element.
pub proof fn lemma_diff_names_children(
    tag: WidgetView,
    attrs: Seq<AttributeView>,
    olds: Seq<NodeView>,
    news: Seq<NodeView>,
    n: int,
    idx: nat,
)
    requires
        0 <= n <= olds.len(),
    ensures
        all_name(
            NodeView::Element { tag, attrs, children: olds },
            idx,
            diff_children(olds, news, n, idx + 1),
        ),
    decreases olds, n,
{
    if n > 0 {
        let parent = NodeView::Element { tag, attrs, children: olds };
        let i = n - 1;
        let here = idx + 1 + count_all(olds.take(i));
        lemma_diff_names_children(tag, attrs, olds, news, i, idx);
        let before = diff_children(olds, news, i, idx + 1);
        let d = diff_children(olds, news, n, idx + 1);
        match partner(olds, news, i) {
            Some(j) => {
                let last = diff_at(olds[i], news[j], here);
                lemma_diff_names_at(olds[i], news[j], here);
                assert(d == before + last);
                assert forall|k: int| 0 <= k < d.len() implies names_node(
                    parent,
                    idx,
                    #[trigger] d[k],
                ) by {
                    if k < before.len() {
                        assert(d[k] == before[k]);
                    } else {
                        let p = last[k - before.len()];
                        assert(d[k] == p);
                        assert(names_node(olds[i], here, p));
                        lemma_node_at_range(olds[i], here, target(p));
                        lemma_node_at_in_child(
                            olds,
                            olds.len() as int,
                            (idx + 1) as nat,
                            i,
                            target(p),
                        );
                    }
                }
            },
            None => {
                assert(d =~= before);
            },
        }
    }
}

/// The widgets built from an element are ones its kind sets attributes
/// on.
pub proof fn lemma_built_suits(node: NodeView)
    requires
        built(node) is Some,
        node is Element,
    ensures
        suits(node->tag, built(node)->0),
{
}

/// Every patch of a diff can be applied to the widgets built from the
/// old tree.
pub proof fn lemma_diff_passes(old_tree: NodeView, new_tree: NodeView)
    requires
        built(old_tree) is Some,
    ensures
        forall|k: int|
            0 <= k < diff_spec(old_tree, new_tree).len() ==> passes(
                built(old_tree)->0,
                #[trigger] diff_spec(old_tree, new_tree)[k],
            ),
{
    let d = diff_spec(old_tree, new_tree);
    lemma_diff_names_at(old_tree, new_tree, 0);
    assert forall|k: int| 0 <= k < d.len() implies passes(built(old_tree)->0, #[trigger] d[k]) by {
        let p = d[k];
        assert(names_node(old_tree, 0, p));
        lemma_index_agreement(old_tree, 0, target(p));
        let node = node_at(old_tree, 0, target(p))->0;
        if node is Element {
            lemma_built_suits(node);
        }
    }
}

/// Every patch of a batch is applied where every one can be.
pub proof fn lemma_all_admitted(patches: Seq<PatchView>, root: NativeView, n: int)
    requires
        0 <= n <= patches.len(),
        forall|k: int| 0 <= k < patches.len() ==> passes(root, #[trigger] patches[k]),
    ensures
        admitted(patches, root, n) == n,
    decreases n,
{
    if n > 0 {
        lemma_all_admitted(patches, root, n - 1);
    }
}

} // verus!
