//! The virtual tree and the native tree built from it agree on numbers.
use vstd::prelude::*;
use crate::factory::{built, built_all, control_for, wrapped};
use crate::index::{locate, locate_in, native_at, node_at, node_at_in, widget_at};
use crate::native::{
    is_container, lemma_native_count_step, native_count, native_count_all, NativeView,
};
use crate::node::{count, count_all, lemma_count_all_step, NodeView};
use crate::value::AttributeView;
use crate::widget::{is_container_tag, WidgetView};

verus! {

/// The widget a node is built into, where there is a node.
pub open spec fn built_from(node: Option<NodeView>) -> Option<NativeView> {
    match node {
        Some(n) => built(n),
        None => None,
    }
}

/// The control of a kind that is no container is no container.
pub proof fn lemma_leaf_control(tag: WidgetView, attrs: Seq<AttributeView>)
    requires
        !is_container_tag(tag),
        control_for(tag, attrs) is Some,
    ensures
        !is_container(control_for(tag, attrs)->0),
        !is_container(wrapped(tag, control_for(tag, attrs)->0).control),
{
}

/// The control of a container kind is a container.
pub proof fn lemma_container_control(tag: WidgetView, attrs: Seq<AttributeView>)
    requires
        is_container_tag(tag),
    ensures
        control_for(tag, attrs) is Some,
        is_container(control_for(tag, attrs)->0),
{
}

/// A list that is built is built node by node.
pub proof fn lemma_built_all_each(nodes: Seq<NodeView>, i: int)
    requires
        built_all(nodes) is Some,
        0 <= i < nodes.len(),
    ensures
        built_all(nodes)->0.len() == nodes.len(),
        built(nodes[i]) == Some(built_all(nodes)->0[i]),
    decreases nodes.len(),
{
    lemma_built_all_len(nodes);
    if i < nodes.len() - 1 {
        lemma_built_all_each(nodes.drop_last(), i);
        assert(nodes.drop_last()[i] == nodes[i]);
    }
}

/// A list that is built is built into as many widgets as it has nodes.
pub proof fn lemma_built_all_len(nodes: Seq<NodeView>)
    requires
        built_all(nodes) is Some,
    ensures
        built_all(nodes)->0.len() == nodes.len(),
    decreases nodes.len(),
{
    if nodes.len() > 0 {
        lemma_built_all_len(nodes.drop_last());
    }
}

/// A way that starts with a step into a held widget leads where the rest
/// of the way leads from that widget.
pub proof fn lemma_widget_at_step(widget: NativeView, i: int, rest: Seq<int>)
    ensures
        widget_at(widget, seq![i] + rest) == widget_at(widget.children[i], rest),
{
    let path = seq![i] + rest;
    assert(path.drop_first() =~= rest);
}

/// A tree that is built has as many numbered widgets as the tree it is
/// built from has nodes, and the widget of each number is the one built
/// from the node of that number.
pub proof fn lemma_index_agreement(tree: NodeView, at: nat, idx: nat)
    requires
        built(tree) is Some,
    ensures
        native_count(built(tree)->0) == count(tree),
        native_at(built(tree)->0, at, idx) is Some <==> node_at(tree, at, idx) is Some,
        native_at(built(tree)->0, at, idx) == built_from(node_at(tree, at, idx)),
    decreases tree, 0int,
{
    let w = built(tree)->0;
    match tree {
        NodeView::Text(_) => {},
        NodeView::Element { tag, attrs, children } => {
            if is_container_tag(tag) {
                lemma_container_control(tag, attrs);
                let held = built_all(children)->0;
                lemma_built_all_len(children);
                lemma_agreement_in(children, children.len() as int, at + 1, idx);
                assert(children.take(children.len() as int) == children);
                assert(held.take(held.len() as int) == held);
                if idx != at {
                    match locate_in(held, held.len() as int, at + 1, idx) {
                        Some(path) => {
                            assert(path =~= seq![path[0]] + path.drop_first());
                            lemma_widget_at_step(w, path[0], path.drop_first());
                        },
                        None => {},
                    }
                }
            } else {
                lemma_leaf_control(tag, attrs);
            }
        },
    }
}

/// The first `n` trees of a list that is built agree with their widgets
/// on count and on numbers.
pub proof fn lemma_agreement_in(nodes: Seq<NodeView>, n: int, first: nat, idx: nat)
    requires
        built_all(nodes) is Some,
        0 <= n <= nodes.len(),
    ensures
        built_all(nodes)->0.len() == nodes.len(),
        native_count_all(built_all(nodes)->0.take(n)) == count_all(nodes.take(n)),
        match locate_in(built_all(nodes)->0, n, first, idx) {
            Some(path) => path.len() > 0 && 0 <= path[0] < n && Some(
                widget_at(built_all(nodes)->0[path[0]], path.drop_first()),
            ) == built_from(node_at_in(nodes, n, first, idx)),
            None => node_at_in(nodes, n, first, idx) is None,
        },
    decreases nodes, n,
{
    let held = built_all(nodes)->0;
    lemma_built_all_len(nodes);
    if n == 0 {
        assert(held.take(0) =~= Seq::<NativeView>::empty());
        assert(nodes.take(0) =~= Seq::<NodeView>::empty());
    } else {
        let i = n - 1;
        lemma_agreement_in(nodes, i, first, idx);
        lemma_built_all_each(nodes, i);
        lemma_native_count_step(held, i);
        lemma_count_all_step(nodes, i);
        let here = first + count_all(nodes.take(i));
        lemma_index_agreement(nodes[i], here, idx);
        match locate_in(held, i, first, idx) {
            Some(_) => {},
            None => {
                match locate(held[i], here, idx) {
                    Some(rest) => {
                        let path = seq![i] + rest;
                        assert(path.drop_first() =~= rest);
                    },
                    None => {},
                }
            },
        }
    }
}

} // verus!
