//! Edit instructions against a tree whose nodes are numbered in pre-order.
use vstd::prelude::*;
use crate::node::{node_view, nodes_view, Node, NodeView};
use crate::value::{attrs_view, AttribKey, Attribute, AttributeView};
use crate::widget::{Widget, WidgetView};

verus! {

/// One edit. Every edit names the node it targets by that node's pre-order
/// number in the tree the edits were computed against, and all but
/// `Replace` carry the widget kind of that node.
#[derive(Debug, PartialEq)]
pub enum Patch {
    /// Set each of these attributes on the target.
    AddAttributes(Widget, usize, Vec<Attribute>),
    /// Clear each of these keys on the target.
    RemoveAttributes(Widget, usize, Vec<AttribKey>),
    /// Build these nodes and append them, in order, to the target's children.
    AppendChildren(Widget, usize, Vec<Node>),
    /// Keep this many of the target's children and drop the rest.
    TruncateChildren(Widget, usize, usize),
    /// Put the widget built from this node in the target's place.
    Replace(usize, Node),
}

/// Mathematical model of a [`Patch`].
pub enum PatchView {
    AddAttributes(WidgetView, nat, Seq<AttributeView>),
    RemoveAttributes(WidgetView, nat, Seq<AttribKey>),
    AppendChildren(WidgetView, nat, Seq<NodeView>),
    TruncateChildren(WidgetView, nat, nat),
    Replace(nat, NodeView),
}

impl View for Patch {
    type V = PatchView;

    open spec fn view(&self) -> PatchView {
        match self {
            Patch::AddAttributes(tag, idx, attrs) => PatchView::AddAttributes(
                tag@,
                *idx as nat,
                attrs_view(attrs@),
            ),
            Patch::RemoveAttributes(tag, idx, keys) => PatchView::RemoveAttributes(
                tag@,
                *idx as nat,
                keys@,
            ),
            Patch::AppendChildren(tag, idx, nodes) => PatchView::AppendChildren(
                tag@,
                *idx as nat,
                nodes_view(nodes@),
            ),
            Patch::TruncateChildren(tag, idx, keep) => PatchView::TruncateChildren(
                tag@,
                *idx as nat,
                *keep as nat,
            ),
            Patch::Replace(idx, node) => PatchView::Replace(*idx as nat, node_view(*node)),
        }
    }
}

/// Model of a patch list.
pub open spec fn patches_view(patches: Seq<Patch>) -> Seq<PatchView> {
    Seq::new(patches.len(), |i: int| patches[i]@)
}

/// The pre-order number of the node a patch targets.
pub open spec fn target(patch: PatchView) -> nat {
    match patch {
        PatchView::AddAttributes(_, idx, _) => idx,
        PatchView::RemoveAttributes(_, idx, _) => idx,
        PatchView::AppendChildren(_, idx, _) => idx,
        PatchView::TruncateChildren(_, idx, _) => idx,
        PatchView::Replace(idx, _) => idx,
    }
}

impl Patch {
    /// The pre-order number of the node this patch targets.
    pub fn node_idx(&self) -> (r: usize)
        ensures
            r == target(self@),
    {
        match self {
            Patch::AddAttributes(_, idx, _) => *idx,
            Patch::RemoveAttributes(_, idx, _) => *idx,
            Patch::AppendChildren(_, idx, _) => *idx,
            Patch::TruncateChildren(_, idx, _) => *idx,
            Patch::Replace(idx, _) => *idx,
        }
    }

    /// The widget kind this patch carries; `Replace` carries none.
    pub fn tag(&self) -> (r: Option<&Widget>)
        ensures
            match self@ {
                PatchView::AddAttributes(t, _, _) => r is Some && r->0@ == t,
                PatchView::RemoveAttributes(t, _, _) => r is Some && r->0@ == t,
                PatchView::AppendChildren(t, _, _) => r is Some && r->0@ == t,
                PatchView::TruncateChildren(t, _, _) => r is Some && r->0@ == t,
                PatchView::Replace(_, _) => r is None,
            },
    {
        match self {
            Patch::AddAttributes(tag, _, _) => Some(tag),
            Patch::RemoveAttributes(tag, _, _) => Some(tag),
            Patch::AppendChildren(tag, _, _) => Some(tag),
            Patch::TruncateChildren(tag, _, _) => Some(tag),
            Patch::Replace(_, _) => None,
        }
    }
}

} // verus!
