//! Numbering the nodes of a tree and the widgets of a native tree, and
//! looking them up by number.
//!
//! The root is 0, and every node or widget takes the next number before
//! those below it do. In a native tree only containers are descended
//! into, so a widget together with the decoration it wraps takes one
//! number, as the node it was built from does.
use std::collections::HashMap;
use std::collections::HashSet;
use vstd::prelude::*;
use vstd::std_specs::hash::group_hash_axioms;
use crate::native::{
    is_container, lemma_held_is_smaller, lemma_native_count_prefix, lemma_native_count_step,
    lemma_native_view, native_count, native_count_all, natives_view, NativeView, NativeWidget,
};
use crate::node::{
    count, count_all, lemma_child_is_smaller, lemma_count_all_prefix, lemma_count_all_step,
    lemma_element_view, nodes_view, Node, NodeView,
};
use crate::patch::{patches_view, target, Patch, PatchView};

verus! {

/// The way from a widget numbered `at` to the widget numbered `idx` below
/// it: the position to take among the held widgets at each step. `None`
/// where the tree has no widget of that number.
pub open spec fn locate(widget: NativeView, at: nat, idx: nat) -> Option<Seq<int>>
    decreases widget, 0int,
{
    if idx == at {
        Some(Seq::empty())
    } else if is_container(widget.control) {
        locate_in(widget.children, widget.children.len() as int, at + 1, idx)
    } else {
        None
    }
}

/// The way to the widget numbered `idx` through the first `n` widgets of
/// a list, the first of which is numbered `first`.
pub open spec fn locate_in(widgets: Seq<NativeView>, n: int, first: nat, idx: nat) -> Option<
    Seq<int>,
>
    decreases widgets, n,
{
    if n <= 0 || n > widgets.len() {
        None
    } else {
        match locate_in(widgets, n - 1, first, idx) {
            Some(path) => Some(path),
            None => match locate(
                widgets[n - 1],
                first + native_count_all(widgets.take(n - 1)),
                idx,
            ) {
                Some(path) => Some(seq![n - 1] + path),
                None => None,
            },
        }
    }
}

/// The widget at the end of a way down from `widget`.
pub open spec fn widget_at(widget: NativeView, path: Seq<int>) -> NativeView
    decreases path.len(),
{
    if path.len() == 0 {
        widget
    } else {
        widget_at(widget.children[path[0]], path.drop_first())
    }
}

/// Whether a way down from `widget` leads through widgets it holds.
pub open spec fn is_way(widget: NativeView, path: Seq<int>) -> bool
    decreases path.len(),
{
    path.len() == 0 || (0 <= path[0] < widget.children.len() && is_way(
        widget.children[path[0]],
        path.drop_first(),
    ))
}

/// The way to a widget of a tree leads through widgets the tree holds.
pub proof fn lemma_locate_is_way(widget: NativeView, at: nat, idx: nat)
    ensures
        locate(widget, at, idx) is Some ==> is_way(widget, locate(widget, at, idx)->0),
    decreases widget, 0int,
{
    if idx != at && is_container(widget.control) {
        lemma_locate_in_is_way(widget.children, widget.children.len() as int, at + 1, idx);
    }
}

/// The way to a widget through a list of trees starts with one of them
/// and leads on through widgets it holds.
pub proof fn lemma_locate_in_is_way(widgets: Seq<NativeView>, n: int, first: nat, idx: nat)
    requires
        0 <= n <= widgets.len(),
    ensures
        match locate_in(widgets, n, first, idx) {
            Some(path) => path.len() > 0 && 0 <= path[0] < n && is_way(
                widgets[path[0]],
                path.drop_first(),
            ),
            None => true,
        },
    decreases widgets, n,
{
    if n > 0 {
        lemma_locate_in_is_way(widgets, n - 1, first, idx);
        let here = first + native_count_all(widgets.take(n - 1));
        lemma_locate_is_way(widgets[n - 1], here, idx);
        if locate_in(widgets, n - 1, first, idx) is None {
            match locate(widgets[n - 1], here, idx) {
                Some(rest) => {
                    let path = seq![n - 1] + rest;
                    assert(path.drop_first() =~= rest);
                },
                None => {},
            }
        }
    }
}

/// The node numbered `idx` in a tree numbered from `at`: the root is `at`
/// and every node takes the next number before its children do.
pub open spec fn node_at(node: NodeView, at: nat, idx: nat) -> Option<NodeView>
    decreases node, 0int,
{
    if idx == at {
        Some(node)
    } else {
        match node {
            NodeView::Element { children, .. } => node_at_in(
                children,
                children.len() as int,
                at + 1,
                idx,
            ),
            NodeView::Text(_) => None,
        }
    }
}

/// The node numbered `idx` among the first `n` trees of a list, the first
/// of which is numbered from `first`.
pub open spec fn node_at_in(nodes: Seq<NodeView>, n: int, first: nat, idx: nat) -> Option<NodeView>
    decreases nodes, n,
{
    if n <= 0 || n > nodes.len() {
        None
    } else {
        match node_at_in(nodes, n - 1, first, idx) {
            Some(found) => Some(found),
            None => node_at(nodes[n - 1], first + count_all(nodes.take(n - 1)), idx),
        }
    }
}

/// The widget numbered `idx` in a native tree numbered from `at`.
pub open spec fn native_at(widget: NativeView, at: nat, idx: nat) -> Option<NativeView> {
    match locate(widget, at, idx) {
        Some(path) => Some(widget_at(widget, path)),
        None => None,
    }
}

/// A tree numbered from `at` holds exactly the numbers from `at` up to,
/// and without, `at` plus its count.
pub proof fn lemma_locate_range(widget: NativeView, at: nat, idx: nat)
    ensures
        locate(widget, at, idx) is Some <==> at <= idx < at + native_count(widget),
    decreases widget, 0int,
{
    if idx != at && is_container(widget.control) {
        lemma_locate_in_range(widget.children, widget.children.len() as int, at + 1, idx);
        assert(widget.children.take(widget.children.len() as int) == widget.children);
    }
}

/// The first `n` trees of a list, numbered from `first`, hold exactly the
/// numbers from `first` up to, and without, `first` plus their count.
pub proof fn lemma_locate_in_range(widgets: Seq<NativeView>, n: int, first: nat, idx: nat)
    requires
        0 <= n <= widgets.len(),
    ensures
        locate_in(widgets, n, first, idx) is Some <==> first <= idx < first + native_count_all(
            widgets.take(n),
        ),
    decreases widgets, n,
{
    if n == 0 {
        assert(widgets.take(0) =~= Seq::<NativeView>::empty());
    } else {
        lemma_locate_in_range(widgets, n - 1, first, idx);
        lemma_native_count_step(widgets, n - 1);
        lemma_locate_range(widgets[n - 1], first + native_count_all(widgets.take(n - 1)), idx);
    }
}

/// Model of a way down a tree.
pub open spec fn path_view(path: Seq<usize>) -> Seq<int> {
    path.map_values(|p: usize| p as int)
}

/// Whether some patch of a batch targets number `idx`.
pub open spec fn is_target(patches: Seq<PatchView>, idx: nat) -> bool {
    exists|k: int| 0 <= k < patches.len() && target(#[trigger] patches[k]) == idx
}

/// Model of an optional node.
pub open spec fn node_opt_view(node: Option<&Node>) -> Option<NodeView> {
    match node {
        Some(n) => Some(n@),
        None => None,
    }
}

/// Looks for the node numbered `idx` in the tree rooted in `node`,
/// numbered `at`, and returns it with the number that follows the tree.
fn find_node_from<'a>(node: &'a Node, at: usize, idx: usize) -> (r: (Option<&'a Node>, usize))
    requires
        at + count(node@) <= usize::MAX,
    ensures
        node_opt_view(r.0) == node_at(node@, at as nat, idx as nat),
        r.1 == at + count(node@),
    decreases *node,
{
    match node {
        Node::Text(_) => {
            if idx == at {
                (Some(node), at + 1)
            } else {
                (None, at + 1)
            }
        },
        Node::Element(e) => {
            proof {
                lemma_element_view(*e);
            }
            let ghost kids = nodes_view(e.children@);
            let mut found: Option<&'a Node> = if idx == at {
                Some(node)
            } else {
                None
            };
            let mut cur: usize = at + 1;
            let mut i: usize = 0;
            proof {
                assert(kids.take(0) =~= Seq::<NodeView>::empty());
            }
            while i < e.children.len()
                invariant
                    i <= e.children.len(),
                    *node == Node::Element(*e),
                    kids == nodes_view(e.children@),
                    at + 1 + count_all(kids) <= usize::MAX,
                    cur == at + 1 + count_all(kids.take(i as int)),
                    idx == at ==> found == Some(node),
                    idx != at ==> node_opt_view(found) == node_at_in(
                        kids,
                        i as int,
                        (at + 1) as nat,
                        idx as nat,
                    ),
                decreases e.children.len() - i,
            {
                proof {
                    lemma_count_all_step(kids, i as int);
                    lemma_count_all_prefix(kids, i + 1);
                    lemma_child_is_smaller(*node, i as int);
                    assert(kids[i as int] == e.children@[i as int]@);
                }
                let (below, next) = find_node_from(&e.children[i], cur, idx);
                if found.is_none() {
                    found = below;
                }
                cur = next;
                i += 1;
            }
            proof {
                assert(kids.take(i as int) == kids);
            }
            (found, cur)
        },
    }
}

/// The node numbered `idx` in a tree, `None` where the tree has no node
/// of that number.
pub fn find_node(tree: &Node, idx: usize) -> (r: Option<&Node>)
    requires
        count(tree@) <= usize::MAX,
    ensures
        node_opt_view(r) == node_at(tree@, 0, idx as nat),
{
    find_node_from(tree, 0, idx).0
}

/// Model of an optional native widget.
pub open spec fn widget_opt_view(widget: Option<&NativeWidget>) -> Option<NativeView> {
    match widget {
        Some(w) => Some(w@),
        None => None,
    }
}

/// The widget at the end of a way down from `root`, `None` where the way
/// leaves the tree.
pub fn follow<'a>(root: &'a NativeWidget, path: &Vec<usize>) -> (r: Option<&'a NativeWidget>)
    ensures
        widget_opt_view(r) == if is_way(root@, path_view(path@)) {
            Some(widget_at(root@, path_view(path@)))
        } else {
            None
        },
{
    let ghost way = path_view(path@);
    let mut cur: &'a NativeWidget = root;
    let mut i: usize = 0;
    proof {
        assert(way.skip(0) =~= way);
    }
    while i < path.len()
        invariant
            i <= path.len(),
            way == path_view(path@),
            is_way(root@, way) == is_way(cur@, way.skip(i as int)),
            widget_at(root@, way) == widget_at(cur@, way.skip(i as int)),
        decreases path.len() - i,
    {
        proof {
            lemma_native_view(*cur);
            assert(way.skip(i as int)[0] == path@[i as int] as int);
            assert(way.skip(i as int).drop_first() =~= way.skip(i + 1));
        }
        if path[i] >= cur.children.len() {
            return None;
        }
        cur = &cur.children[path[i]];
        i += 1;
    }
    Some(cur)
}

/// A copy of a way down a tree.
fn copy_path(path: &Vec<usize>) -> (r: Vec<usize>)
    ensures
        r@ == path@,
{
    let mut out: Vec<usize> = Vec::new();
    let mut i: usize = 0;
    while i < path.len()
        invariant
            i <= path.len(),
            out@ == path@.take(i as int),
        decreases path.len() - i,
    {
        out.push(path[i]);
        i += 1;
        assert(path@.take(i as int) == path@.take(i - 1).push(path@[i - 1]));
    }
    assert(path@.take(path.len() as int) == path@);
    out
}

/// Records in `found`, for each wanted number in the tree rooted in
/// `widget`, numbered `at`, the way to the widget of that number: the way
/// to `widget`, which `path` holds, and on from there. Returns the number
/// that follows the tree.
fn find_nodes_recursive(
    widget: &NativeWidget,
    at: usize,
    path: &mut Vec<usize>,
    wanted: &HashSet<usize>,
    found: &mut HashMap<usize, Vec<usize>>,
) -> (next: usize)
    requires
        at + native_count(widget@) <= usize::MAX,
        forall|idx: usize| old(found)@.contains_key(idx) ==> idx < at,
    ensures
        next == at + native_count(widget@),
        final(path)@ == old(path)@,
        forall|idx: usize| #[trigger]
            final(found)@.contains_key(idx) <==> (old(found)@.contains_key(idx) || (at <= idx < next
                && wanted@.contains(idx))),
        forall|idx: usize|
            old(found)@.contains_key(idx) ==> #[trigger] final(found)@[idx] == old(found)@[idx],
        forall|idx: usize|
            at <= idx < next && wanted@.contains(idx) ==> Some(
                path_view((#[trigger] final(found)@[idx])@),
            ) == suffixed(path_view(old(path)@), locate(widget@, at as nat, idx as nat)),
    decreases *widget,
{
    broadcast use group_hash_axioms;

    let ghost prefix = path_view(path@);
    proof {
        lemma_native_view(*widget);
    }
    if wanted.contains(&at) {
        let here = copy_path(path);
        found.insert(at, here);
        proof {
            assert(prefix + Seq::<int>::empty() =~= prefix);
        }
    }
    let mut cur: usize = at + 1;
    if widget.control.is_structural() {
        let ghost held = natives_view(widget.children@);
        let mut i: usize = 0;
        proof {
            assert(held.take(0) =~= Seq::<NativeView>::empty());
        }
        while i < widget.children.len()
            invariant
                i <= widget.children.len(),
                held == natives_view(widget.children@),
                widget@.children == held,
                is_container(widget@.control),
                at + 1 + native_count_all(held) <= usize::MAX,
                cur == at + 1 + native_count_all(held.take(i as int)),
                path@ == old(path)@,
                prefix == path_view(old(path)@),
                forall|idx: usize| old(found)@.contains_key(idx) ==> idx < at,
                forall|idx: usize| #[trigger]
                    found@.contains_key(idx) <==> (old(found)@.contains_key(idx) || (at <= idx < cur
                        && wanted@.contains(idx))),
                forall|idx: usize|
                    old(found)@.contains_key(idx) ==> #[trigger] found@[idx] == old(found)@[idx],
                wanted@.contains(at) ==> path_view(found@[at]@) == prefix,
                forall|idx: usize|
                    at < idx < cur && wanted@.contains(idx) ==> Some(
                        path_view((#[trigger] found@[idx])@),
                    ) == suffixed(prefix, locate_in(held, i as int, (at + 1) as nat, idx as nat)),
            decreases widget.children.len() - i,
        {
            proof {
                lemma_native_count_step(held, i as int);
                lemma_native_count_prefix(held, i + 1);
                lemma_held_is_smaller(*widget, i as int);
                assert(held[i as int] == widget.children@[i as int]@);
            }
            let ghost found_before = found@;
            let ghost start = cur;
            path.push(i);
            proof {
                assert(path_view(path@) =~= prefix + seq![i as int]);
            }
            cur = find_nodes_recursive(&widget.children[i], cur, path, wanted, found);
            path.pop();
            proof {
                assert(path@ =~= old(path)@);
                assert forall|idx: usize| at < idx < cur && wanted@.contains(idx) implies Some(
                    path_view((#[trigger] found@[idx])@),
                ) == suffixed(prefix, locate_in(held, i + 1, (at + 1) as nat, idx as nat)) by {
                    lemma_locate_in_range(held, i as int, (at + 1) as nat, idx as nat);
                    lemma_locate_range(held[i as int], start as nat, idx as nat);
                    if idx < start {
                        assert(found_before.contains_key(idx));
                    } else {
                        let tail = locate(held[i as int], start as nat, idx as nat)->0;
                        assert((prefix + seq![i as int]) + tail =~= prefix + (seq![i as int]
                            + tail));
                    }
                }
            }
            i += 1;
        }
        proof {
            assert(held.take(i as int) == held);
        }
    }
    cur
}

/// A way continued by a way on from its end, where there is one.
pub open spec fn suffixed(prefix: Seq<int>, rest: Option<Seq<int>>) -> Option<Seq<int>> {
    match rest {
        Some(tail) => Some(prefix + tail),
        None => None,
    }
}

/// For each number that a patch of the batch targets and the tree holds,
/// the way from the root to the widget of that number.
pub fn find_nodes(root: &NativeWidget, patches: &Vec<Patch>) -> (found: HashMap<usize, Vec<usize>>)
    requires
        native_count(root@) <= usize::MAX,
    ensures
        forall|idx: usize| #[trigger]
            found@.contains_key(idx) <==> idx < native_count(root@) && is_target(
                patches_view(patches@),
                idx as nat,
            ),
        forall|idx: usize|
            found@.contains_key(idx) ==> Some(path_view((#[trigger] found@[idx])@)) == locate(
                root@,
                0,
                idx as nat,
            ),
        forall|idx: usize|
            found@.contains_key(idx) ==> is_way(root@, path_view((#[trigger] found@[idx])@)),
{
    broadcast use group_hash_axioms;

    let ghost batch = patches_view(patches@);
    let mut wanted: HashSet<usize> = HashSet::new();
    let mut k: usize = 0;
    while k < patches.len()
        invariant
            k <= patches.len(),
            batch == patches_view(patches@),
            forall|idx: usize| #[trigger]
                wanted@.contains(idx) <==> is_target(batch.take(k as int), idx as nat),
        decreases patches.len() - k,
    {
        let idx = patches[k].node_idx();
        let ghost earlier = wanted@;
        wanted.insert(idx);
        proof {
            assert(batch[k as int] == patches@[k as int]@);
            assert forall|other: usize| #[trigger]
                wanted@.contains(other) <==> is_target(batch.take(k + 1), other as nat) by {
                if is_target(batch.take(k + 1), other as nat) {
                    let w = choose|w: int|
                        0 <= w < batch.take(k + 1).len() && target(#[trigger] batch.take(k + 1)[w])
                            == other;
                    if w < k {
                        assert(batch.take(k as int)[w] == batch.take(k + 1)[w]);
                    }
                }
                if earlier.contains(other) {
                    let w = choose|w: int|
                        0 <= w < batch.take(k as int).len() && target(
                            #[trigger] batch.take(k as int)[w],
                        ) == other;
                    assert(batch.take(k + 1)[w] == batch.take(k as int)[w]);
                }
                if other == idx {
                    assert(batch.take(k + 1)[k as int] == batch[k as int]);
                }
            }
        }
        k += 1;
    }
    proof {
        assert(batch.take(k as int) == batch);
    }
    let mut found: HashMap<usize, Vec<usize>> = HashMap::new();
    let mut path: Vec<usize> = Vec::new();
    let _ = find_nodes_recursive(root, 0, &mut path, &wanted, &mut found);
    proof {
        assert(path_view(Seq::<usize>::empty()) =~= Seq::<int>::empty());
        assert forall|idx: usize| found@.contains_key(idx) implies Some(
            path_view((#[trigger] found@[idx])@),
        ) == locate(root@, 0, idx as nat) by {
            lemma_locate_range(root@, 0, idx as nat);
            let tail = locate(root@, 0, idx as nat)->0;
            assert(Seq::<int>::empty() + tail =~= tail);
        }
        assert forall|idx: usize| found@.contains_key(idx) implies is_way(
            root@,
            path_view((#[trigger] found@[idx])@),
        ) by {
            lemma_locate_is_way(root@, 0, idx as nat);
        }
    }
    found
}

} // verus!
