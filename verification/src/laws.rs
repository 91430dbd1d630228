//! What holds of every diff, stated and proved over the models.
use vstd::prelude::*;
use crate::diff::{
    all_matched, attr_patches, diff_at, diff_children, diff_spec, editable, has_partner, in_place,
    is_changed, is_unset, kept, nth_with_key, occurrences, partner, rank, removed_keys,
    shape_patches, unmatched,
};
use crate::node::{count, count_all, key_of, lemma_count_all_step, NodeView};
use crate::patch::{target, PatchView};
use crate::value::{lookup, sets_key, AttribKey, AttributeView, ValueView};
use crate::widget::WidgetView;

verus! {

/// A filter that nothing passes leaves nothing.
pub proof fn lemma_filter_none<A>(s: Seq<A>, pred: spec_fn(A) -> bool)
    requires
        forall|i: int| 0 <= i < s.len() ==> !pred(#[trigger] s[i]),
    ensures
        s.filter(pred) == Seq::<A>::empty(),
    decreases s.len(),
{
    reveal(Seq::filter);
    if s.len() > 0 {
        assert forall|i: int| 0 <= i < s.drop_last().len() implies !pred(
            #[trigger] s.drop_last()[i],
        ) by {
            assert(s.drop_last()[i] == s[i]);
        }
        lemma_filter_none(s.drop_last(), pred);
    }
}

/// A key that an attribute of a list sets is set in the list.
pub proof fn lemma_lookup_present(attrs: Seq<AttributeView>, i: int)
    requires
        0 <= i < attrs.len(),
        sets_key(attrs[i]),
    ensures
        lookup(attrs, attrs[i].name) is Some,
    decreases attrs.len(),
{
    if i < attrs.len() - 1 {
        assert(attrs.drop_last()[i] == attrs[i]);
        lemma_lookup_present(attrs.drop_last(), i);
    }
}

/// A longer prefix holds no fewer nodes with a key.
pub proof fn lemma_occurrences_grow(nodes: Seq<NodeView>, key: Option<ValueView>, a: int, b: int)
    requires
        a <= b,
    ensures
        occurrences(nodes, key, a) <= occurrences(nodes, key, b),
    decreases b - a,
{
    if a < b {
        lemma_occurrences_grow(nodes, key, a, b - 1);
    }
}

/// A prefix holds at most as many nodes with a key as it holds nodes.
pub proof fn lemma_occurrences_bound(nodes: Seq<NodeView>, key: Option<ValueView>, n: int)
    requires
        0 <= n,
    ensures
        occurrences(nodes, key, n) <= n,
    decreases n,
{
    if n > 0 {
        lemma_occurrences_bound(nodes, key, n - 1);
    }
}

/// The node at position `i` is found by its key and its rank.
pub proof fn lemma_nth_found(nodes: Seq<NodeView>, i: int, n: int)
    requires
        0 <= i < n,
    ensures
        nth_with_key(nodes, key_of(nodes[i]), rank(nodes, i), n) == Some(i),
    decreases n,
{
    let key = key_of(nodes[i]);
    if n - 1 > i {
        lemma_occurrences_grow(nodes, key, i + 1, n - 1);
        lemma_nth_found(nodes, i, n - 1);
    }
}

/// What is found by key and rank carries the key, has the rank, and lies
/// within the prefix searched.
pub proof fn lemma_nth_is_sound(nodes: Seq<NodeView>, key: Option<ValueView>, r: nat, n: int)
    ensures
        match nth_with_key(nodes, key, r, n) {
            Some(j) => 0 <= j < n && key_of(nodes[j]) == key && occurrences(nodes, key, j) == r,
            None => true,
        },
    decreases n,
{
    if n > 0 {
        lemma_nth_is_sound(nodes, key, r, n - 1);
    }
}

/// No new child is left unmatched where every one has a partner.
pub proof fn lemma_unmatched_none(olds: Seq<NodeView>, news: Seq<NodeView>, n: int)
    requires
        0 <= n <= news.len(),
        forall|j: int| 0 <= j < n ==> has_partner(olds, news, j),
    ensures
        unmatched(olds, news, n) == Seq::<NodeView>::empty(),
    decreases n,
{
    if n > 0 {
        lemma_unmatched_none(olds, news, n - 1);
    }
}

/// Turning a list of attributes into itself sets and clears nothing.
pub proof fn lemma_attr_patches_same(tag: WidgetView, idx: nat, attrs: Seq<AttributeView>)
    ensures
        attr_patches(tag, idx, attrs, attrs) == Seq::<PatchView>::empty(),
{
    lemma_filter_none(attrs, is_changed(attrs, attrs));
    assert forall|i: int| 0 <= i < attrs.len() implies !is_unset(attrs)(#[trigger] attrs[i]) by {
        if sets_key(attrs[i]) {
            lemma_lookup_present(attrs, i);
        }
    }
    lemma_filter_none(attrs, is_unset(attrs));
    assert(removed_keys(attrs, attrs) =~= Seq::<AttribKey>::empty());
    assert(attr_patches(tag, idx, attrs, attrs) =~= Seq::<PatchView>::empty());
}

/// Every child of a list is its own partner in the list.
pub proof fn lemma_partner_same(nodes: Seq<NodeView>, i: int)
    requires
        0 <= i < nodes.len(),
    ensures
        partner(nodes, nodes, i) == Some(i),
        has_partner(nodes, nodes, i),
{
    lemma_nth_found(nodes, i, nodes.len() as int);
    lemma_occurrences_grow(nodes, key_of(nodes[i]), i + 1, nodes.len() as int);
}

/// Turning a list of children into itself changes their number by nothing.
pub proof fn lemma_shape_patches_same(tag: WidgetView, idx: nat, nodes: Seq<NodeView>)
    ensures
        shape_patches(tag, idx, nodes, nodes) == Seq::<PatchView>::empty(),
{
    assert forall|j: int| 0 <= j < nodes.len() implies has_partner(nodes, nodes, j) by {
        lemma_partner_same(nodes, j);
    }
    lemma_unmatched_none(nodes, nodes, nodes.len() as int);
    assert(shape_patches(tag, idx, nodes, nodes) =~= Seq::<PatchView>::empty());
}

/// The patches that turn a tree into itself are none, wherever the tree
/// is numbered from.
pub proof fn lemma_diff_same_at(tree: NodeView, idx: nat)
    ensures
        diff_at(tree, tree, idx) == Seq::<PatchView>::empty(),
    decreases tree, 0int,
{
    match tree {
        NodeView::Element { tag, attrs, children } => {
            assert forall|i: int| 0 <= i < children.len() implies (#[trigger] partner(
                children,
                children,
                i,
            )) is Some by {
                lemma_partner_same(children, i);
            }
            assert forall|j: int| 0 <= j < children.len() implies #[trigger] has_partner(
                children,
                children,
                j,
            ) by {
                lemma_partner_same(children, j);
            }
            assert(all_matched(children, children));
            reveal(editable);
            lemma_attr_patches_same(tag, idx, attrs);
            lemma_shape_patches_same(tag, idx, children);
            lemma_diff_children_same(children, children.len() as int, idx + 1);
            assert(diff_at(tree, tree, idx) =~= Seq::<PatchView>::empty());
        },
        NodeView::Text(_) => {},
    }
}

/// The children of a tree against themselves need no patches.
pub proof fn lemma_diff_children_same(nodes: Seq<NodeView>, n: int, first: nat)
    requires
        0 <= n <= nodes.len(),
    ensures
        diff_children(nodes, nodes, n, first) == Seq::<PatchView>::empty(),
    decreases nodes, n,
{
    if n > 0 {
        lemma_diff_children_same(nodes, n - 1, first);
        lemma_partner_same(nodes, n - 1);
        lemma_diff_same_at(nodes[n - 1], first + count_all(nodes.take(n - 1)));
        assert(diff_children(nodes, nodes, n, first) =~= Seq::<PatchView>::empty());
    }
}

/// Diffing a tree against itself gives no patch.
pub proof fn lemma_diff_same(tree: NodeView)
    ensures
        diff_spec(tree, tree) == Seq::<PatchView>::empty(),
{
    lemma_diff_same_at(tree, 0);
}

/// Whether every patch of a list targets a number from `low` up to, and
/// without, `high`.
pub open spec fn targets_within(patches: Seq<PatchView>, low: nat, high: nat) -> bool {
    forall|k: int| 0 <= k < patches.len() ==> low <= target(#[trigger] patches[k]) < high
}

/// Whether every patch of a list targets number `idx` and sets or clears
/// attributes.
pub open spec fn only_attributes(patches: Seq<PatchView>, idx: nat) -> bool {
    forall|k: int|
        0 <= k < patches.len() ==> target(#[trigger] patches[k]) == idx && (patches[k] is AddAttributes
            || patches[k] is RemoveAttributes)
}

/// The attribute patches of an element target the element, and set or
/// clear attributes.
pub proof fn lemma_attr_patches_target(
    tag: WidgetView,
    idx: nat,
    old_attrs: Seq<AttributeView>,
    new_attrs: Seq<AttributeView>,
)
    ensures
        only_attributes(attr_patches(tag, idx, old_attrs, new_attrs), idx),
{
}

/// The patches that change the number of an element's children target
/// the element.
pub proof fn lemma_shape_patches_target(
    tag: WidgetView,
    idx: nat,
    olds: Seq<NodeView>,
    news: Seq<NodeView>,
)
    ensures
        targets_within(shape_patches(tag, idx, olds, news), idx, idx + 1),
{
}

/// Every patch targets a node of the old tree: with the old tree numbered
/// from `idx`, its target is a number from `idx` up to, and without,
/// `idx` plus the number of the old tree's nodes.
pub proof fn lemma_targets_at(old_node: NodeView, new_node: NodeView, idx: nat)
    ensures
        targets_within(diff_at(old_node, new_node, idx), idx, idx + count(old_node)),
    decreases old_node, 0int,
{
    match (old_node, new_node) {
        (
            NodeView::Element { tag: old_tag, attrs: old_attrs, children: olds },
            NodeView::Element { tag: new_tag, attrs: new_attrs, children: news },
        ) => {
            if old_tag == new_tag && editable(olds, news) {
                let a = attr_patches(old_tag, idx, old_attrs, new_attrs);
                let s = shape_patches(old_tag, idx, olds, news);
                let c = diff_children(olds, news, olds.len() as int, idx + 1);
                lemma_attr_patches_target(old_tag, idx, old_attrs, new_attrs);
                lemma_shape_patches_target(old_tag, idx, olds, news);
                lemma_targets_children(olds, news, olds.len() as int, idx + 1);
                assert(olds.take(olds.len() as int) == olds);
                let d = diff_at(old_node, new_node, idx);
                assert(d == a + s + c);
                assert forall|k: int| 0 <= k < d.len() implies idx <= target(#[trigger] d[k]) < idx
                    + count(old_node) by {
                    if k < a.len() {
                        assert(d[k] == a[k]);
                    } else if k < a.len() + s.len() {
                        assert(d[k] == s[k - a.len()]);
                    } else {
                        assert(d[k] == c[k - a.len() - s.len()]);
                    }
                }
            }
        },
        _ => {},
    }
}

/// Every patch of the first `n` old children targets a node of theirs.
pub proof fn lemma_targets_children(olds: Seq<NodeView>, news: Seq<NodeView>, n: int, first: nat)
    requires
        0 <= n <= olds.len(),
    ensures
        targets_within(
            diff_children(olds, news, n, first),
            first,
            first + count_all(olds.take(n)),
        ),
    decreases olds, n,
{
    if n == 0 {
        assert(olds.take(0) =~= Seq::<NodeView>::empty());
    } else {
        let i = n - 1;
        let here = first + count_all(olds.take(i));
        lemma_targets_children(olds, news, i, first);
        lemma_count_all_step(olds, i);
        let before = diff_children(olds, news, i, first);
        let d = diff_children(olds, news, n, first);
        match partner(olds, news, i) {
            Some(j) => {
                let last = diff_at(olds[i], news[j], here);
                lemma_targets_at(olds[i], news[j], here);
                assert(d == before + last);
                assert forall|k: int| 0 <= k < d.len() implies first <= target(#[trigger] d[k])
                    < first + count_all(olds.take(n)) by {
                    if k < before.len() {
                        assert(d[k] == before[k]);
                    } else {
                        assert(d[k] == last[k - before.len()]);
                    }
                }
            },
            None => {
                assert(d =~= before);
            },
        }
    }
}

/// Every patch of a diff targets a node of the old tree.
pub proof fn lemma_targets(old_tree: NodeView, new_tree: NodeView)
    ensures
        targets_within(diff_spec(old_tree, new_tree), 0, count(old_tree)),
{
    lemma_targets_at(old_tree, new_tree, 0);
}

/// Whether no node of a list carries a key.
pub open spec fn unkeyed(nodes: Seq<NodeView>) -> bool {
    forall|i: int| 0 <= i < nodes.len() ==> key_of(#[trigger] nodes[i]) is None
}

/// Among nodes without keys, every one of a prefix counts as keyless.
pub proof fn lemma_occurrences_unkeyed(nodes: Seq<NodeView>, n: int)
    requires
        unkeyed(nodes),
        0 <= n <= nodes.len(),
    ensures
        occurrences(nodes, None, n) == n,
    decreases n,
{
    if n > 0 {
        lemma_occurrences_unkeyed(nodes, n - 1);
    }
}

/// Among children without keys, the unmatched new children are those
/// beyond the number of the old children.
pub proof fn lemma_unkeyed_unmatched(olds: Seq<NodeView>, news: Seq<NodeView>, n: int)
    requires
        unkeyed(olds),
        unkeyed(news),
        0 <= n <= news.len(),
    ensures
        unmatched(olds, news, n).len() == if n <= olds.len() {
            0
        } else {
            n - olds.len()
        },
        forall|j: int| 0 <= j < news.len() ==> (has_partner(olds, news, j) <==> j < olds.len()),
    decreases n,
{
    assert forall|j: int| 0 <= j < news.len() implies (has_partner(olds, news, j) <==> j
        < olds.len()) by {
        lemma_occurrences_unkeyed(news, j);
        lemma_occurrences_unkeyed(olds, olds.len() as int);
    }
    if n > 0 {
        lemma_unkeyed_unmatched(olds, news, n - 1);
    }
}

/// Children without keys stay in place.
pub proof fn lemma_unkeyed_in_place(olds: Seq<NodeView>, news: Seq<NodeView>)
    requires
        unkeyed(olds),
        unkeyed(news),
    ensures
        in_place(olds, news),
        kept(olds, news) == if olds.len() <= news.len() {
            olds.len()
        } else {
            news.len()
        },
{
    lemma_unkeyed_unmatched(olds, news, news.len() as int);
    let m = kept(olds, news);
    assert forall|i: int| 0 <= i < m implies partner(olds, news, i) == Some(i) by {
        lemma_occurrences_unkeyed(olds, i);
        lemma_occurrences_unkeyed(news, i);
        lemma_nth_found(news, i, news.len() as int);
    }
}

/// Where an element loses children and no child on either side carries a
/// key, the one patch that changes the number of its children is a
/// `TruncateChildren` that keeps as many as the new element has: the diff
/// is the element's attribute patches, that patch, and patches that
/// target nodes below the element.
pub proof fn lemma_truncation(
    tag: WidgetView,
    old_attrs: Seq<AttributeView>,
    olds: Seq<NodeView>,
    new_attrs: Seq<AttributeView>,
    news: Seq<NodeView>,
    idx: nat,
)
    requires
        news.len() < olds.len(),
        unkeyed(olds),
        unkeyed(news),
    ensures
        shape_patches(tag, idx, olds, news) == seq![
            PatchView::TruncateChildren(tag, idx, news.len()),
        ],
        diff_at(
            NodeView::Element { tag, attrs: old_attrs, children: olds },
            NodeView::Element { tag, attrs: new_attrs, children: news },
            idx,
        ) == attr_patches(tag, idx, old_attrs, new_attrs) + seq![
            PatchView::TruncateChildren(tag, idx, news.len()),
        ] + diff_children(olds, news, olds.len() as int, idx + 1),
        only_attributes(attr_patches(tag, idx, old_attrs, new_attrs), idx),
        targets_within(
            diff_children(olds, news, olds.len() as int, idx + 1),
            idx + 1,
            idx + 1 + count_all(olds),
        ),
{
    assert forall|j: int| 0 <= j < news.len() implies has_partner(olds, news, j) by {
        lemma_occurrences_unkeyed(news, j);
        lemma_occurrences_unkeyed(olds, olds.len() as int);
    }
    lemma_unkeyed_in_place(olds, news);
    reveal(editable);
    lemma_unmatched_none(olds, news, news.len() as int);
    assert(shape_patches(tag, idx, olds, news) =~= seq![
        PatchView::TruncateChildren(tag, idx, news.len()),
    ]);
    lemma_attr_patches_target(tag, idx, old_attrs, new_attrs);
    lemma_targets_children(olds, news, olds.len() as int, idx + 1);
    assert(olds.take(olds.len() as int) == olds);
}

/// Whether the nodes of a list all carry a key, and no two the same.
pub open spec fn distinctly_keyed(nodes: Seq<NodeView>) -> bool {
    &&& forall|i: int| 0 <= i < nodes.len() ==> key_of(#[trigger] nodes[i]) is Some
    &&& forall|i: int, j: int|
        0 <= i < nodes.len() && 0 <= j < nodes.len() && i != j ==> key_of(#[trigger] nodes[i])
            != key_of(#[trigger] nodes[j])
}

/// Whether `news` holds the nodes of `olds`, each once, in some order.
pub open spec fn is_reordering(olds: Seq<NodeView>, news: Seq<NodeView>) -> bool {
    &&& olds.len() == news.len()
    &&& forall|i: int| 0 <= i < olds.len() ==> news.contains(#[trigger] olds[i])
    &&& forall|j: int| 0 <= j < news.len() ==> olds.contains(#[trigger] news[j])
}

/// Among nodes with distinct keys, none carries the key of a later one.
pub proof fn lemma_rank_distinct(nodes: Seq<NodeView>, i: int, n: int)
    requires
        distinctly_keyed(nodes),
        0 <= i < nodes.len(),
        0 <= n <= i,
    ensures
        occurrences(nodes, key_of(nodes[i]), n) == 0,
    decreases n,
{
    if n > 0 {
        lemma_rank_distinct(nodes, i, n - 1);
    }
}

/// Among children that carry distinct keys, an old child and the new
/// child with its key are partners, wherever the two stand.
pub proof fn lemma_partner_by_key(olds: Seq<NodeView>, news: Seq<NodeView>, i: int, j: int)
    requires
        distinctly_keyed(olds),
        distinctly_keyed(news),
        0 <= i < olds.len(),
        0 <= j < news.len(),
        key_of(news[j]) == key_of(olds[i]),
    ensures
        partner(olds, news, i) == Some(j),
        has_partner(olds, news, j),
{
    lemma_rank_distinct(olds, i, i);
    lemma_rank_distinct(news, j, j);
    lemma_nth_found(news, j, news.len() as int);
    lemma_occurrences_grow(olds, key_of(olds[i]), i + 1, olds.len() as int);
}

/// Whether two lists of children carry the same keys: as many children,
/// and every key of one carried by a child of the other.
pub open spec fn same_keys(olds: Seq<NodeView>, news: Seq<NodeView>) -> bool {
    &&& olds.len() == news.len()
    &&& forall|i: int|
        0 <= i < olds.len() ==> exists|j: int|
            0 <= j < news.len() && key_of(#[trigger] news[j]) == key_of(#[trigger] olds[i])
    &&& forall|j: int|
        0 <= j < news.len() ==> exists|i: int|
            0 <= i < olds.len() && key_of(#[trigger] olds[i]) == key_of(#[trigger] news[j])
}

/// Where the children of two elements carry distinct keys and the same
/// keys, in whatever order, every old child is the partner of the new
/// child with its key, the element is edited in place, and no child is
/// appended or dropped. So a child is replaced only where the new child
/// with its key cannot be reached from it by patches of its own.
pub proof fn lemma_keyed_children_pair_up(
    tag: WidgetView,
    olds: Seq<NodeView>,
    news: Seq<NodeView>,
    idx: nat,
)
    requires
        distinctly_keyed(olds),
        distinctly_keyed(news),
        same_keys(olds, news),
    ensures
        all_matched(olds, news),
        editable(olds, news),
        shape_patches(tag, idx, olds, news) == Seq::<PatchView>::empty(),
        forall|i: int|
            0 <= i < olds.len() ==> partner(olds, news, i) is Some && 0 <= (#[trigger] partner(
                olds,
                news,
                i,
            ))->0 < news.len() && key_of(news[partner(olds, news, i)->0]) == key_of(olds[i]),
{
    assert forall|j: int| 0 <= j < news.len() implies #[trigger] has_partner(olds, news, j) by {
        let i = choose|i: int|
            0 <= i < olds.len() && key_of(#[trigger] olds[i]) == key_of(#[trigger] news[j]);
        lemma_partner_by_key(olds, news, i, j);
    }
    lemma_unmatched_none(olds, news, news.len() as int);
    assert(shape_patches(tag, idx, olds, news) =~= Seq::<PatchView>::empty());
    assert forall|i: int| 0 <= i < olds.len() implies partner(olds, news, i) is Some && 0 <= (
    #[trigger] partner(olds, news, i))->0 < news.len() && key_of(
        news[partner(olds, news, i)->0],
    ) == key_of(olds[i]) by {
        let j = choose|j: int|
            0 <= j < news.len() && key_of(#[trigger] news[j]) == key_of(#[trigger] olds[i]);
        lemma_partner_by_key(olds, news, i, j);
    }
    assert(all_matched(olds, news));
    reveal(editable);
}

/// The children of an element against the same children in another order
/// need no patches, where the children carry distinct keys.
pub proof fn lemma_diff_children_reordered(
    olds: Seq<NodeView>,
    news: Seq<NodeView>,
    n: int,
    first: nat,
)
    requires
        distinctly_keyed(olds),
        distinctly_keyed(news),
        is_reordering(olds, news),
        0 <= n <= olds.len(),
    ensures
        diff_children(olds, news, n, first) == Seq::<PatchView>::empty(),
    decreases n,
{
    if n > 0 {
        let i = n - 1;
        lemma_diff_children_reordered(olds, news, i, first);
        assert(news.contains(olds[i]));
        let j = choose|j: int| 0 <= j < news.len() && news[j] == olds[i];
        lemma_partner_by_key(olds, news, i, j);
        lemma_diff_same_at(olds[i], first + count_all(olds.take(i)));
        assert(diff_children(olds, news, n, first) =~= Seq::<PatchView>::empty());
    }
}

/// Putting the children of an element in another order, where they carry
/// distinct keys, costs no patch but those for the element's own
/// attributes: no child is replaced, appended or dropped.
pub proof fn lemma_keyed_reordering(
    tag: WidgetView,
    old_attrs: Seq<AttributeView>,
    olds: Seq<NodeView>,
    new_attrs: Seq<AttributeView>,
    news: Seq<NodeView>,
    idx: nat,
)
    requires
        distinctly_keyed(olds),
        distinctly_keyed(news),
        is_reordering(olds, news),
    ensures
        diff_at(
            NodeView::Element { tag, attrs: old_attrs, children: olds },
            NodeView::Element { tag, attrs: new_attrs, children: news },
            idx,
        ) == attr_patches(tag, idx, old_attrs, new_attrs),
        only_attributes(attr_patches(tag, idx, old_attrs, new_attrs), idx),
{
    assert forall|j: int| 0 <= j < news.len() implies #[trigger] has_partner(olds, news, j) by {
        assert(olds.contains(news[j]));
        let i = choose|i: int| 0 <= i < olds.len() && olds[i] == news[j];
        lemma_partner_by_key(olds, news, i, j);
    }
    assert forall|i: int| 0 <= i < olds.len() implies (#[trigger] partner(olds, news, i)) is Some by {
        assert(news.contains(olds[i]));
        let j = choose|j: int| 0 <= j < news.len() && news[j] == olds[i];
        lemma_partner_by_key(olds, news, i, j);
    }
    assert(all_matched(olds, news));
    reveal(editable);
    lemma_unmatched_none(olds, news, news.len() as int);
    assert(shape_patches(tag, idx, olds, news) =~= Seq::<PatchView>::empty());
    lemma_diff_children_reordered(olds, news, olds.len() as int, idx + 1);
    lemma_attr_patches_target(tag, idx, old_attrs, new_attrs);
    assert(attr_patches(tag, idx, old_attrs, new_attrs) + Seq::<PatchView>::empty()
        + Seq::<PatchView>::empty() =~= attr_patches(tag, idx, old_attrs, new_attrs));
}

} // verus!
