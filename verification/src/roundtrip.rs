//! Applying the diff of two trees to the widgets of the old tree gives
//! the widgets of the new tree.
use vstd::prelude::*;
use crate::agreement::{
    lemma_agreement_in, lemma_built_all_each, lemma_built_all_len, lemma_leaf_control,
};
use crate::apply::{applied, outcome, own_patched, patched, patched_each, step};
use crate::attrs::{revised, revised_widget, ChangeView};
use crate::diff::{
    added_attrs, attr_patches, diff_at, diff_children, diff_spec, editable, has_partner, in_place,
    kept, out_of_order, partner, removed_keys, shape_patches, unmatched,
};
use crate::factory::{built, built_all, built_each, control_for, wrapped};
use crate::laws::{
    lemma_attr_patches_target, lemma_filter_none, lemma_unkeyed_in_place,
    lemma_shape_patches_target, lemma_targets_at, lemma_targets_children, targets_within,
    unkeyed,
};
use crate::native::{is_container, native_count_all, ControlView, NativeView};
use crate::node::{count, count_all, lemma_count_all_step, NodeView};
use crate::patch::{target, PatchView};
use crate::settle::lemma_control_settles;
use crate::suited::{lemma_all_admitted, lemma_diff_passes};
use crate::value::AttributeView;
use crate::widget::{is_container_tag, WidgetView};

verus! {

/// Holds of the patches that target number `at`.
pub open spec fn aims_at(at: nat) -> spec_fn(PatchView) -> bool {
    |p: PatchView| target(p) == at
}

/// The patches of a batch that target number `at`, in order.
pub open spec fn own(patches: Seq<PatchView>, at: nat) -> Seq<PatchView> {
    patches.filter(aims_at(at))
}

/// A widget after a list of patches that all target it, in order.
pub open spec fn run(widget: NativeView, patches: Seq<PatchView>) -> NativeView
    decreases patches.len(),
{
    if patches.len() == 0 {
        widget
    } else {
        step(run(widget, patches.drop_last()), patches.last())
    }
}

/// A filter that everything passes leaves everything.
pub proof fn lemma_filter_all<A>(s: Seq<A>, pred: spec_fn(A) -> bool)
    requires
        forall|i: int| 0 <= i < s.len() ==> pred(#[trigger] s[i]),
    ensures
        s.filter(pred) == s,
    decreases s.len(),
{
    reveal(Seq::filter);
    if s.len() > 0 {
        assert forall|i: int| 0 <= i < s.drop_last().len() implies pred(
            #[trigger] s.drop_last()[i],
        ) by {
            assert(s.drop_last()[i] == s[i]);
        }
        lemma_filter_all(s.drop_last(), pred);
        assert(s.drop_last().push(s.last()) =~= s);
    } else {
        assert(s.filter(pred) =~= s);
    }
}

/// What a batch does to a widget is what the patches that target the
/// widget do to it.
pub proof fn lemma_own_patched(widget: NativeView, at: nat, patches: Seq<PatchView>, n: int)
    requires
        0 <= n <= patches.len(),
    ensures
        own_patched(widget, at, patches, n) == run(widget, own(patches.take(n), at)),
    decreases n,
{
    reveal(Seq::filter);
    if n == 0 {
        assert(patches.take(0) =~= Seq::<PatchView>::empty());
    } else {
        lemma_own_patched(widget, at, patches, n - 1);
        assert(patches.take(n).drop_last() == patches.take(n - 1));
        assert(patches.take(n).last() == patches[n - 1]);
        if target(patches[n - 1]) == at {
            let rest = own(patches.take(n - 1), at);
            assert(rest.push(patches[n - 1]).drop_last() == rest);
        }
    }
}

/// Running one list of patches after another is running the two as one.
pub proof fn lemma_run_add(widget: NativeView, first: Seq<PatchView>, second: Seq<PatchView>)
    ensures
        run(widget, first + second) == run(run(widget, first), second),
    decreases second.len(),
{
    if second.len() == 0 {
        assert(first + second =~= first);
    } else {
        lemma_run_add(widget, first, second.drop_last());
        assert((first + second).drop_last() =~= first + second.drop_last());
        assert((first + second).last() == second.last());
    }
}

/// Running a single patch is taking its step.
pub proof fn lemma_run_one(widget: NativeView, patch: PatchView)
    ensures
        run(widget, seq![patch]) == step(widget, patch),
{
    reveal_with_fuel(run, 2);
    assert(seq![patch].drop_last() =~= Seq::<PatchView>::empty());
}

/// Of three lists in a row, where the first two target `at` and the
/// third targets numbers after it, the patches that target `at` are the
/// first two lists.
pub proof fn lemma_own_head(
    a: Seq<PatchView>,
    s: Seq<PatchView>,
    c: Seq<PatchView>,
    at: nat,
    high: nat,
)
    requires
        targets_within(a, at, at + 1),
        targets_within(s, at, at + 1),
        targets_within(c, at + 1, high),
    ensures
        own(a + s + c, at) == a + s,
{
    Seq::filter_distributes_over_add(a + s, c, aims_at(at));
    Seq::filter_distributes_over_add(a, s, aims_at(at));
    lemma_filter_all(a, aims_at(at));
    lemma_filter_all(s, aims_at(at));
    lemma_filter_none(c, aims_at(at));
    assert(a + s + Seq::<PatchView>::empty() =~= a + s);
}

/// Setting or clearing attributes on the widget of a kind that is no
/// container changes the control inside the wrappers of the kind.
pub proof fn lemma_revised_wrapped(tag: WidgetView, control: ControlView, change: ChangeView)
    ensures
        revised_widget(tag, wrapped(tag, control), change) == wrapped(
            tag,
            revised(tag, control, change),
        ),
{
    let w = wrapped(tag, control);
    let r = revised_widget(tag, w, change);
    let goal = wrapped(tag, revised(tag, control, change));
    match tag {
        WidgetView::TextArea => {
            assert(r.children =~= goal.children);
        },
        WidgetView::Svg => {
            assert(r.children[0].children =~= goal.children[0].children);
            assert(r.children =~= goal.children);
        },
        _ => {},
    }
}

/// The attribute patches of a diff bring the widget of the old
/// attributes to the widget of the new attributes, for a kind that is no
/// container.
pub proof fn lemma_attr_patches_settle(
    tag: WidgetView,
    idx: nat,
    old_attrs: Seq<AttributeView>,
    new_attrs: Seq<AttributeView>,
)
    requires
        control_for(tag, old_attrs) is Some,
        control_for(tag, new_attrs) is Some,
    ensures
        run(
            wrapped(tag, control_for(tag, old_attrs)->0),
            attr_patches(tag, idx, old_attrs, new_attrs),
        ) == wrapped(tag, control_for(tag, new_attrs)->0),
{
    let c0 = control_for(tag, old_attrs)->0;
    let add = added_attrs(old_attrs, new_attrs);
    let remove = removed_keys(old_attrs, new_attrs);
    let c1 = revised(tag, c0, ChangeView::Assign(add));
    let c2 = revised(tag, c1, ChangeView::Clear(remove));
    lemma_control_settles(tag, old_attrs, new_attrs);
    lemma_revised_wrapped(tag, c0, ChangeView::Assign(add));
    lemma_revised_wrapped(tag, c1, ChangeView::Clear(remove));
    let first = if add.len() > 0 {
        seq![PatchView::AddAttributes(tag, idx, add)]
    } else {
        Seq::empty()
    };
    let second = if remove.len() > 0 {
        seq![PatchView::RemoveAttributes(tag, idx, remove)]
    } else {
        Seq::empty()
    };
    lemma_run_add(wrapped(tag, c0), first, second);
    if add.len() > 0 {
        lemma_run_one(wrapped(tag, c0), PatchView::AddAttributes(tag, idx, add));
    } else {
        lemma_assign_nothing(tag, c0);
        assert(add =~= Seq::<AttributeView>::empty());
    }
    if remove.len() > 0 {
        lemma_run_one(wrapped(tag, c1), PatchView::RemoveAttributes(tag, idx, remove));
    } else {
        lemma_clear_nothing(tag, c1);
        assert(remove =~= Seq::<crate::value::AttribKey>::empty());
    }
}

/// Setting no attributes changes nothing.
pub proof fn lemma_assign_nothing(tag: WidgetView, control: ControlView)
    ensures
        revised(tag, control, ChangeView::Assign(Seq::empty())) == control,
{
}

/// Clearing no keys changes nothing.
pub proof fn lemma_clear_nothing(tag: WidgetView, control: ControlView)
    ensures
        revised(tag, control, ChangeView::Clear(Seq::empty())) == control,
{
}

/// Attribute patches leave a container as it is.
pub proof fn lemma_container_ignores(
    tag: WidgetView,
    idx: nat,
    old_attrs: Seq<AttributeView>,
    new_attrs: Seq<AttributeView>,
    widget: NativeView,
)
    requires
        is_container(widget.control),
    ensures
        run(widget, attr_patches(tag, idx, old_attrs, new_attrs)) == widget,
{
    let add = added_attrs(old_attrs, new_attrs);
    let remove = removed_keys(old_attrs, new_attrs);
    let first = if add.len() > 0 {
        seq![PatchView::AddAttributes(tag, idx, add)]
    } else {
        Seq::empty()
    };
    let second = if remove.len() > 0 {
        seq![PatchView::RemoveAttributes(tag, idx, remove)]
    } else {
        Seq::empty()
    };
    lemma_run_add(widget, first, second);
    lemma_container_unrevised(tag, widget, ChangeView::Assign(add));
    lemma_container_unrevised(tag, widget, ChangeView::Clear(remove));
    if add.len() > 0 {
        lemma_run_one(widget, PatchView::AddAttributes(tag, idx, add));
    }
    if remove.len() > 0 {
        lemma_run_one(widget, PatchView::RemoveAttributes(tag, idx, remove));
    }
}

/// No change to attributes changes a container.
pub proof fn lemma_container_unrevised(tag: WidgetView, widget: NativeView, change: ChangeView)
    requires
        is_container(widget.control),
    ensures
        revised_widget(tag, widget, change) == widget,
{
}

/// Whether, wherever the diff of two trees edits an element in place, the
/// children that stay stay in place: no element that is edited in place
/// has its children in another order than before.
pub open spec fn settled(old_node: NodeView, new_node: NodeView) -> bool
    decreases old_node,
{
    match (old_node, new_node) {
        (
            NodeView::Element { tag: old_tag, children: olds, .. },
            NodeView::Element { tag: new_tag, children: news, .. },
        ) => {
            old_tag == new_tag && editable(olds, news) ==> {
                &&& !out_of_order(olds, news)
                &&& forall|i: int|
                    0 <= i < kept(olds, news) && i < olds.len() ==> settled(
                        #[trigger] olds[i],
                        news[i],
                    )
            }
        },
        _ => true,
    }
}

/// There are no more unmatched new children among the first `n` than `n`.
pub proof fn lemma_unmatched_len(olds: Seq<NodeView>, news: Seq<NodeView>, n: int)
    requires
        0 <= n,
    ensures
        unmatched(olds, news, n).len() <= n,
    decreases n,
{
    if n > 0 {
        lemma_unmatched_len(olds, news, n - 1);
    }
}

/// Where no new child from position `m` on is matched, the unmatched
/// among the first `n` are the unmatched among the first `m` and all from
/// there up to `n`.
pub proof fn lemma_unmatched_tail(olds: Seq<NodeView>, news: Seq<NodeView>, m: int, n: int)
    requires
        0 <= m <= n <= news.len(),
        forall|j: int| m <= j < news.len() ==> !has_partner(olds, news, j),
    ensures
        unmatched(olds, news, n) == unmatched(olds, news, m) + news.subrange(m, n),
    decreases n - m,
{
    if n == m {
        assert(unmatched(olds, news, m) + news.subrange(m, m) =~= unmatched(olds, news, m));
    } else {
        lemma_unmatched_tail(olds, news, m, n - 1);
        assert(unmatched(olds, news, m) + news.subrange(m, n) =~= (unmatched(olds, news, m)
            + news.subrange(m, n - 1)).push(news[n - 1]));
    }
}

/// Where the children that stay stay in place, the new children to
/// append are those from the first free place on.
pub proof fn lemma_in_place_extra(olds: Seq<NodeView>, news: Seq<NodeView>)
    requires
        in_place(olds, news),
    ensures
        kept(olds, news) <= news.len(),
        unmatched(olds, news, news.len() as int) == news.skip(kept(olds, news) as int),
{
    let m = kept(olds, news) as int;
    lemma_unmatched_len(olds, news, news.len() as int);
    lemma_unmatched_len(olds, news, m);
    lemma_unmatched_tail(olds, news, m, news.len() as int);
    assert(news.subrange(m, news.len() as int) =~= news.skip(m));
    assert(unmatched(olds, news, m).len() == 0);
    assert(unmatched(olds, news, m) + news.skip(m) =~= news.skip(m));
}

/// A list that is built is built the same with construction failures
/// skipped, from any position on.
pub proof fn lemma_built_each_skip(nodes: Seq<NodeView>, m: int)
    requires
        built_all(nodes) is Some,
        0 <= m <= nodes.len(),
    ensures
        built_each(nodes.skip(m)) == built_all(nodes)->0.skip(m),
    decreases nodes.len(),
{
    lemma_built_all_len(nodes);
    let tail = nodes.skip(m);
    let widgets = built_all(nodes)->0;
    if m == nodes.len() {
        assert(built_each(tail) =~= widgets.skip(m));
    } else {
        lemma_built_each_skip(nodes.drop_last(), m);
        lemma_built_all_len(nodes.drop_last());
        assert(tail.drop_last() =~= nodes.drop_last().skip(m));
        assert(tail.last() == nodes.last());
        assert(widgets.skip(m) =~= built_all(nodes.drop_last())->0.skip(m).push(
            widgets.last(),
        ));
    }
}

/// The widget at each position of a patched list is the patched widget
/// of that position.
pub proof fn lemma_patched_each_index(
    widgets: Seq<NativeView>,
    n: int,
    first: nat,
    batch: Seq<PatchView>,
    i: int,
)
    requires
        0 <= i < n <= widgets.len(),
    ensures
        patched_each(widgets, n, first, batch).len() == n,
        patched_each(widgets, n, first, batch)[i] == patched(
            widgets[i],
            first + native_count_all(widgets.take(i)),
            batch,
        ),
    decreases n,
{
    lemma_patched_each_len(widgets, n, first, batch);
    if i < n - 1 {
        lemma_patched_each_index(widgets, n - 1, first, batch, i);
    } else {
        lemma_patched_each_len(widgets, n - 1, first, batch);
    }
}

/// A patched list is as long as the list.
pub proof fn lemma_patched_each_len(widgets: Seq<NativeView>, n: int, first: nat, batch: Seq<PatchView>)
    requires
        0 <= n <= widgets.len(),
    ensures
        patched_each(widgets, n, first, batch).len() == n,
    decreases n,
{
    if n > 0 {
        lemma_patched_each_len(widgets, n - 1, first, batch);
    }
}

/// Among the patches of the first `n` old children, those that target a
/// number within child `i` are those of the diff of child `i` and its
/// partner that target it.
pub proof fn lemma_own_child(
    olds: Seq<NodeView>,
    news: Seq<NodeView>,
    n: int,
    first: nat,
    i: int,
    x: nat,
)
    requires
        0 <= i < n <= olds.len(),
        first + count_all(olds.take(i)) <= x < first + count_all(olds.take(i)) + count(olds[i]),
    ensures
        own(diff_children(olds, news, n, first), x) == match partner(olds, news, i) {
            Some(j) => own(diff_at(olds[i], news[j], first + count_all(olds.take(i))), x),
            None => Seq::empty(),
        },
    decreases n,
{
    let last_at = first + count_all(olds.take(n - 1));
    let before = diff_children(olds, news, n - 1, first);
    let last = match partner(olds, news, n - 1) {
        Some(j) => diff_at(olds[n - 1], news[j], last_at),
        None => Seq::empty(),
    };
    assert(diff_children(olds, news, n, first) == before + last);
    Seq::filter_distributes_over_add(before, last, aims_at(x));
    lemma_targets_children(olds, news, n - 1, first);
    lemma_count_all_step(olds, i);
    if i == n - 1 {
        lemma_filter_none(before, aims_at(x));
        assert(Seq::<PatchView>::empty() + own(last, x) =~= own(last, x));
        if partner(olds, news, i) is None {
            lemma_filter_none(last, aims_at(x));
        }
    } else {
        lemma_own_child(olds, news, n - 1, first, i, x);
        crate::node::lemma_count_all_prefix(olds.take(n - 1), i + 1);
        assert(olds.take(n - 1).take(i + 1) =~= olds.take(i + 1));
        match partner(olds, news, n - 1) {
            Some(j) => {
                lemma_targets_at(olds[n - 1], news[j], last_at);
            },
            None => {},
        }
        lemma_filter_none(last, aims_at(x));
        assert(own(before, x) + Seq::<PatchView>::empty() =~= own(before, x));
    }
}

/// Whether a batch holds, for every number of a tree numbered from `idx`,
/// the same patches as the diff of the tree does.
pub open spec fn agrees_on(
    batch: Seq<PatchView>,
    old_node: NodeView,
    new_node: NodeView,
    idx: nat,
) -> bool {
    forall|x: nat|
        idx <= x < idx + count(old_node) ==> #[trigger] own(batch, x) == own(
            diff_at(old_node, new_node, idx),
            x,
        )
}

/// The patches of a diff that target the old tree's root, for two
/// elements of the same kind: the attribute patches, then those that
/// change the number of children.
pub proof fn lemma_own_root(
    tag: WidgetView,
    old_attrs: Seq<AttributeView>,
    olds: Seq<NodeView>,
    new_attrs: Seq<AttributeView>,
    news: Seq<NodeView>,
    idx: nat,
)
    requires
        editable(olds, news),
    ensures
        own(
            diff_at(
                NodeView::Element { tag, attrs: old_attrs, children: olds },
                NodeView::Element { tag, attrs: new_attrs, children: news },
                idx,
            ),
            idx,
        ) == attr_patches(tag, idx, old_attrs, new_attrs) + shape_patches(tag, idx, olds, news),
{
    let a = attr_patches(tag, idx, old_attrs, new_attrs);
    let s = shape_patches(tag, idx, olds, news);
    let c = diff_children(olds, news, olds.len() as int, idx + 1);
    lemma_attr_patches_target(tag, idx, old_attrs, new_attrs);
    lemma_shape_patches_target(tag, idx, olds, news);
    lemma_targets_children(olds, news, olds.len() as int, idx + 1);
    lemma_own_head(a, s, c, idx, idx + 1 + count_all(olds.take(olds.len() as int)));
}

/// The patches of a diff that target a number within child `i` of the
/// old tree, for two elements of the same kind, are those of the diff of
/// child `i` and its partner.
pub proof fn lemma_own_below(
    tag: WidgetView,
    old_attrs: Seq<AttributeView>,
    olds: Seq<NodeView>,
    new_attrs: Seq<AttributeView>,
    news: Seq<NodeView>,
    idx: nat,
    i: int,
    x: nat,
)
    requires
        editable(olds, news),
        0 <= i < olds.len(),
        idx + 1 + count_all(olds.take(i)) <= x < idx + 1 + count_all(olds.take(i)) + count(olds[i]),
    ensures
        own(
            diff_at(
                NodeView::Element { tag, attrs: old_attrs, children: olds },
                NodeView::Element { tag, attrs: new_attrs, children: news },
                idx,
            ),
            x,
        ) == match partner(olds, news, i) {
            Some(j) => own(diff_at(olds[i], news[j], idx + 1 + count_all(olds.take(i))), x),
            None => Seq::empty(),
        },
{
    let a = attr_patches(tag, idx, old_attrs, new_attrs);
    let s = shape_patches(tag, idx, olds, news);
    let c = diff_children(olds, news, olds.len() as int, idx + 1);
    lemma_attr_patches_target(tag, idx, old_attrs, new_attrs);
    lemma_shape_patches_target(tag, idx, olds, news);
    Seq::filter_distributes_over_add(a + s, c, aims_at(x));
    Seq::filter_distributes_over_add(a, s, aims_at(x));
    lemma_filter_none(a, aims_at(x));
    lemma_filter_none(s, aims_at(x));
    assert(Seq::<PatchView>::empty() + Seq::<PatchView>::empty() + own(c, x) =~= own(c, x));
    lemma_own_child(olds, news, olds.len() as int, (idx + 1) as nat, i, x);
}

/// The patches that target a container bring it, once the widgets it
/// holds that stay are those of the new children, to the container of the
/// new element.
pub proof fn lemma_container_settles(
    tag: WidgetView,
    old_attrs: Seq<AttributeView>,
    olds: Seq<NodeView>,
    new_attrs: Seq<AttributeView>,
    news: Seq<NodeView>,
    idx: nat,
    batch: Seq<PatchView>,
    held: Seq<NativeView>,
)
    requires
        is_container_tag(tag),
        built_all(news) is Some,
        in_place(olds, news),
        own(batch, idx) == attr_patches(tag, idx, old_attrs, new_attrs) + shape_patches(
            tag,
            idx,
            olds,
            news,
        ),
        held.len() == olds.len(),
        forall|i: int| 0 <= i < kept(olds, news) ==> #[trigger] held[i] == built_all(news)->0[i],
    ensures
        own_patched(
            NativeView { control: control_for(tag, old_attrs)->0, children: held },
            idx,
            batch,
            batch.len() as int,
        ) == (NativeView {
            control: control_for(tag, new_attrs)->0,
            children: built_all(news)->0,
        }),
{
    let a = attr_patches(tag, idx, old_attrs, new_attrs);
    let s = shape_patches(tag, idx, olds, news);
    let c0 = control_for(tag, old_attrs)->0;
    let ws_new = built_all(news)->0;
    let m = kept(olds, news);
    lemma_built_all_len(news);
    lemma_in_place_extra(olds, news);
    assert(batch.take(batch.len() as int) == batch);
    let w1 = NativeView { control: c0, children: held };
    lemma_own_patched(w1, idx, batch, batch.len() as int);
    lemma_run_add(w1, a, s);
    lemma_container_ignores(tag, idx, old_attrs, new_attrs, w1);
    let extra = unmatched(olds, news, news.len() as int);
    let first = if m < olds.len() {
        seq![PatchView::TruncateChildren(tag, idx, m)]
    } else {
        Seq::empty()
    };
    let second = if extra.len() > 0 {
        seq![PatchView::AppendChildren(tag, idx, extra)]
    } else {
        Seq::empty()
    };
    lemma_run_add(w1, first, second);
    let w2 = NativeView { control: c0, children: held.take(m as int) };
    if m < olds.len() {
        lemma_run_one(w1, PatchView::TruncateChildren(tag, idx, m));
    } else {
        assert(held.take(m as int) == held);
    }
    assert(run(w1, first) == w2);
    assert(held.take(m as int) =~= ws_new.take(m as int));
    lemma_built_each_skip(news, m as int);
    if extra.len() > 0 {
        lemma_run_one(w2, PatchView::AppendChildren(tag, idx, extra));
    }
    assert(ws_new.take(m as int) + ws_new.skip(m as int) =~= ws_new);
    assert(run(w2, second).children =~= ws_new);
}

/// The patches that target the widget of an element that is no container
/// bring it to the widget of the new element of the same kind.
pub proof fn lemma_leaf_settles(
    tag: WidgetView,
    old_attrs: Seq<AttributeView>,
    new_attrs: Seq<AttributeView>,
    idx: nat,
    batch: Seq<PatchView>,
)
    requires
        !is_container_tag(tag),
        control_for(tag, old_attrs) is Some,
        control_for(tag, new_attrs) is Some,
        own(batch, idx) == attr_patches(tag, idx, old_attrs, new_attrs) + shape_patches(
            tag,
            idx,
            Seq::empty(),
            Seq::empty(),
        ),
    ensures
        patched(wrapped(tag, control_for(tag, old_attrs)->0), idx, batch) == wrapped(
            tag,
            control_for(tag, new_attrs)->0,
        ),
{
    let a = attr_patches(tag, idx, old_attrs, new_attrs);
    let s = shape_patches(tag, idx, Seq::empty(), Seq::empty());
    let w0 = wrapped(tag, control_for(tag, old_attrs)->0);
    lemma_leaf_control(tag, old_attrs);
    assert(batch.take(batch.len() as int) == batch);
    lemma_own_patched(w0, idx, batch, batch.len() as int);
    assert(s =~= Seq::<PatchView>::empty());
    assert(a + s =~= a);
    lemma_attr_patches_settle(tag, idx, old_attrs, new_attrs);
}

/// A batch that agrees with the diff of two elements of the same kind
/// agrees with the diff of a child and its partner at the same position.
pub proof fn lemma_agrees_below(
    tag: WidgetView,
    old_attrs: Seq<AttributeView>,
    olds: Seq<NodeView>,
    new_attrs: Seq<AttributeView>,
    news: Seq<NodeView>,
    idx: nat,
    batch: Seq<PatchView>,
    i: int,
)
    requires
        editable(olds, news),
        0 <= i < olds.len(),
        partner(olds, news, i) == Some(i),
        agrees_on(
            batch,
            NodeView::Element { tag, attrs: old_attrs, children: olds },
            NodeView::Element { tag, attrs: new_attrs, children: news },
            idx,
        ),
    ensures
        agrees_on(batch, olds[i], news[i], idx + 1 + count_all(olds.take(i))),
{
    let here = idx + 1 + count_all(olds.take(i));
    lemma_count_all_step(olds, i);
    crate::node::lemma_count_all_prefix(olds, i + 1);
    assert forall|x: nat| here <= x < here + count(olds[i]) implies #[trigger] own(batch, x)
        == own(diff_at(olds[i], news[i], here), x) by {
        lemma_own_below(tag, old_attrs, olds, new_attrs, news, idx, i, x);
    }
}

/// The round trip for two containers of the same kind.
pub proof fn lemma_round_trip_container(
    tag: WidgetView,
    old_attrs: Seq<AttributeView>,
    olds: Seq<NodeView>,
    new_attrs: Seq<AttributeView>,
    news: Seq<NodeView>,
    idx: nat,
    batch: Seq<PatchView>,
)
    requires
        is_container_tag(tag),
        editable(olds, news),
        built_all(olds) is Some,
        built_all(news) is Some,
        settled(
            NodeView::Element { tag, attrs: old_attrs, children: olds },
            NodeView::Element { tag, attrs: new_attrs, children: news },
        ),
        agrees_on(
            batch,
            NodeView::Element { tag, attrs: old_attrs, children: olds },
            NodeView::Element { tag, attrs: new_attrs, children: news },
            idx,
        ),
    ensures
        patched(
            NativeView { control: control_for(tag, old_attrs)->0, children: built_all(olds)->0 },
            idx,
            batch,
        ) == (NativeView {
            control: control_for(tag, new_attrs)->0,
            children: built_all(news)->0,
        }),
    decreases olds, 0int,
{
    let old_node = NodeView::Element { tag, attrs: old_attrs, children: olds };
    let new_node = NodeView::Element { tag, attrs: new_attrs, children: news };
    let ws_old = built_all(olds)->0;
    let ws_new = built_all(news)->0;
    lemma_built_all_len(olds);
    lemma_built_all_len(news);
    let held = patched_each(ws_old, ws_old.len() as int, idx + 1, batch);
    lemma_patched_each_len(ws_old, ws_old.len() as int, idx + 1, batch);
    let m = kept(olds, news);
    assert(in_place(olds, news)) by {
        reveal(editable);
    }
    lemma_in_place_extra(olds, news);
    assert forall|i: int| 0 <= i < m implies #[trigger] held[i] == ws_new[i] by {
        let here = idx + 1 + count_all(olds.take(i));
        lemma_patched_each_index(ws_old, ws_old.len() as int, idx + 1, batch, i);
        lemma_agreement_in(olds, i, idx + 1, 0);
        lemma_built_all_each(olds, i);
        lemma_built_all_each(news, i);
        assert(settled(olds[i], news[i]));
        lemma_agrees_below(tag, old_attrs, olds, new_attrs, news, idx, batch, i);
        lemma_round_trip_at(olds[i], news[i], here, batch);
    }
    assert(own(batch, idx) == own(diff_at(old_node, new_node, idx), idx)) by {
        assert(count(old_node) >= 1);
    }
    lemma_own_root(tag, old_attrs, olds, new_attrs, news, idx);
    lemma_container_settles(tag, old_attrs, olds, new_attrs, news, idx, batch, held);
    crate::agreement::lemma_container_control(tag, old_attrs);
}

/// Whether two nodes are edited in place: two elements of the same kind
/// whose children allow it.
pub open spec fn edited_in_place(old_node: NodeView, new_node: NodeView) -> bool {
    &&& old_node is Element
    &&& new_node is Element
    &&& old_node->tag == new_node->tag
    &&& editable(old_node->children, new_node->children)
}

/// Two nodes that are not edited in place and are not the same text have
/// a single `Replace` for their diff.
pub proof fn lemma_diff_replaces(old_node: NodeView, new_node: NodeView, idx: nat)
    requires
        !edited_in_place(old_node, new_node),
        !(old_node is Text && old_node == new_node),
    ensures
        diff_at(old_node, new_node, idx) == seq![PatchView::Replace(idx, new_node)],
{
}

/// The round trip for two elements that are edited in place.
pub proof fn lemma_round_trip_edited(
    tag: WidgetView,
    old_attrs: Seq<AttributeView>,
    olds: Seq<NodeView>,
    new_attrs: Seq<AttributeView>,
    news: Seq<NodeView>,
    idx: nat,
    batch: Seq<PatchView>,
)
    requires
        editable(olds, news),
        built(NodeView::Element { tag, attrs: old_attrs, children: olds }) is Some,
        built(NodeView::Element { tag, attrs: new_attrs, children: news }) is Some,
        settled(
            NodeView::Element { tag, attrs: old_attrs, children: olds },
            NodeView::Element { tag, attrs: new_attrs, children: news },
        ),
        agrees_on(
            batch,
            NodeView::Element { tag, attrs: old_attrs, children: olds },
            NodeView::Element { tag, attrs: new_attrs, children: news },
            idx,
        ),
    ensures
        patched(
            built(NodeView::Element { tag, attrs: old_attrs, children: olds })->0,
            idx,
            batch,
        ) == built(NodeView::Element { tag, attrs: new_attrs, children: news })->0,
    decreases olds, 1int,
{
    let old_node = NodeView::Element { tag, attrs: old_attrs, children: olds };
    let new_node = NodeView::Element { tag, attrs: new_attrs, children: news };
    if is_container_tag(tag) {
        lemma_round_trip_container(tag, old_attrs, olds, new_attrs, news, idx, batch);
    } else {
        assert(own(batch, idx) == own(diff_at(old_node, new_node, idx), idx)) by {
            assert(count(old_node) >= 1);
        }
        lemma_own_root(tag, old_attrs, olds, new_attrs, news, idx);
        assert(olds =~= Seq::<NodeView>::empty());
        assert(news =~= Seq::<NodeView>::empty());
        lemma_leaf_settles(tag, old_attrs, new_attrs, idx, batch);
    }
}

/// Applying a batch that agrees with the diff of two trees on the numbers
/// of the old tree, to the widgets built from the old tree, gives the
/// widgets built from the new tree.
pub proof fn lemma_round_trip_at(
    old_node: NodeView,
    new_node: NodeView,
    idx: nat,
    batch: Seq<PatchView>,
)
    requires
        built(old_node) is Some,
        built(new_node) is Some,
        settled(old_node, new_node),
        agrees_on(batch, old_node, new_node, idx),
    ensures
        patched(built(old_node)->0, idx, batch) == built(new_node)->0,
    decreases old_node, 2int,
{
    let w0 = built(old_node)->0;
    assert(own(batch, idx) == own(diff_at(old_node, new_node, idx), idx)) by {
        assert(count(old_node) >= 1);
    }
    if edited_in_place(old_node, new_node) {
        lemma_round_trip_edited(
            old_node->tag,
            old_node->attrs,
            old_node->children,
            new_node->attrs,
            new_node->children,
            idx,
            batch,
        );
    } else if old_node is Text && old_node == new_node {
        lemma_unpatched(w0, idx, batch);
    } else {
        lemma_diff_replaces(old_node, new_node, idx);
        lemma_own_replace(new_node, idx);
        lemma_replaced(w0, new_node, idx, batch);
    }
}

/// A batch without a patch for a widget that is no container leaves it
/// as it is.
pub proof fn lemma_unpatched(widget: NativeView, idx: nat, batch: Seq<PatchView>)
    requires
        !is_container(widget.control),
        own(batch, idx) == own(Seq::empty(), idx),
    ensures
        patched(widget, idx, batch) == widget,
{
    assert(batch.take(batch.len() as int) == batch);
    lemma_own_patched(widget, idx, batch, batch.len() as int);
    lemma_filter_none(Seq::<PatchView>::empty(), aims_at(idx));
}

/// A batch whose one patch for a widget is a `Replace` puts the widgets
/// built from the replacement in the place of the widget, whatever it is.
pub proof fn lemma_replaced(widget: NativeView, new_node: NodeView, idx: nat, batch: Seq<PatchView>)
    requires
        built(new_node) is Some,
        own(batch, idx) == seq![PatchView::Replace(idx, new_node)],
    ensures
        patched(widget, idx, batch) == built(new_node)->0,
{
    let held = if is_container(widget.control) {
        patched_each(widget.children, widget.children.len() as int, idx + 1, batch)
    } else {
        widget.children
    };
    let w1 = NativeView { control: widget.control, children: held };
    assert(batch.take(batch.len() as int) == batch);
    lemma_own_patched(w1, idx, batch, batch.len() as int);
    lemma_run_one(w1, PatchView::Replace(idx, new_node));
}

/// The patches of a single `Replace` that target its number are the
/// `Replace`.
pub proof fn lemma_own_replace(new_node: NodeView, idx: nat)
    ensures
        own(seq![PatchView::Replace(idx, new_node)], idx) == seq![
            PatchView::Replace(idx, new_node),
        ],
{
    lemma_filter_all(seq![PatchView::Replace(idx, new_node)], aims_at(idx));
}

/// Whether no child anywhere in a tree carries a key.
pub open spec fn positional(node: NodeView) -> bool
    decreases node,
{
    match node {
        NodeView::Element { children, .. } => {
            &&& unkeyed(children)
            &&& forall|i: int| 0 <= i < children.len() ==> positional(#[trigger] children[i])
        },
        NodeView::Text(_) => true,
    }
}

/// Where no child anywhere in two trees carries a key, the children that
/// stay stay in place, so the round trip holds of the two trees.
pub proof fn lemma_positional_settled(old_node: NodeView, new_node: NodeView)
    requires
        positional(old_node),
        positional(new_node),
    ensures
        settled(old_node, new_node),
    decreases old_node,
{
    match (old_node, new_node) {
        (
            NodeView::Element { tag: old_tag, children: olds, .. },
            NodeView::Element { tag: new_tag, children: news, .. },
        ) => {
            if old_tag == new_tag {
                lemma_unkeyed_in_place(olds, news);
                assert forall|i: int| 0 <= i < kept(olds, news) && i < olds.len() implies settled(
                    #[trigger] olds[i],
                    news[i],
                ) by {
                    lemma_positional_settled(olds[i], news[i]);
                }
            }
        },
        _ => {},
    }
}

/// Applying the diff of two trees to the widgets built from the old tree
/// gives the widgets built from the new tree, and every patch is applied.
///
/// This holds of trees that can be built, where no element that is
/// edited in place has its children in another order than before. An
/// element is edited in place where its children that stay stay in place,
/// and there the round trip holds. It is also edited in place where all
/// its children have partners, which keeps a reordering from replacing
/// anything; and since no patch moves a widget, the widgets of children
/// that changed places are then edited where they stood.
pub proof fn lemma_round_trip(old_tree: NodeView, new_tree: NodeView)
    requires
        built(old_tree) is Some,
        built(new_tree) is Some,
        settled(old_tree, new_tree),
    ensures
        applied(built(old_tree)->0, diff_spec(old_tree, new_tree)) == built(new_tree)->0,
        outcome(built(old_tree)->0, diff_spec(old_tree, new_tree)) == Ok::<
            (),
            crate::apply::ApplyError,
        >(()),
{
    let d = diff_spec(old_tree, new_tree);
    lemma_diff_passes(old_tree, new_tree);
    lemma_all_admitted(d, built(old_tree)->0, d.len() as int);
    assert(d.take(d.len() as int) == d);
    lemma_round_trip_at(old_tree, new_tree, 0, d);
}

/// Applying the diff of two trees in which no child carries a key to the
/// widgets built from the old tree gives the widgets built from the new
/// tree, and every patch is applied.
pub proof fn lemma_round_trip_positional(old_tree: NodeView, new_tree: NodeView)
    requires
        built(old_tree) is Some,
        built(new_tree) is Some,
        positional(old_tree),
        positional(new_tree),
    ensures
        applied(built(old_tree)->0, diff_spec(old_tree, new_tree)) == built(new_tree)->0,
        outcome(built(old_tree)->0, diff_spec(old_tree, new_tree)) == Ok::<
            (),
            crate::apply::ApplyError,
        >(()),
{
    lemma_positional_settled(old_tree, new_tree);
    lemma_round_trip(old_tree, new_tree);
}

} // verus!
