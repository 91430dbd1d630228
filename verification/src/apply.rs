//! Applying patches to a native tree.
//!
//! Every patch targets a widget by its number in the tree as it stands
//! before the batch: the targets are resolved first, and a patch then acts
//! on the widget that was resolved for it, whatever has happened to the
//! widgets around it since. So what a batch does to a widget depends only
//! on the patches that target it, in their order, and a patch whose target
//! has been dropped from the tree changes nothing that can be seen.
//!
//! A batch stops at the first patch that cannot be applied to the tree as
//! it stands before the batch: one that targets a number the tree does
//! not hold, or one that sets or clears the attributes of a button, a
//! text area or an SVG image on a widget that is none. Either shows that
//! the tree is not the one the patches were computed for. A patch for
//! any other kind changes nothing on a widget of another kind.
use vstd::prelude::*;
use vstd::std_specs::hash::group_hash_axioms;
use crate::attrs::{
    clear_widget_attributes, lemma_unsuited_unchanged, revised_widget, set_widget_attributes,
    suits, suits_widget, ChangeView,
};
use crate::factory::{build_each, built, built_each, from_node_tree};
use crate::index::{
    find_nodes, follow, is_target, is_way, lemma_locate_range, locate, native_at, path_view,
};
use crate::native::{
    is_container, lemma_held_is_smaller, lemma_native_count_prefix, lemma_native_count_step,
    lemma_native_view, native_count, native_count_all, natives_view, NativeView, NativeWidget,
};
use crate::patch::{patches_view, target, Patch, PatchView};

verus! {

/// What one patch does to the widget it targets.
///
/// Children are appended to and dropped from containers only. Where the
/// replacement cannot be built the widget stays.
pub open spec fn step(widget: NativeView, patch: PatchView) -> NativeView {
    match patch {
        PatchView::AddAttributes(tag, _, attrs) => revised_widget(
            tag,
            widget,
            ChangeView::Assign(attrs),
        ),
        PatchView::RemoveAttributes(tag, _, keys) => revised_widget(
            tag,
            widget,
            ChangeView::Clear(keys),
        ),
        PatchView::AppendChildren(_, _, nodes) => {
            if is_container(widget.control) {
                NativeView {
                    control: widget.control,
                    children: widget.children + built_each(nodes),
                }
            } else {
                widget
            }
        },
        PatchView::TruncateChildren(_, _, keep) => {
            if is_container(widget.control) && keep < widget.children.len() {
                NativeView { control: widget.control, children: widget.children.take(keep as int) }
            } else {
                widget
            }
        },
        PatchView::Replace(_, node) => match built(node) {
            Some(replacement) => replacement,
            None => widget,
        },
    }
}

/// A widget after those of the first `n` patches that target number `at`,
/// in order.
pub open spec fn own_patched(widget: NativeView, at: nat, patches: Seq<PatchView>, n: int) -> NativeView
    decreases n,
{
    if n <= 0 {
        widget
    } else if target(patches[n - 1]) == at {
        step(own_patched(widget, at, patches, n - 1), patches[n - 1])
    } else {
        own_patched(widget, at, patches, n - 1)
    }
}

/// The tree rooted in a widget numbered `at` after a batch of patches:
/// the widgets that a container holds after the batch, then the patches
/// that target the widget itself.
pub open spec fn patched(widget: NativeView, at: nat, patches: Seq<PatchView>) -> NativeView
    decreases widget, 0int,
{
    let held = if is_container(widget.control) {
        patched_each(widget.children, widget.children.len() as int, at + 1, patches)
    } else {
        widget.children
    };
    own_patched(
        NativeView { control: widget.control, children: held },
        at,
        patches,
        patches.len() as int,
    )
}

/// The first `n` widgets of a list, the first of which is numbered
/// `first`, after a batch of patches.
pub open spec fn patched_each(
    widgets: Seq<NativeView>,
    n: int,
    first: nat,
    patches: Seq<PatchView>,
) -> Seq<NativeView>
    decreases widgets, n,
{
    if n <= 0 || n > widgets.len() {
        Seq::empty()
    } else {
        patched_each(widgets, n - 1, first, patches).push(
            patched(widgets[n - 1], first + native_count_all(widgets.take(n - 1)), patches),
        )
    }
}

/// Whether a widget is one that a patch can be applied to: for a patch
/// that sets or clears attributes, one that the kind of the patch sets
/// attributes on.
pub open spec fn patch_suits(widget: NativeView, patch: PatchView) -> bool {
    match patch {
        PatchView::AddAttributes(tag, _, _) => suits(tag, widget),
        PatchView::RemoveAttributes(tag, _, _) => suits(tag, widget),
        _ => true,
    }
}

/// A patch leaves a widget it does not suit as it is.
pub proof fn lemma_unsuited_step(widget: NativeView, patch: PatchView)
    requires
        !patch_suits(widget, patch),
    ensures
        step(widget, patch) == widget,
{
    match patch {
        PatchView::AddAttributes(tag, _, attrs) => {
            lemma_unsuited_unchanged(tag, widget, ChangeView::Assign(attrs));
        },
        PatchView::RemoveAttributes(tag, _, keys) => {
            lemma_unsuited_unchanged(tag, widget, ChangeView::Clear(keys));
        },
        _ => {},
    }
}

/// Whether a widget is one that a patch can be applied to.
pub fn suits_patch(widget: &NativeWidget, patch: &Patch) -> (r: bool)
    ensures
        r == patch_suits(widget@, patch@),
{
    match patch {
        Patch::AddAttributes(tag, _, _) => suits_widget(tag, widget),
        Patch::RemoveAttributes(tag, _, _) => suits_widget(tag, widget),
        _ => true,
    }
}

/// Applies one patch to the widget it targets. The widget is one the
/// patch can be applied to, which [`suits_patch`] tests.
pub fn apply_patch(widget: &mut NativeWidget, patch: &Patch)
    requires
        patch_suits(old(widget)@, patch@),
    ensures
        final(widget)@ == step(old(widget)@, patch@),
{
    proof {
        lemma_native_view(*widget);
    }
    match patch {
        Patch::AddAttributes(tag, _, attrs) => {
            set_widget_attributes(tag, widget, attrs);
        },
        Patch::RemoveAttributes(tag, _, keys) => {
            clear_widget_attributes(tag, widget, keys);
        },
        Patch::AppendChildren(_, _, nodes) => {
            if widget.control.is_structural() {
                let mut more = build_each(nodes);
                let ghost added = natives_view(more@);
                widget.children.append(&mut more);
                proof {
                    lemma_native_view(*widget);
                    assert(widget@.children =~= old(widget)@.children + added);
                }
            }
        },
        Patch::TruncateChildren(_, _, keep) => {
            if widget.control.is_structural() && *keep < widget.children.len() {
                widget.children.truncate(*keep);
                proof {
                    lemma_native_view(*widget);
                    assert(widget@.children =~= old(widget)@.children.take(*keep as int));
                }
            }
        },
        Patch::Replace(_, node) => {
            match from_node_tree(node) {
                Some(replacement) => {
                    *widget = replacement;
                },
                None => {},
            }
        },
    }
}

/// Number of numbered widgets in a native tree.
pub fn native_size(widget: &NativeWidget) -> (r: usize)
    requires
        native_count(widget@) <= usize::MAX,
    ensures
        r == native_count(widget@),
    decreases *widget,
{
    proof {
        lemma_native_view(*widget);
    }
    let mut total: usize = 1;
    if widget.control.is_structural() {
        let ghost held = natives_view(widget.children@);
        let mut i: usize = 0;
        proof {
            assert(held.take(0) =~= Seq::<NativeView>::empty());
        }
        while i < widget.children.len()
            invariant
                i <= widget.children.len(),
                held == natives_view(widget.children@),
                1 + native_count_all(held) <= usize::MAX,
                total == 1 + native_count_all(held.take(i as int)),
            decreases widget.children.len() - i,
        {
            proof {
                lemma_native_count_step(held, i as int);
                lemma_native_count_prefix(held, i + 1);
                lemma_held_is_smaller(*widget, i as int);
            }
            total = total + native_size(&widget.children[i]);
            i += 1;
        }
        proof {
            assert(held.take(i as int) == held);
        }
    }
    total
}

/// Number of numbered widgets in a native tree, or `None` where it does
/// not fit.
pub fn checked_native_size(widget: &NativeWidget) -> (r: Option<usize>)
    ensures
        match r {
            Some(n) => n == native_count(widget@),
            None => native_count(widget@) > usize::MAX,
        },
    decreases *widget,
{
    proof {
        lemma_native_view(*widget);
    }
    let mut total: usize = 1;
    if widget.control.is_structural() {
        let ghost held = natives_view(widget.children@);
        let mut i: usize = 0;
        proof {
            assert(held.take(0) =~= Seq::<NativeView>::empty());
        }
        while i < widget.children.len()
            invariant
                i <= widget.children.len(),
                held == natives_view(widget.children@),
                native_count(widget@) == 1 + native_count_all(held),
                total == 1 + native_count_all(held.take(i as int)),
            decreases widget.children.len() - i,
        {
            proof {
                lemma_native_count_step(held, i as int);
                lemma_native_count_prefix(held, i + 1);
                lemma_held_is_smaller(*widget, i as int);
            }
            match checked_native_size(&widget.children[i]) {
                None => {
                    return None;
                },
                Some(n) => match total.checked_add(n) {
                    None => {
                        return None;
                    },
                    Some(t) => {
                        total = t;
                    },
                },
            }
            i += 1;
        }
        proof {
            assert(held.take(i as int) == held);
        }
    }
    Some(total)
}

/// Applies to the tree rooted in `widget`, numbered `at`, the first
/// `limit` patches of a batch, and returns the number that follows the
/// tree as it stood.
fn apply_recursive(widget: &mut NativeWidget, at: usize, patches: &Vec<Patch>, limit: usize) -> (next:
    usize)
    requires
        limit <= patches.len(),
        at + native_count(old(widget)@) <= usize::MAX,
    ensures
        next == at + native_count(old(widget)@),
        final(widget)@ == patched(old(widget)@, at as nat, patches_view(patches@).take(limit as int)),
    decreases *old(widget),
{
    let ghost batch = patches_view(patches@).take(limit as int);
    let ghost before = old(widget)@;
    proof {
        lemma_native_view(*widget);
    }
    let mut cur: usize = at + 1;
    if widget.control.is_structural() {
        let n = widget.children.len();
        let mut i: usize = 0;
        proof {
            assert(before.children.take(0) =~= Seq::<NativeView>::empty());
        }
        while i < n
            invariant
                i <= n,
                limit <= patches.len(),
                batch == patches_view(patches@).take(limit as int),
                before == old(widget)@,
                before.children == natives_view(old(widget).children@),
                n == widget.children.len(),
                n == old(widget).children.len(),
                widget.control == old(widget).control,
                at + 1 + native_count_all(before.children) <= usize::MAX,
                cur == at + 1 + native_count_all(before.children.take(i as int)),
                forall|j: int| i <= j < n ==> #[trigger] widget.children@[j] == old(widget).children@[j],
                natives_view(widget.children@).take(i as int) == patched_each(
                    before.children,
                    i as int,
                    (at + 1) as nat,
                    batch,
                ),
            decreases n - i,
        {
            proof {
                lemma_native_count_step(before.children, i as int);
                lemma_native_count_prefix(before.children, i + 1);
                lemma_held_is_smaller(*old(widget), i as int);
            }
            let ghost held_before = natives_view(widget.children@);
            let child = &mut widget.children[i];
            cur = apply_recursive(child, cur, patches, limit);
            i += 1;
            proof {
                let held_after = natives_view(widget.children@);
                assert(held_after.take(i as int) =~= held_before.take(i - 1).push(
                    held_after[i - 1],
                ));
            }
        }
        proof {
            assert(before.children.take(n as int) == before.children);
            assert(natives_view(widget.children@).take(n as int) == natives_view(
                widget.children@,
            ));
        }
    }
    proof {
        lemma_native_view(*widget);
    }
    let ghost base = widget@;
    let mut k: usize = 0;
    while k < limit
        invariant
            k <= limit <= patches.len(),
            batch == patches_view(patches@).take(limit as int),
            widget@ == own_patched(base, at as nat, batch, k as int),
        decreases limit - k,
    {
        proof {
            assert(batch[k as int] == patches@[k as int]@);
        }
        if patches[k].node_idx() == at {
            if suits_patch(widget, &patches[k]) {
                apply_patch(widget, &patches[k]);
            } else {
                proof {
                    lemma_unsuited_step(widget@, batch[k as int]);
                }
            }
        }
        k += 1;
    }
    cur
}

/// Why a batch of patches stopped.
#[derive(Debug, Clone, Copy, PartialEq, Eq, Structural)]
pub enum ApplyError {
    /// The patch at position `patch` of the batch targets number `index`,
    /// and the tree holds no widget of that number.
    IndexNotFound { patch: usize, index: usize },
    /// The patch at position `patch` of the batch sets or clears the
    /// attributes of a button, a text area or an SVG image, and the widget
    /// numbered `index` is not one.
    KindMismatch { patch: usize, index: usize },
}

/// Whether a patch can be applied to a tree: the tree holds a widget of
/// the number the patch targets, and the patch suits that widget.
pub open spec fn passes(root: NativeView, patch: PatchView) -> bool {
    match native_at(root, 0, target(patch)) {
        Some(widget) => patch_suits(widget, patch),
        None => false,
    }
}

/// How many of the first `n` patches are applied: those before the first
/// that cannot be applied to the tree as it stands before the batch.
pub open spec fn admitted(patches: Seq<PatchView>, root: NativeView, n: int) -> int
    decreases n,
{
    if n <= 0 {
        0
    } else if admitted(patches, root, n - 1) == n - 1 && passes(root, patches[n - 1]) {
        n
    } else {
        admitted(patches, root, n - 1)
    }
}

/// No patch after one that cannot be applied is applied.
pub proof fn lemma_admitted_stops(patches: Seq<PatchView>, root: NativeView, k: int, n: int)
    requires
        0 <= k < n,
        admitted(patches, root, k) == k,
        !passes(root, patches[k]),
    ensures
        admitted(patches, root, n) == k,
    decreases n - k,
{
    if n > k + 1 {
        lemma_admitted_stops(patches, root, k, n - 1);
    }
}

/// The tree after a batch: the patches up to the first that cannot be
/// applied are applied, and what they did stays.
pub open spec fn applied(root: NativeView, patches: Seq<PatchView>) -> NativeView {
    patched(root, 0, patches.take(admitted(patches, root, patches.len() as int)))
}

/// How a batch ends: well where every patch can be applied, else with
/// the first patch that cannot, and why it cannot.
pub open spec fn outcome(root: NativeView, patches: Seq<PatchView>) -> Result<(), ApplyError> {
    let k = admitted(patches, root, patches.len() as int);
    if k == patches.len() {
        Ok(())
    } else if native_at(root, 0, target(patches[k])) is None {
        Err(ApplyError::IndexNotFound { patch: k as usize, index: target(patches[k]) as usize })
    } else {
        Err(ApplyError::KindMismatch { patch: k as usize, index: target(patches[k]) as usize })
    }
}

/// Applies a batch of patches to the tree rooted in `root`.
///
/// The targets are resolved against the tree as it stands before the
/// batch. The patches are then applied in order up to the first that
/// cannot be applied: one whose target the tree does not hold, or one
/// that sets or clears the attributes of a kind that the widget it
/// targets is not of. Nothing is rolled back.
pub fn apply_patches(root: &mut NativeWidget, patches: &Vec<Patch>) -> (r: Result<(), ApplyError>)
    requires
        native_count(old(root)@) <= usize::MAX,
    ensures
        final(root)@ == applied(old(root)@, patches_view(patches@)),
        r == outcome(old(root)@, patches_view(patches@)),
{
    broadcast use group_hash_axioms;

    let ghost batch = patches_view(patches@);
    let ghost before = root@;
    let nodes_to_patch = find_nodes(root, patches);
    let mut k: usize = 0;
    let mut stopped: Option<ApplyError> = None;
    while k < patches.len() && stopped.is_none()
        invariant
            k <= patches.len(),
            batch == patches_view(patches@),
            before == root@,
            native_count(before) <= usize::MAX,
            forall|idx: usize| #[trigger]
                nodes_to_patch@.contains_key(idx) <==> idx < native_count(before) && is_target(
                    batch,
                    idx as nat,
                ),
            forall|idx: usize|
                nodes_to_patch@.contains_key(idx) ==> Some(
                    path_view((#[trigger] nodes_to_patch@[idx])@),
                ) == locate(before, 0, idx as nat),
            forall|idx: usize|
                nodes_to_patch@.contains_key(idx) ==> is_way(
                    before,
                    path_view((#[trigger] nodes_to_patch@[idx])@),
                ),
            admitted(batch, before, k as int) == k,
            stopped is Some ==> k < patches.len() && !passes(before, batch[k as int])
                && stopped == outcome_at(before, batch, k as int),
        decreases patches.len() - k + if stopped is None { 1int } else { 0int },
    {
        let idx = patches[k].node_idx();
        proof {
            assert(batch[k as int] == patches@[k as int]@);
            lemma_locate_range(before, 0, idx as nat);
        }
        match nodes_to_patch.get(&idx) {
            None => {
                stopped = Some(ApplyError::IndexNotFound { patch: k, index: idx });
            },
            Some(path) => {
                let suited = match follow(root, path) {
                    Some(widget) => suits_patch(widget, &patches[k]),
                    None => false,
                };
                if suited {
                    k += 1;
                } else {
                    stopped = Some(ApplyError::KindMismatch { patch: k, index: idx });
                }
            },
        }
    }
    proof {
        if stopped is Some {
            lemma_admitted_stops(batch, before, k as int, patches.len() as int);
        }
    }
    let _ = apply_recursive(root, 0, patches, k);
    match stopped {
        Some(error) => Err(error),
        None => Ok(()),
    }
}

/// Why the patch at position `k` cannot be applied.
pub open spec fn outcome_at(root: NativeView, patches: Seq<PatchView>, k: int) -> Option<ApplyError> {
    if native_at(root, 0, target(patches[k])) is None {
        Some(ApplyError::IndexNotFound { patch: k as usize, index: target(patches[k]) as usize })
    } else {
        Some(ApplyError::KindMismatch { patch: k as usize, index: target(patches[k]) as usize })
    }
}

} // verus!