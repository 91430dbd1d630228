//! Computing the patches that turn one virtual tree into another.
//!
//! Nodes are numbered in pre-order over the old tree: the root is 0 and
//! every node, element or text, takes the next number before its children
//! do. Every patch targets a node of the old tree by that number.
//!
//! The children of two elements of the same kind are matched by key: an
//! old child and a new child are partners where they carry the same key
//! and as many earlier siblings of each carry it too. Children without a
//! key are partners by their rank among the children without one, so
//! where no child carries a key the children are paired by position. A
//! pair of partners is diffed, even where the two are of different kinds,
//! which gives a `Replace`. The patches of a pair target the old child
//! where it stands: no patch moves a widget.
//!
//! Patches can drop children from the end only, and append at the end
//! only. So an element is edited in place in two cases. One is that the
//! children that stay stay in place: the old children that have a partner
//! are the first ones, each with the new child at its own position. The
//! other is that every child on both sides has a partner, so that nothing
//! is dropped or appended and only the order of the children may differ;
//! then each child is edited where it stands, and the order of the
//! widgets is left as it is. In every other case, as where a child that
//! is not the last one goes, the element is replaced as a whole.
//!
//! An attribute is compared by key, with what the key is set to in each
//! list; where a list sets a key more than once the last attribute
//! counts. An attribute that sets nothing, a callback under the key of a
//! value or a literal under the key of an event, is in no patch.
use vstd::prelude::*;
use crate::node::{
    count, count_all, key_of, lemma_child_is_smaller, lemma_count_all_prefix, lemma_count_all_step,
    lemma_element_view, node_key, nodes_view, Element, Node, NodeView,
};
use crate::patch::{patches_view, Patch, PatchView};
use crate::value::{
    attrs_view, find_attribute, lookup, sets_key, AttribKey, Attribute, AttributeView, Value, ValueView,
};
use crate::widget::{Widget, WidgetView};

verus! {

/// Holds of an attribute that sets a key that is set differently in
/// `old_attrs` than in `new_attrs`.
pub open spec fn is_changed(
    old_attrs: Seq<AttributeView>,
    new_attrs: Seq<AttributeView>,
) -> spec_fn(AttributeView) -> bool {
    |a: AttributeView| sets_key(a) && lookup(old_attrs, a.name) != lookup(new_attrs, a.name)
}

/// Holds of an attribute that sets a key that `attrs` does not set.
pub open spec fn is_unset(attrs: Seq<AttributeView>) -> spec_fn(AttributeView) -> bool {
    |a: AttributeView| sets_key(a) && lookup(attrs, a.name) is None
}

/// The attributes to set: those of `new_attrs`, in order, that set a key
/// that is set differently than in `old_attrs`.
pub open spec fn added_attrs(
    old_attrs: Seq<AttributeView>,
    new_attrs: Seq<AttributeView>,
) -> Seq<AttributeView> {
    new_attrs.filter(is_changed(old_attrs, new_attrs))
}

/// The keys to clear: those that attributes of `old_attrs` set, in
/// order, and that `new_attrs` does not set.
pub open spec fn removed_keys(
    old_attrs: Seq<AttributeView>,
    new_attrs: Seq<AttributeView>,
) -> Seq<AttribKey> {
    old_attrs.filter(is_unset(new_attrs)).map_values(|a: AttributeView| a.name)
}

/// The attribute patches for one element: at most one `AddAttributes`,
/// then at most one `RemoveAttributes`; neither is emitted empty.
pub open spec fn attr_patches(
    tag: WidgetView,
    idx: nat,
    old_attrs: Seq<AttributeView>,
    new_attrs: Seq<AttributeView>,
) -> Seq<PatchView> {
    let add = added_attrs(old_attrs, new_attrs);
    let remove = removed_keys(old_attrs, new_attrs);
    let first = if add.len() > 0 {
        seq![PatchView::AddAttributes(tag, idx, add)]
    } else {
        Seq::empty()
    };
    let second = if remove.len() > 0 {
        seq![PatchView::RemoveAttributes(tag, idx, remove)]
    } else {
        Seq::empty()
    };
    first + second
}

/// Whether `key` is set to the same thing in both lists.
fn same_setting(key: AttribKey, a: &Vec<Attribute>, b: &Vec<Attribute>) -> (r: bool)
    ensures
        r == (lookup(attrs_view(a@), key) == lookup(attrs_view(b@), key)),
{
    match (find_attribute(key, a), find_attribute(key, b)) {
        (None, None) => true,
        (Some(x), Some(y)) => x.value.same(&y.value),
        _ => false,
    }
}

/// Appends to `patches` the attribute patches that turn `old_attrs` into
/// `new_attrs` on the element numbered `idx`.
fn diff_attributes(
    tag: &Widget,
    idx: usize,
    old_attrs: &Vec<Attribute>,
    new_attrs: &Vec<Attribute>,
    patches: &mut Vec<Patch>,
)
    ensures
        patches_view(final(patches)@) == patches_view(old(patches)@) + attr_patches(
            tag@,
            idx as nat,
            attrs_view(old_attrs@),
            attrs_view(new_attrs@),
        ),
{
    let ghost olds = attrs_view(old_attrs@);
    let ghost news = attrs_view(new_attrs@);
    let mut add: Vec<Attribute> = Vec::new();
    let mut i: usize = 0;
    proof {
        reveal(Seq::filter);
        assert(news.take(0).filter(is_changed(olds, news)) =~= Seq::<AttributeView>::empty());
        assert(attrs_view(add@) =~= Seq::<AttributeView>::empty());
    }
    while i < new_attrs.len()
        invariant
            i <= new_attrs.len(),
            olds == attrs_view(old_attrs@),
            news == attrs_view(new_attrs@),
            attrs_view(add@) == news.take(i as int).filter(is_changed(olds, news)),
        decreases new_attrs.len() - i,
    {
        let ghost add_before = attrs_view(add@);
        if new_attrs[i].sets_its_key() && !same_setting(new_attrs[i].name, old_attrs, new_attrs) {
            add.push(new_attrs[i].duplicate());
        }
        proof {
            reveal(Seq::filter);
            assert(news.take(i + 1).drop_last() == news.take(i as int));
            assert(news.take(i + 1).last() == news[i as int]);
            assert(news[i as int] == new_attrs@[i as int]@);
            if is_changed(olds, news)(news[i as int]) {
                assert(attrs_view(add@) =~= add_before.push(news[i as int]));
            } else {
                assert(attrs_view(add@) =~= add_before);
            }
        }
        i += 1;
    }
    let mut remove: Vec<AttribKey> = Vec::new();
    let mut k: usize = 0;
    proof {
        reveal(Seq::filter);
        assert(news.take(new_attrs.len() as int) == news);
        assert(olds.take(0).filter(is_unset(news)) =~= Seq::<AttributeView>::empty());
        assert(remove@ =~= olds.take(0).filter(is_unset(news)).map_values(
            |a: AttributeView| a.name,
        ));
    }
    while k < old_attrs.len()
        invariant
            k <= old_attrs.len(),
            olds == attrs_view(old_attrs@),
            news == attrs_view(new_attrs@),
            remove@ == olds.take(k as int).filter(is_unset(news)).map_values(
                |a: AttributeView| a.name,
            ),
        decreases old_attrs.len() - k,
    {
        let ghost remove_before = remove@;
        let gone = old_attrs[k].sets_its_key() && find_attribute(
            old_attrs[k].name,
            new_attrs,
        ).is_none();
        if gone {
            remove.push(old_attrs[k].name);
        }
        proof {
            reveal(Seq::filter);
            assert(olds.take(k + 1).drop_last() == olds.take(k as int));
            assert(olds.take(k + 1).last() == olds[k as int]);
            assert(olds[k as int] == old_attrs@[k as int]@);
            let kept = olds.take(k as int).filter(is_unset(news));
            if is_unset(news)(olds[k as int]) {
                assert(olds.take(k + 1).filter(is_unset(news)) == kept.push(olds[k as int]));
                assert(remove@ =~= kept.push(olds[k as int]).map_values(
                    |a: AttributeView| a.name,
                ));
            } else {
                assert(remove@ =~= remove_before);
            }
        }
        k += 1;
    }
    proof {
        assert(olds.take(old_attrs.len() as int) == olds);
    }
    let ghost base = patches_view(patches@);
    if add.len() > 0 {
        patches.push(Patch::AddAttributes(tag.duplicate(), idx, add));
    }
    if remove.len() > 0 {
        patches.push(Patch::RemoveAttributes(tag.duplicate(), idx, remove));
    }
    proof {
        assert(patches_view(patches@) =~= base + attr_patches(tag@, idx as nat, olds, news));
    }
}

/// Number of the first `n` nodes of `nodes` that carry `key`; with `None`
/// for `key`, the number of those that carry no key.
pub open spec fn occurrences(nodes: Seq<NodeView>, key: Option<ValueView>, n: int) -> nat
    decreases n,
{
    if n <= 0 {
        0
    } else {
        occurrences(nodes, key, n - 1) + if key_of(nodes[n - 1]) == key {
            1nat
        } else {
            0nat
        }
    }
}

/// How many earlier siblings carry the same key as node `i` (or, like it,
/// none).
pub open spec fn rank(nodes: Seq<NodeView>, i: int) -> nat {
    occurrences(nodes, key_of(nodes[i]), i)
}

/// Among the first `n` nodes, the position of the one that carries `key`
/// and has `r` earlier siblings that carry it too.
pub open spec fn nth_with_key(nodes: Seq<NodeView>, key: Option<ValueView>, r: nat, n: int) -> Option<
    int,
>
    decreases n,
{
    if n <= 0 {
        None
    } else if key_of(nodes[n - 1]) == key && occurrences(nodes, key, n - 1) == r {
        Some(n - 1)
    } else {
        nth_with_key(nodes, key, r, n - 1)
    }
}

/// The new child that old child `i` is matched with: the one that carries
/// the same key and has the same rank among the children that do. Children
/// without a key are matched among themselves in the same way, which pairs
/// them by position where no child carries a key.
pub open spec fn partner(olds: Seq<NodeView>, news: Seq<NodeView>, i: int) -> Option<int> {
    nth_with_key(news, key_of(olds[i]), rank(olds, i), news.len() as int)
}

/// Whether new child `j` is matched with an old child.
pub open spec fn has_partner(olds: Seq<NodeView>, news: Seq<NodeView>, j: int) -> bool {
    rank(news, j) < occurrences(olds, key_of(news[j]), olds.len() as int)
}

/// The new children among the first `n` that no old child is matched
/// with, in order.
pub open spec fn unmatched(olds: Seq<NodeView>, news: Seq<NodeView>, n: int) -> Seq<NodeView>
    decreases n,
{
    if n <= 0 {
        Seq::empty()
    } else if has_partner(olds, news, n - 1) {
        unmatched(olds, news, n - 1)
    } else {
        unmatched(olds, news, n - 1).push(news[n - 1])
    }
}

/// How many of the old children's places stay filled: one for each new
/// child that is matched.
pub open spec fn kept(olds: Seq<NodeView>, news: Seq<NodeView>) -> nat {
    (news.len() - unmatched(olds, news, news.len() as int).len()) as nat
}

/// The patches that change how many children an element has: a
/// `TruncateChildren` where fewer places stay filled than the old element
/// has children, then an `AppendChildren` with the unmatched new children
/// where there are any.
pub open spec fn shape_patches(
    tag: WidgetView,
    idx: nat,
    olds: Seq<NodeView>,
    news: Seq<NodeView>,
) -> Seq<PatchView> {
    let extra = unmatched(olds, news, news.len() as int);
    let first = if kept(olds, news) < olds.len() {
        seq![PatchView::TruncateChildren(tag, idx, kept(olds, news))]
    } else {
        Seq::empty()
    };
    let second = if extra.len() > 0 {
        seq![PatchView::AppendChildren(tag, idx, extra)]
    } else {
        Seq::empty()
    };
    first + second
}

/// Whether the children that stay stay in place: the old children that
/// keep their place are the first ones, each matched with the new child
/// at its own position, and every new child after them is unmatched.
pub open spec fn in_place(olds: Seq<NodeView>, news: Seq<NodeView>) -> bool {
    let m = kept(olds, news);
    &&& m <= olds.len()
    &&& forall|i: int| 0 <= i < m ==> partner(olds, news, i) == Some(i)
    &&& forall|j: int| m <= j < news.len() ==> !has_partner(olds, news, j)
}

/// Whether every child on both sides has a partner, so that the new
/// children are the old ones in some order, each perhaps changed.
pub open spec fn all_matched(olds: Seq<NodeView>, news: Seq<NodeView>) -> bool {
    &&& forall|i: int| 0 <= i < olds.len() ==> (#[trigger] partner(olds, news, i)) is Some
    &&& forall|j: int| 0 <= j < news.len() ==> #[trigger] has_partner(olds, news, j)
}

/// Whether an element with children `olds` is edited in place to get one
/// with children `news`: where the children that stay stay in place, and
/// where every child on both sides has a partner.
#[verifier::opaque]
pub open spec fn editable(olds: Seq<NodeView>, news: Seq<NodeView>) -> bool {
    in_place(olds, news) || all_matched(olds, news)
}

/// Whether the new children are the old ones in another order: every
/// child on both sides has a partner, and some child that stays does not
/// stay in place.
pub open spec fn out_of_order(olds: Seq<NodeView>, news: Seq<NodeView>) -> bool {
    all_matched(olds, news) && !in_place(olds, news)
}

/// The patches that turn `old_node`, numbered `idx`, into `new_node`.
///
/// Two elements of the same kind whose children allow it are edited in
/// place: attribute patches, then the patches that change the number of
/// children, then the patches of each matched pair of children, in the
/// order of the old children. Two equal text nodes need nothing. Every
/// other pair is a `Replace`.
pub open spec fn diff_at(old_node: NodeView, new_node: NodeView, idx: nat) -> Seq<PatchView>
    decreases old_node, 0int,
{
    match (old_node, new_node) {
        (
            NodeView::Element { tag: old_tag, attrs: old_attrs, children: olds },
            NodeView::Element { tag: new_tag, attrs: new_attrs, children: news },
        ) => {
            if old_tag == new_tag && editable(olds, news) {
                attr_patches(old_tag, idx, old_attrs, new_attrs) + shape_patches(
                    old_tag,
                    idx,
                    olds,
                    news,
                ) + diff_children(olds, news, olds.len() as int, idx + 1)
            } else {
                seq![PatchView::Replace(idx, new_node)]
            }
        },
        (NodeView::Text(a), NodeView::Text(b)) => {
            if a == b {
                Seq::empty()
            } else {
                seq![PatchView::Replace(idx, new_node)]
            }
        },
        _ => seq![PatchView::Replace(idx, new_node)],
    }
}

/// The patches of the first `n` old children, the first of which is
/// numbered `base`. An old child without a partner contributes none; the
/// numbers of its subtree are skipped.
pub open spec fn diff_children(olds: Seq<NodeView>, news: Seq<NodeView>, n: int, base: nat) -> Seq<
    PatchView,
>
    decreases olds, n,
{
    if n <= 0 || n > olds.len() {
        Seq::empty()
    } else {
        let i = n - 1;
        let here = base + count_all(olds.take(i));
        diff_children(olds, news, i, base) + match partner(olds, news, i) {
            Some(j) => diff_at(olds[i], news[j], here),
            None => Seq::empty(),
        }
    }
}

/// The patches that turn `old_tree` into `new_tree`.
pub open spec fn diff_spec(old_tree: NodeView, new_tree: NodeView) -> Seq<PatchView> {
    diff_at(old_tree, new_tree, 0)
}

/// Model of an optional key.
pub open spec fn key_view(key: Option<&Value>) -> Option<ValueView> {
    match key {
        Some(v) => Some(v@),
        None => None,
    }
}

/// Whether two optional keys are the same.
fn same_key(a: Option<&Value>, b: Option<&Value>) -> (r: bool)
    ensures
        r == (key_view(a) == key_view(b)),
{
    match (a, b) {
        (None, None) => true,
        (Some(x), Some(y)) => x.same(y),
        _ => false,
    }
}

/// Counts the nodes among the first `n` that carry `key`.
fn count_with_key(nodes: &Vec<Node>, key: Option<&Value>, n: usize) -> (r: usize)
    requires
        n <= nodes.len(),
    ensures
        r == occurrences(nodes_view(nodes@), key_view(key), n as int),
        r <= n,
{
    let mut found: usize = 0;
    let mut i: usize = 0;
    while i < n
        invariant
            i <= n <= nodes.len(),
            found <= i,
            found == occurrences(nodes_view(nodes@), key_view(key), i as int),
        decreases n - i,
    {
        if same_key(node_key(&nodes[i]), key) {
            found += 1;
        }
        i += 1;
    }
    found
}

/// The new child that old child `i` is matched with.
fn find_partner(olds: &Vec<Node>, news: &Vec<Node>, i: usize) -> (r: Option<usize>)
    requires
        i < olds.len(),
    ensures
        match partner(nodes_view(olds@), nodes_view(news@), i as int) {
            Some(j) => r == Some(j as usize) && 0 <= j < news.len(),
            None => r is None,
        },
{
    let key = node_key(&olds[i]);
    let wanted = count_with_key(olds, key, i);
    let mut seen = count_with_key(news, key, news.len());
    let mut n: usize = news.len();
    let ghost nv = nodes_view(news@);
    proof {
        assert(nodes_view(olds@)[i as int] == olds@[i as int]@);
        assert(key_view(key) == key_of(nodes_view(olds@)[i as int]));
        assert(wanted == rank(nodes_view(olds@), i as int));
    }
    while n > 0
        invariant
            n <= news.len(),
            nv == nodes_view(news@),
            key_view(key) == key_of(nodes_view(olds@)[i as int]),
            wanted == rank(nodes_view(olds@), i as int),
            seen == occurrences(nv, key_view(key), n as int),
            nth_with_key(nv, key_view(key), wanted as nat, news.len() as int) == nth_with_key(
                nv,
                key_view(key),
                wanted as nat,
                n as int,
            ),
        decreases n,
    {
        n -= 1;
        proof {
            assert(nv[n as int] == news@[n as int]@);
        }
        if same_key(node_key(&news[n]), key) {
            seen -= 1;
            if seen == wanted {
                proof {
                    assert(nth_with_key(nv, key_view(key), wanted as nat, n + 1) == Some(
                        n as int,
                    ));
                }
                return Some(n);
            }
        }
    }
    None
}

/// Whether new child `j` is matched with an old child.
fn is_matched(olds: &Vec<Node>, news: &Vec<Node>, j: usize) -> (r: bool)
    requires
        j < news.len(),
    ensures
        r == has_partner(nodes_view(olds@), nodes_view(news@), j as int),
{
    let key = node_key(&news[j]);
    let earlier = count_with_key(news, key, j);
    let available = count_with_key(olds, key, olds.len());
    earlier < available
}

/// Whether the children that stay stay in place.
fn stays_in_place(olds: &Vec<Node>, news: &Vec<Node>) -> (r: bool)
    ensures
        r == in_place(nodes_view(olds@), nodes_view(news@)),
{
    let ghost ov = nodes_view(olds@);
    let ghost nv = nodes_view(news@);
    let mut extra: usize = 0;
    let mut j: usize = 0;
    while j < news.len()
        invariant
            j <= news.len(),
            ov == nodes_view(olds@),
            nv == nodes_view(news@),
            extra <= j,
            extra == unmatched(ov, nv, j as int).len(),
        decreases news.len() - j,
    {
        if !is_matched(olds, news, j) {
            extra += 1;
        }
        j += 1;
    }
    let m = news.len() - extra;
    if m > olds.len() {
        return false;
    }
    let mut i: usize = 0;
    while i < m
        invariant
            i <= m <= olds.len(),
            ov == nodes_view(olds@),
            nv == nodes_view(news@),
            m == kept(ov, nv),
            forall|k: int| 0 <= k < i ==> partner(ov, nv, k) == Some(k),
        decreases m - i,
    {
        match find_partner(olds, news, i) {
            Some(found) => {
                if found != i {
                    return false;
                }
            },
            None => {
                return false;
            },
        }
        i += 1;
    }
    let mut k: usize = m;
    while k < news.len()
        invariant
            m <= k <= news.len(),
            ov == nodes_view(olds@),
            nv == nodes_view(news@),
            m == kept(ov, nv),
            m <= olds.len(),
            forall|t: int| 0 <= t < m ==> partner(ov, nv, t) == Some(t),
            forall|t: int| m <= t < k ==> !has_partner(ov, nv, t),
        decreases news.len() - k,
    {
        if is_matched(olds, news, k) {
            return false;
        }
        k += 1;
    }
    true
}

/// Whether every child on both sides has a partner.
fn every_child_matched(olds: &Vec<Node>, news: &Vec<Node>) -> (r: bool)
    ensures
        r == all_matched(nodes_view(olds@), nodes_view(news@)),
{
    let ghost ov = nodes_view(olds@);
    let ghost nv = nodes_view(news@);
    let mut i: usize = 0;
    while i < olds.len()
        invariant
            i <= olds.len(),
            ov == nodes_view(olds@),
            nv == nodes_view(news@),
            forall|k: int| 0 <= k < i ==> (#[trigger] partner(ov, nv, k)) is Some,
        decreases olds.len() - i,
    {
        if find_partner(olds, news, i).is_none() {
            return false;
        }
        i += 1;
    }
    let mut j: usize = 0;
    while j < news.len()
        invariant
            j <= news.len(),
            ov == nodes_view(olds@),
            nv == nodes_view(news@),
            forall|k: int| 0 <= k < olds.len() ==> (#[trigger] partner(ov, nv, k)) is Some,
            forall|k: int| 0 <= k < j ==> #[trigger] has_partner(ov, nv, k),
        decreases news.len() - j,
    {
        if !is_matched(olds, news, j) {
            return false;
        }
        j += 1;
    }
    true
}

/// Whether an element with children `olds` is edited in place to get one
/// with children `news`.
pub fn can_edit_in_place(olds: &Vec<Node>, news: &Vec<Node>) -> (r: bool)
    ensures
        r == editable(nodes_view(olds@), nodes_view(news@)),
{
    proof {
        reveal(editable);
    }
    stays_in_place(olds, news) || every_child_matched(olds, news)
}

/// Appends to `patches` the patches that change the number of children of
/// the element numbered `idx`.
fn diff_shape(tag: &Widget, idx: usize, olds: &Vec<Node>, news: &Vec<Node>, patches: &mut Vec<Patch>)
    ensures
        patches_view(final(patches)@) == patches_view(old(patches)@) + shape_patches(
            tag@,
            idx as nat,
            nodes_view(olds@),
            nodes_view(news@),
        ),
{
    let ghost ov = nodes_view(olds@);
    let ghost nv = nodes_view(news@);
    let mut extra: Vec<Node> = Vec::new();
    let mut j: usize = 0;
    proof {
        assert(nodes_view(extra@) =~= unmatched(ov, nv, 0));
    }
    while j < news.len()
        invariant
            j <= news.len(),
            ov == nodes_view(olds@),
            nv == nodes_view(news@),
            extra.len() <= j,
            nodes_view(extra@) == unmatched(ov, nv, j as int),
        decreases news.len() - j,
    {
        let ghost before = nodes_view(extra@);
        if !is_matched(olds, news, j) {
            extra.push(news[j].duplicate());
            proof {
                assert(nodes_view(extra@) =~= before.push(nv[j as int]));
            }
        } else {
            proof {
                assert(nodes_view(extra@) =~= before);
            }
        }
        j += 1;
    }
    let keep = news.len() - extra.len();
    let ghost base = patches_view(patches@);
    if keep < olds.len() {
        patches.push(Patch::TruncateChildren(tag.duplicate(), idx, keep));
    }
    if extra.len() > 0 {
        patches.push(Patch::AppendChildren(tag.duplicate(), idx, extra));
    }
    proof {
        assert(patches_view(patches@) =~= base + shape_patches(tag@, idx as nat, ov, nv));
    }
}

/// Appends to `patches` the patches that turn `old_node`, numbered `idx`,
/// into `new_node`, and returns the number that follows the old subtree.
fn diff_recursive(old_node: &Node, new_node: &Node, idx: usize, patches: &mut Vec<Patch>) -> (next:
    usize)
    requires
        idx + count(old_node@) <= usize::MAX,
    ensures
        next == idx + count(old_node@),
        patches_view(final(patches)@) == patches_view(old(patches)@) + diff_at(
            old_node@,
            new_node@,
            idx as nat,
        ),
    decreases *old_node,
{
    let ghost start = patches_view(patches@);
    match (old_node, new_node) {
        (Node::Element(o), Node::Element(n)) => {
            proof {
                lemma_element_view(*o);
                lemma_element_view(*n);
            }
            if o.tag.same(&n.tag) && can_edit_in_place(&o.children, &n.children) {
                let ghost ov = nodes_view(o.children@);
                let ghost nv = nodes_view(n.children@);
                diff_attributes(&o.tag, idx, &o.attrs, &n.attrs, patches);
                diff_shape(&o.tag, idx, &o.children, &n.children, patches);
                let ghost head = patches_view(patches@);
                let mut cur: usize = idx + 1;
                let mut i: usize = 0;
                proof {
                    assert(ov.take(0) =~= Seq::<NodeView>::empty());
                }
                while i < o.children.len()
                    invariant
                        i <= o.children.len(),
                        *old_node == Node::Element(*o),
                        ov == nodes_view(o.children@),
                        nv == nodes_view(n.children@),
                        idx + 1 + count_all(ov) <= usize::MAX,
                        cur == idx + 1 + count_all(ov.take(i as int)),
                        patches_view(patches@) == head + diff_children(
                            ov,
                            nv,
                            i as int,
                            (idx + 1) as nat,
                        ),
                    decreases o.children.len() - i,
                {
                    proof {
                        lemma_count_all_step(ov, i as int);
                        lemma_count_all_prefix(ov, i + 1);
                        lemma_child_is_smaller(*old_node, i as int);
                    }
                    match find_partner(&o.children, &n.children, i) {
                        Some(j) => {
                            cur = diff_recursive(&o.children[i], &n.children[j], cur, patches);
                        },
                        None => {
                            cur = cur + o.children[i].size();
                        },
                    }
                    i += 1;
                    proof {
                        assert(patches_view(patches@) =~= head + diff_children(
                            ov,
                            nv,
                            i as int,
                            (idx + 1) as nat,
                        ));
                    }
                }
                proof {
                    assert(ov.take(i as int) == ov);
                    assert(patches_view(patches@) =~= start + diff_at(
                        old_node@,
                        new_node@,
                        idx as nat,
                    ));
                }
                return cur;
            }
        },
        (Node::Text(a), Node::Text(b)) => {
            if *a == *b {
                proof {
                    assert(patches_view(patches@) =~= start + diff_at(
                        old_node@,
                        new_node@,
                        idx as nat,
                    ));
                }
                return idx + 1;
            }
        },
        _ => {},
    }
    let size = old_node.size();
    patches.push(Patch::Replace(idx, new_node.duplicate()));
    proof {
        assert(patches_view(patches@) =~= start + diff_at(old_node@, new_node@, idx as nat));
    }
    idx + size
}

/// Computes the patches that turn `old_tree` into `new_tree`.
///
/// The trees are only read. The patches own what they carry.
pub fn diff(old_tree: &Node, new_tree: &Node) -> (patches: Vec<Patch>)
    requires
        count(old_tree@) <= usize::MAX,
    ensures
        patches_view(patches@) == diff_spec(old_tree@, new_tree@),
{
    let mut patches: Vec<Patch> = Vec::new();
    proof {
        assert(patches_view(patches@) =~= Seq::<PatchView>::empty());
    }
    let _ = diff_recursive(old_tree, new_tree, 0, &mut patches);
    proof {
        assert(Seq::<PatchView>::empty() + diff_spec(old_tree@, new_tree@) =~= diff_spec(
            old_tree@,
            new_tree@,
        ));
    }
    patches
}

} // verus!
