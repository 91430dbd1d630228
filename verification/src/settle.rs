//! Attribute patches bring a widget to the state of the new attributes.
use vstd::prelude::*;
use crate::attrs::{revised, ChangeView};
use crate::diff::{added_attrs, is_changed, is_unset, removed_keys};
use crate::factory::control_for;
use crate::value::{lookup, AttribKey, AttribValueView, AttributeView};
use crate::widget::WidgetView;

verus! {

/// What the attributes to set hold for a key: what the new attributes
/// hold for it where that differs from the old, nothing where it is the
/// same.
pub proof fn lemma_added_lookup(
    old_attrs: Seq<AttributeView>,
    new_attrs: Seq<AttributeView>,
    key: AttribKey,
)
    ensures
        lookup(added_attrs(old_attrs, new_attrs), key) == if lookup(old_attrs, key) != lookup(
            new_attrs,
            key,
        ) {
            lookup(new_attrs, key)
        } else {
            None
        },
{
    lemma_filtered_lookup(new_attrs, old_attrs, new_attrs, key);
}

/// Filtering a list by whether keys changed keeps, for a changed key,
/// what the list holds for it, and nothing for any other.
pub proof fn lemma_filtered_lookup(
    attrs: Seq<AttributeView>,
    old_attrs: Seq<AttributeView>,
    new_attrs: Seq<AttributeView>,
    key: AttribKey,
)
    ensures
        lookup(attrs.filter(is_changed(old_attrs, new_attrs)), key) == if lookup(old_attrs, key)
            != lookup(new_attrs, key) {
            lookup(attrs, key)
        } else {
            None
        },
    decreases attrs.len(),
{
    reveal(Seq::filter);
    if attrs.len() > 0 {
        lemma_filtered_lookup(attrs.drop_last(), old_attrs, new_attrs, key);
        let rest = attrs.drop_last().filter(is_changed(old_attrs, new_attrs));
        if is_changed(old_attrs, new_attrs)(attrs.last()) {
            assert(rest.push(attrs.last()).drop_last() == rest);
        }
    }
}

/// The keys of those attributes of a list that the new attributes leave
/// unset are the keys the list sets and the new attributes do not.
pub proof fn lemma_unset_keys(attrs: Seq<AttributeView>, new_attrs: Seq<AttributeView>, key: AttribKey)
    ensures
        attrs.filter(is_unset(new_attrs)).map_values(|a: AttributeView| a.name).contains(key)
            <==> lookup(attrs, key) is Some && lookup(new_attrs, key) is None,
    decreases attrs.len(),
{
    reveal(Seq::filter);
    let names = |a: AttributeView| a.name;
    let keys = attrs.filter(is_unset(new_attrs)).map_values(names);
    if attrs.len() == 0 {
        assert(keys =~= Seq::<AttribKey>::empty());
    } else {
        let rest = attrs.drop_last();
        let last = attrs.last();
        let rest_keys = rest.filter(is_unset(new_attrs)).map_values(names);
        lemma_unset_keys(rest, new_attrs, key);
        if is_unset(new_attrs)(last) {
            assert(keys =~= rest_keys.push(last.name));
            assert(keys.last() == last.name);
            if rest_keys.contains(key) {
                let i = choose|i: int| 0 <= i < rest_keys.len() && rest_keys[i] == key;
                assert(keys[i] == key);
            }
            if keys.contains(key) {
                let i = choose|i: int| 0 <= i < keys.len() && keys[i] == key;
                if i < rest_keys.len() {
                    assert(rest_keys[i] == key);
                }
            }
        } else {
            assert(keys =~= rest_keys);
        }
    }
}

/// The keys to clear are those the old attributes set and the new do not.
pub proof fn lemma_removed_contains(
    old_attrs: Seq<AttributeView>,
    new_attrs: Seq<AttributeView>,
    key: AttribKey,
)
    ensures
        removed_keys(old_attrs, new_attrs).contains(key) <==> lookup(old_attrs, key) is Some
            && lookup(new_attrs, key) is None,
{
    lemma_unset_keys(old_attrs, new_attrs, key);
}

/// What a key is set to after the attribute patches: what the attributes
/// to set hold for it, nothing where it is cleared, and else what it was
/// set to before.
pub open spec fn setting_after(
    old_attrs: Seq<AttributeView>,
    new_attrs: Seq<AttributeView>,
    key: AttribKey,
) -> Option<AttribValueView> {
    if removed_keys(old_attrs, new_attrs).contains(key) {
        None
    } else {
        match lookup(added_attrs(old_attrs, new_attrs), key) {
            Some(v) => Some(v),
            None => lookup(old_attrs, key),
        }
    }
}

/// After the attribute patches every key is set as the new attributes
/// set it, and no key is both set and cleared.
pub proof fn lemma_setting_after(
    old_attrs: Seq<AttributeView>,
    new_attrs: Seq<AttributeView>,
    key: AttribKey,
)
    ensures
        setting_after(old_attrs, new_attrs, key) == lookup(new_attrs, key),
        removed_keys(old_attrs, new_attrs).contains(key) ==> lookup(
            added_attrs(old_attrs, new_attrs),
            key,
        ) is None,
{
    lemma_added_lookup(old_attrs, new_attrs, key);
    lemma_removed_contains(old_attrs, new_attrs, key);
}

/// The control of a widget kind after the attribute patches of a diff is
/// the control of the new attributes.
pub proof fn lemma_control_settles(
    tag: WidgetView,
    old_attrs: Seq<AttributeView>,
    new_attrs: Seq<AttributeView>,
)
    requires
        control_for(tag, old_attrs) is Some,
        control_for(tag, new_attrs) is Some,
    ensures
        revised(
            tag,
            revised(
                tag,
                control_for(tag, old_attrs)->0,
                ChangeView::Assign(added_attrs(old_attrs, new_attrs)),
            ),
            ChangeView::Clear(removed_keys(old_attrs, new_attrs)),
        ) == control_for(tag, new_attrs)->0,
{
    lemma_setting_after(old_attrs, new_attrs, AttribKey::Label);
    lemma_setting_after(old_attrs, new_attrs, AttribKey::Value);
    lemma_setting_after(old_attrs, new_attrs, AttribKey::Data);
    lemma_setting_after(old_attrs, new_attrs, AttribKey::Width);
    lemma_setting_after(old_attrs, new_attrs, AttribKey::Height);
    lemma_setting_after(old_attrs, new_attrs, AttribKey::ClickEvent);
    lemma_setting_after(old_attrs, new_attrs, AttribKey::PixelsWide);
    lemma_setting_after(old_attrs, new_attrs, AttribKey::PixelsHigh);
}

} // verus!
