//! Setting and clearing attributes on a native widget.
//!
//! Which attributes a widget reflects depends on its kind. An attribute a
//! kind does not reflect is ignored, and so is an attribute that sets
//! nothing, such as a callback under the key of a value: what the widget
//! shows for that key stays.
//!
//! Attributes are set on a widget with the kind the widget was built
//! for. A button, a text area and an SVG image are looked for in the
//! widget, and the functions that set and clear take only a widget that
//! holds them; [`suits_widget`] tests it. Every other kind is set on any
//! widget, and changes nothing where the widget is of another kind.
use vstd::prelude::*;
use crate::factory::{
    bytes_of, extent_of, flag_of, markup_from, markup_of, pixels_of,
    text_or_empty,
};
use crate::native::{extent_view, lemma_native_view, Control, ControlView, NativeView, NativeWidget};
use crate::value::{
    attrs_view, copy_bytes, find_attribute, lookup, AttribKey, AttribValue, AttribValueView,
    Attribute, AttributeView, Value, ValueView,
};
use crate::widget::{Widget, WidgetView};

verus! {

/// A change to the attributes of one widget: a list of attributes to set,
/// or a list of keys to clear.
pub enum Change<'a> {
    Assign(&'a Vec<Attribute>),
    Clear(&'a Vec<AttribKey>),
}

/// Mathematical model of a [`Change`].
pub enum ChangeView {
    Assign(Seq<AttributeView>),
    Clear(Seq<AttribKey>),
}

impl<'a> View for Change<'a> {
    type V = ChangeView;

    open spec fn view(&self) -> ChangeView {
        match self {
            Change::Assign(attrs) => ChangeView::Assign(attrs_view(attrs@)),
            Change::Clear(keys) => ChangeView::Clear(keys@),
        }
    }
}

/// What a change does to `key`: `None` where it leaves the key alone,
/// `Some(None)` where it clears it, `Some(Some(v))` where it sets it to
/// `v`. Where a list sets a key more than once the last setting counts.
pub open spec fn touched(change: ChangeView, key: AttribKey) -> Option<Option<AttribValueView>> {
    match change {
        ChangeView::Assign(attrs) => match lookup(attrs, key) {
            Some(v) => Some(Some(v)),
            None => None,
        },
        ChangeView::Clear(keys) => if keys.contains(key) {
            Some(None)
        } else {
            None
        },
    }
}

/// The literal in a setting, if it holds one.
pub open spec fn literal_in(setting: Option<AttribValueView>) -> Option<ValueView> {
    match setting {
        Some(AttribValueView::Value(v)) => Some(v),
        _ => None,
    }
}

/// The callback handle in a setting, if it holds one.
pub open spec fn callback_in(setting: Option<AttribValueView>) -> Option<u64> {
    match setting {
        Some(AttribValueView::Callback(c)) => Some(c),
        _ => None,
    }
}

/// A text after a change to the key it reflects.
pub open spec fn text_after(current: Seq<char>, change: ChangeView, key: AttribKey) -> Seq<char> {
    match touched(change, key) {
        Some(setting) => text_or_empty(literal_in(setting)),
        None => current,
    }
}

/// A flag after a change to the key it reflects.
pub open spec fn flag_after(current: bool, change: ChangeView, key: AttribKey) -> bool {
    match touched(change, key) {
        Some(setting) => flag_of(literal_in(setting)),
        None => current,
    }
}

/// An extent after a change to the key it reflects.
pub open spec fn extent_after(current: Option<int>, change: ChangeView, key: AttribKey) -> Option<
    int,
> {
    match touched(change, key) {
        Some(setting) => extent_of(literal_in(setting)),
        None => current,
    }
}

/// A callback after a change to the key it reflects.
pub open spec fn callback_after(current: Option<u64>, change: ChangeView, key: AttribKey) -> Option<
    u64,
> {
    match touched(change, key) {
        Some(setting) => callback_in(setting),
        None => current,
    }
}

/// The image data a change brings, where it touches the data.
pub open spec fn data_brought(change: ChangeView) -> Option<Seq<u8>> {
    match touched(change, AttribKey::Data) {
        Some(setting) => Some(bytes_of(literal_in(setting))),
        None => None,
    }
}

/// A pixel count after a change to the key it reflects; `None` where the
/// change leaves the key without a count.
pub open spec fn pixels_after(current: u32, change: ChangeView, key: AttribKey) -> Option<u32> {
    match touched(change, key) {
        Some(setting) => pixels_of(literal_in(setting)),
        None => Some(current),
    }
}

/// Image data after a change.
pub open spec fn data_after(current: Seq<u8>, change: ChangeView) -> Seq<u8> {
    match data_brought(change) {
        Some(data) => data,
        None => current,
    }
}

/// A control after a change. A widget kind that does not suit the
/// control, and a key the kind does not reflect, change nothing. A change
/// that would leave an image without the size of its picture leaves the
/// image as it was.
pub open spec fn revised(tag: WidgetView, control: ControlView, change: ChangeView) -> ControlView {
    match (tag, control) {
        (WidgetView::Button, ControlView::Button { label, on_click }) => ControlView::Button {
            label: text_after(label, change, AttribKey::Label),
            on_click: callback_after(on_click, change, AttribKey::ClickEvent),
        },
        (WidgetView::Paragraph, ControlView::TextArea { value, width, height }) => {
            ControlView::TextArea {
                value: text_after(value, change, AttribKey::Value),
                width,
                height,
            }
        },
        (WidgetView::TextInput, ControlView::TextInput { value }) => ControlView::TextInput {
            value: text_after(value, change, AttribKey::Value),
        },
        (WidgetView::Checkbox, ControlView::Checkbox { label, checked }) => {
            ControlView::Checkbox {
                label: text_after(label, change, AttribKey::Label),
                checked: flag_after(checked, change, AttribKey::Value),
            }
        },
        (WidgetView::Radio, ControlView::Radio { label, checked }) => ControlView::Radio {
            label: text_after(label, change, AttribKey::Label),
            checked: flag_after(checked, change, AttribKey::Value),
        },
        (WidgetView::Image, ControlView::Image { data, pixels_wide, pixels_high }) => match (
            pixels_after(pixels_wide, change, AttribKey::PixelsWide),
            pixels_after(pixels_high, change, AttribKey::PixelsHigh),
        ) {
            (Some(width), Some(height)) => ControlView::Image {
                data: data_after(data, change),
                pixels_wide: width,
                pixels_high: height,
            },
            _ => control,
        },
        (WidgetView::Svg, ControlView::Svg { markup }) => ControlView::Svg {
            markup: match data_brought(change) {
                Some(data) => markup_of(data),
                None => markup,
            },
        },
        (WidgetView::TextArea, ControlView::TextArea { value, width, height }) => {
            ControlView::TextArea {
                value: text_after(value, change, AttribKey::Value),
                width: extent_after(width, change, AttribKey::Width),
                height: extent_after(height, change, AttribKey::Height),
            }
        },
        _ => control,
    }
}

/// A widget with another control in place of its own.
pub open spec fn with_control(widget: NativeView, control: ControlView) -> NativeView {
    NativeView { control, children: widget.children }
}

/// A widget after a change. A text area is reached through its scroll
/// wrapper, an SVG image through its scroll wrapper and viewport; a widget
/// that lacks the wrappers its kind calls for is left as it is.
pub open spec fn revised_widget(tag: WidgetView, widget: NativeView, change: ChangeView) -> NativeView {
    match tag {
        WidgetView::TextArea => {
            if widget.control is Scrolled && widget.children.len() > 0 {
                let inner = widget.children[0];
                NativeView {
                    control: widget.control,
                    children: widget.children.update(
                        0,
                        with_control(inner, revised(tag, inner.control, change)),
                    ),
                }
            } else {
                widget
            }
        },
        WidgetView::Svg => {
            if widget.control is Scrolled && widget.children.len() > 0
                && widget.children[0].control is Viewport && widget.children[0].children.len()
                > 0 {
                let port = widget.children[0];
                let inner = port.children[0];
                NativeView {
                    control: widget.control,
                    children: widget.children.update(
                        0,
                        NativeView {
                            control: port.control,
                            children: port.children.update(
                                0,
                                with_control(inner, revised(tag, inner.control, change)),
                            ),
                        },
                    ),
                }
            } else {
                widget
            }
        },
        _ => with_control(widget, revised(tag, widget.control, change)),
    }
}

/// Whether a control is one that a widget kind sets attributes on. A
/// button, a text area and an SVG image are looked for in the widget, and
/// have to be there. Every other kind suits every control: where the
/// control is not the kind's own, nothing of it is changed.
pub open spec fn kind_suits(tag: WidgetView, control: ControlView) -> bool {
    match tag {
        WidgetView::Button => control is Button,
        WidgetView::Svg => control is Svg,
        WidgetView::TextArea => control is TextArea,
        _ => true,
    }
}

/// Whether a widget is one that a widget kind sets attributes on: the
/// control of the kind, inside the wrappers the kind calls for.
pub open spec fn suits(tag: WidgetView, widget: NativeView) -> bool {
    match tag {
        WidgetView::TextArea => {
            &&& widget.control is Scrolled
            &&& widget.children.len() > 0
            &&& kind_suits(tag, widget.children[0].control)
        },
        WidgetView::Svg => {
            &&& widget.control is Scrolled
            &&& widget.children.len() > 0
            &&& widget.children[0].control is Viewport
            &&& widget.children[0].children.len() > 0
            &&& kind_suits(tag, widget.children[0].children[0].control)
        },
        _ => kind_suits(tag, widget.control),
    }
}

/// A change of attributes leaves a widget that does not suit the kind as
/// it is.
pub proof fn lemma_unsuited_unchanged(tag: WidgetView, widget: NativeView, change: ChangeView)
    requires
        !suits(tag, widget),
    ensures
        revised_widget(tag, widget, change) == widget,
{
    let r = revised_widget(tag, widget, change);
    match tag {
        WidgetView::TextArea => {
            assert(r.children =~= widget.children);
        },
        WidgetView::Svg => {
            if widget.control is Scrolled && widget.children.len() > 0
                && widget.children[0].control is Viewport && widget.children[0].children.len()
                > 0 {
                assert(r.children[0].children =~= widget.children[0].children);
            }
            assert(r.children =~= widget.children);
        },
        _ => {},
    }
}

/// Model of what a change does to a key, as the executable code holds it.
pub open spec fn setting_view(setting: Option<Option<&AttribValue>>) -> Option<
    Option<AttribValueView>,
> {
    match setting {
        Some(Some(v)) => Some(Some(v@)),
        Some(None) => Some(None),
        None => None,
    }
}

impl<'a> Change<'a> {
    /// What this change does to `key`.
    pub fn setting(&self, key: AttribKey) -> (r: Option<Option<&'a AttribValue>>)
        ensures
            setting_view(r) == touched(self@, key),
    {
        match self {
            Change::Assign(attrs) => match find_attribute(key, attrs) {
                Some(a) => Some(Some(&a.value)),
                None => None,
            },
            Change::Clear(keys) => {
                let mut i: usize = 0;
                while i < keys.len()
                    invariant
                        i <= keys.len(),
                        self@ == ChangeView::Clear(keys@),
                        forall|j: int| 0 <= j < i ==> keys@[j] != key,
                    decreases keys.len() - i,
                {
                    if keys[i] == key {
                        assert(keys@[i as int] == key);
                        return Some(None);
                    }
                    i += 1;
                }
                None
            },
        }
    }
}

/// The literal in a setting, if it holds one.
fn literal_of<'a>(setting: Option<&'a AttribValue>) -> (r: Option<&'a Value>)
    ensures
        match literal_in(setting_view(Some(setting))->0) {
            Some(v) => r is Some && r->0@ == v,
            None => r is None,
        },
{
    match setting {
        Some(AttribValue::Value(v)) => Some(v),
        _ => None,
    }
}

/// Brings a text up to date with a change to the key it reflects.
fn revise_text(current: &mut String, change: &Change, key: AttribKey)
    ensures
        final(current)@ == text_after(old(current)@, change@, key),
{
    match change.setting(key) {
        Some(setting) => {
            *current = match literal_of(setting) {
                Some(v) => v.to_text(),
                None => String::new(),
            };
        },
        None => {},
    }
}

/// Brings a flag up to date with a change to the key it reflects.
fn revise_flag(current: &mut bool, change: &Change, key: AttribKey)
    ensures
        *final(current) == flag_after(*old(current), change@, key),
{
    match change.setting(key) {
        Some(setting) => {
            *current = match literal_of(setting) {
                Some(Value::Bool(b)) => *b,
                _ => false,
            };
        },
        None => {},
    }
}

/// Brings an extent up to date with a change to the key it reflects.
fn revise_extent(current: &mut Option<i64>, change: &Change, key: AttribKey)
    ensures
        extent_view(*final(current)) == extent_after(extent_view(*old(current)), change@, key),
{
    match change.setting(key) {
        Some(setting) => {
            *current = match literal_of(setting) {
                Some(Value::Int(i)) => Some(*i),
                _ => None,
            };
        },
        None => {},
    }
}

/// Brings a callback up to date with a change to the key it reflects.
fn revise_callback(current: &mut Option<u64>, change: &Change, key: AttribKey)
    ensures
        *final(current) == callback_after(*old(current), change@, key),
{
    match change.setting(key) {
        Some(setting) => {
            *current = match setting {
                Some(AttribValue::Callback(c)) => Some(*c),
                _ => None,
            };
        },
        None => {},
    }
}

/// The image data a change brings, where it touches the data.
pub fn bring_data(change: &Change) -> (r: Option<Vec<u8>>)
    ensures
        match data_brought(change@) {
            Some(data) => r is Some && r->0@ == data,
            None => r is None,
        },
{
    match change.setting(AttribKey::Data) {
        Some(setting) => match literal_of(setting) {
            Some(Value::Bytes(b)) => Some(copy_bytes(b)),
            _ => Some(Vec::new()),
        },
        None => None,
    }
}

/// The pixel count a change leaves a key with, given the count so far.
fn revise_pixels(current: u32, change: &Change, key: AttribKey) -> (r: Option<u32>)
    ensures
        r == pixels_after(current, change@, key),
{
    match change.setting(key) {
        Some(setting) => match literal_of(setting) {
            Some(Value::Int(i)) => {
                if 0 <= *i && *i <= 0xffff_ffff {
                    Some(*i as u32)
                } else {
                    None
                }
            },
            _ => None,
        },
        None => Some(current),
    }
}

/// Whether a control is one that a widget kind sets attributes on.
pub fn kind_suits_control(tag: &Widget, control: &Control) -> (r: bool)
    ensures
        r == kind_suits(tag@, control@),
{
    match (tag, control) {
        (Widget::Button, Control::Button { .. }) => true,
        (Widget::Button, _) => false,
        (Widget::Svg, Control::Svg { .. }) => true,
        (Widget::Svg, _) => false,
        (Widget::TextArea, Control::TextArea { .. }) => true,
        (Widget::TextArea, _) => false,
        _ => true,
    }
}

/// Whether a widget is one that a widget kind sets attributes on.
pub fn suits_widget(tag: &Widget, widget: &NativeWidget) -> (r: bool)
    ensures
        r == suits(tag@, widget@),
{
    proof {
        lemma_native_view(*widget);
    }
    match tag {
        Widget::TextArea => {
            let scrolled = match widget.control {
                Control::Scrolled => true,
                _ => false,
            };
            if scrolled && widget.children.len() > 0 {
                proof {
                    lemma_native_view(widget.children@[0]);
                }
                kind_suits_control(tag, &widget.children[0].control)
            } else {
                false
            }
        },
        Widget::Svg => {
            let scrolled = match widget.control {
                Control::Scrolled => true,
                _ => false,
            };
            if scrolled && widget.children.len() > 0 {
                proof {
                    lemma_native_view(widget.children@[0]);
                }
                let in_viewport = match widget.children[0].control {
                    Control::Viewport => true,
                    _ => false,
                };
                if in_viewport && widget.children[0].children.len() > 0 {
                    proof {
                        lemma_native_view(widget.children@[0].children@[0]);
                    }
                    kind_suits_control(tag, &widget.children[0].children[0].control)
                } else {
                    false
                }
            } else {
                false
            }
        },
        _ => kind_suits_control(tag, &widget.control),
    }
}

/// Brings a control up to date with a change. The control is one the
/// widget kind sets attributes on.
pub fn revise_control(tag: &Widget, control: &mut Control, change: &Change)
    requires
        kind_suits(tag@, old(control)@),
    ensures
        final(control)@ == revised(tag@, old(control)@, change@),
{
    match (tag, control) {
        (Widget::Button, Control::Button { label, on_click }) => {
            revise_text(label, change, AttribKey::Label);
            revise_callback(on_click, change, AttribKey::ClickEvent);
        },
        (Widget::Paragraph, Control::TextArea { value, .. }) => {
            revise_text(value, change, AttribKey::Value);
        },
        (Widget::TextInput, Control::TextInput { value }) => {
            revise_text(value, change, AttribKey::Value);
        },
        (Widget::Checkbox, Control::Checkbox { label, checked }) => {
            revise_text(label, change, AttribKey::Label);
            revise_flag(checked, change, AttribKey::Value);
        },
        (Widget::Radio, Control::Radio { label, checked }) => {
            revise_text(label, change, AttribKey::Label);
            revise_flag(checked, change, AttribKey::Value);
        },
        (Widget::Image, Control::Image { data, pixels_wide, pixels_high }) => {
            let wide = revise_pixels(*pixels_wide, change, AttribKey::PixelsWide);
            let high = revise_pixels(*pixels_high, change, AttribKey::PixelsHigh);
            match (wide, high) {
                (Some(width), Some(height)) => {
                    match bring_data(change) {
                        Some(bytes) => {
                            *data = bytes;
                        },
                        None => {},
                    }
                    *pixels_wide = width;
                    *pixels_high = height;
                },
                _ => {},
            }
        },
        (Widget::Svg, Control::Svg { markup }) => {
            match bring_data(change) {
                Some(bytes) => {
                    *markup = markup_from(bytes);
                },
                None => {},
            }
        },
        (Widget::TextArea, Control::TextArea { value, width, height }) => {
            revise_text(value, change, AttribKey::Value);
            revise_extent(width, change, AttribKey::Width);
            revise_extent(height, change, AttribKey::Height);
        },
        _ => {},
    }
}

/// Brings a widget up to date with a change to its attributes. The
/// widget is one the widget kind sets attributes on.
pub fn revise_widget(tag: &Widget, widget: &mut NativeWidget, change: &Change)
    requires
        suits(tag@, old(widget)@),
    ensures
        final(widget)@ == revised_widget(tag@, old(widget)@, change@),
{
    proof {
        lemma_native_view(*widget);
    }
    match tag {
        Widget::TextArea => {
            let scrolled = match widget.control {
                Control::Scrolled => true,
                _ => false,
            };
            if scrolled && widget.children.len() > 0 {
                proof {
                    lemma_native_view(widget.children@[0]);
                }
                let inner = &mut widget.children[0];
                revise_control(tag, &mut inner.control, change);
                proof {
                    lemma_native_view(widget.children@[0]);
                    lemma_native_view(*widget);
                    assert(widget@.children =~= revised_widget(
                        tag@,
                        old(widget)@,
                        change@,
                    ).children);
                }
            }
        },
        Widget::Svg => {
            let scrolled = match widget.control {
                Control::Scrolled => true,
                _ => false,
            };
            if scrolled && widget.children.len() > 0 {
                let in_viewport = match widget.children[0].control {
                    Control::Viewport => true,
                    _ => false,
                };
                if in_viewport && widget.children[0].children.len() > 0 {
                    proof {
                        lemma_native_view(widget.children@[0]);
                        lemma_native_view(widget.children@[0].children@[0]);
                    }
                    let port = &mut widget.children[0];
                    let inner = &mut port.children[0];
                    revise_control(tag, &mut inner.control, change);
                    proof {
                        lemma_native_view(widget.children@[0].children@[0]);
                        lemma_native_view(widget.children@[0]);
                        lemma_native_view(*widget);
                        assert(widget.children@[0]@.children =~= revised_widget(
                            tag@,
                            old(widget)@,
                            change@,
                        ).children[0].children);
                        assert(widget@.children =~= revised_widget(
                            tag@,
                            old(widget)@,
                            change@,
                        ).children);
                    }
                }
            }
        },
        _ => {
            revise_control(tag, &mut widget.control, change);
            proof {
                lemma_native_view(*widget);
            }
        },
    }
}

/// Sets attributes on a widget of the given kind. The widget is one the
/// kind sets attributes on, which [`suits_widget`] tests. An attribute
/// that sets nothing, such as a callback under the key of a value, and a
/// key the kind does not reflect, change nothing.
pub fn set_widget_attributes(tag: &Widget, widget: &mut NativeWidget, attrs: &Vec<Attribute>)
    requires
        suits(tag@, old(widget)@),
    ensures
        final(widget)@ == revised_widget(
            tag@,
            old(widget)@,
            ChangeView::Assign(attrs_view(attrs@)),
        ),
{
    revise_widget(tag, widget, &Change::Assign(attrs));
}

/// Clears attributes on a widget of the given kind: what reflected a
/// cleared key goes back to what it is without the key. The widget is one
/// the kind sets attributes on, which [`suits_widget`] tests.
pub fn clear_widget_attributes(tag: &Widget, widget: &mut NativeWidget, keys: &Vec<AttribKey>)
    requires
        suits(tag@, old(widget)@),
    ensures
        final(widget)@ == revised_widget(tag@, old(widget)@, ChangeView::Clear(keys@)),
{
    revise_widget(tag, widget, &Change::Clear(keys));
}

} // verus!
