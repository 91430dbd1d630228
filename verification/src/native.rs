//! A model of the live widget tree of a toolkit.
//!
//! A native widget is described by the control it is and by the widgets it
//! holds. Flex boxes and panes are the containers that hold the widgets of
//! child nodes; the factory builds no pane, it draws a pane as the box
//! that lays out the same way, but a tree read off a toolkit may hold
//! one. Scroll wrappers and viewports hold toolkit decoration
//! around one logical widget: they take one number together with what they
//! wrap, and numbering does not descend into them.
use vstd::prelude::*;

verus! {

/// What a native widget is, with the state the toolkit shows.
#[derive(Debug, Clone, PartialEq)]
pub enum Control {
    Flex { vertical: bool },
    Paned { vertical: bool },
    Scrolled,
    Viewport,
    Button { label: String, on_click: Option<u64> },
    TextArea { value: String, width: Option<i64>, height: Option<i64> },
    TextInput { value: String },
    Checkbox { label: String, checked: bool },
    Radio { label: String, checked: bool },
    Image { data: Vec<u8>, pixels_wide: u32, pixels_high: u32 },
    Svg { markup: String },
    Label { text: String },
    Group { title: String },
}

/// Mathematical model of a [`Control`].
pub enum ControlView {
    Flex { vertical: bool },
    Paned { vertical: bool },
    Scrolled,
    Viewport,
    Button { label: Seq<char>, on_click: Option<u64> },
    TextArea { value: Seq<char>, width: Option<int>, height: Option<int> },
    TextInput { value: Seq<char> },
    Checkbox { label: Seq<char>, checked: bool },
    Radio { label: Seq<char>, checked: bool },
    Image { data: Seq<u8>, pixels_wide: u32, pixels_high: u32 },
    Svg { markup: Seq<char> },
    Label { text: Seq<char> },
    Group { title: Seq<char> },
}

/// Model of an optional extent.
pub open spec fn extent_view(e: Option<i64>) -> Option<int> {
    match e {
        Some(i) => Some(i as int),
        None => None,
    }
}

impl View for Control {
    type V = ControlView;

    open spec fn view(&self) -> ControlView {
        match self {
            Control::Flex { vertical } => ControlView::Flex { vertical: *vertical },
            Control::Paned { vertical } => ControlView::Paned { vertical: *vertical },
            Control::Scrolled => ControlView::Scrolled,
            Control::Viewport => ControlView::Viewport,
            Control::Button { label, on_click } => ControlView::Button {
                label: label@,
                on_click: *on_click,
            },
            Control::TextArea { value, width, height } => ControlView::TextArea {
                value: value@,
                width: extent_view(*width),
                height: extent_view(*height),
            },
            Control::TextInput { value } => ControlView::TextInput { value: value@ },
            Control::Checkbox { label, checked } => ControlView::Checkbox {
                label: label@,
                checked: *checked,
            },
            Control::Radio { label, checked } => ControlView::Radio {
                label: label@,
                checked: *checked,
            },
            Control::Image { data, pixels_wide, pixels_high } => ControlView::Image {
                data: data@,
                pixels_wide: *pixels_wide,
                pixels_high: *pixels_high,
            },
            Control::Svg { markup } => ControlView::Svg { markup: markup@ },
            Control::Label { text } => ControlView::Label { text: text@ },
            Control::Group { title } => ControlView::Group { title: title@ },
        }
    }
}

/// Whether a control holds the widgets of child nodes.
pub open spec fn is_container(control: ControlView) -> bool {
    control is Flex || control is Paned
}

impl Control {
    /// Whether this control holds the widgets of child nodes.
    pub fn is_structural(&self) -> (r: bool)
        ensures
            r == is_container(self@),
    {
        match self {
            Control::Flex { .. } | Control::Paned { .. } => true,
            _ => false,
        }
    }
}

/// A widget of the native tree.
#[derive(Debug, PartialEq)]
pub struct NativeWidget {
    pub control: Control,
    pub children: Vec<NativeWidget>,
}

/// Mathematical model of a [`NativeWidget`].
pub struct NativeView {
    pub control: ControlView,
    pub children: Seq<NativeView>,
}

/// Model of a native widget.
pub open spec fn native_view(widget: NativeWidget) -> NativeView
    decreases widget,
{
    NativeView {
        control: widget.control@,
        children: Seq::new(
            widget.children@.len(),
            |i: int|
                if 0 <= i < widget.children@.len() {
                    native_view(widget.children@[i])
                } else {
                    NativeView { control: ControlView::Viewport, children: Seq::empty() }
                },
        ),
    }
}

/// Model of a list of native widgets.
pub open spec fn natives_view(widgets: Seq<NativeWidget>) -> Seq<NativeView> {
    Seq::new(widgets.len(), |i: int| native_view(widgets[i]))
}

impl View for NativeWidget {
    type V = NativeView;

    open spec fn view(&self) -> NativeView {
        native_view(*self)
    }
}

/// The model of a widget lists the models of the widgets it holds.
pub proof fn lemma_native_view(widget: NativeWidget)
    ensures
        native_view(widget) == (NativeView {
            control: widget.control@,
            children: natives_view(widget.children@),
        }),
{
    assert(native_view(widget).children =~= natives_view(widget.children@));
}

/// A widget held by a widget is a smaller tree than the holder.
pub proof fn lemma_held_is_smaller(widget: NativeWidget, i: int)
    requires
        0 <= i < widget.children@.len(),
    ensures
        decreases_to!(widget => widget.children@[i]),
{
    assert(decreases_to!(widget => widget.children));
    assert(decreases_to!(widget.children => widget.children@));
    assert(decreases_to!(widget.children@ => widget.children@[i]));
}

/// Number of numbered widgets in a native tree: the widget itself and,
/// where it is a container, those of the widgets it holds.
pub open spec fn native_count(widget: NativeView) -> nat
    decreases widget,
{
    if is_container(widget.control) {
        1 + native_count_all(widget.children)
    } else {
        1
    }
}

/// Number of numbered widgets in a list of native trees.
pub open spec fn native_count_all(widgets: Seq<NativeView>) -> nat
    decreases widgets,
{
    if widgets.len() == 0 {
        0
    } else {
        native_count_all(widgets.drop_last()) + native_count(widgets.last())
    }
}

/// Taking one more tree adds its widgets.
pub proof fn lemma_native_count_step(widgets: Seq<NativeView>, i: int)
    requires
        0 <= i < widgets.len(),
    ensures
        native_count_all(widgets.take(i + 1)) == native_count_all(widgets.take(i)) + native_count(
            widgets[i],
        ),
{
    assert(widgets.take(i + 1).drop_last() == widgets.take(i));
    assert(widgets.take(i + 1).last() == widgets[i]);
}

/// A prefix of a list holds no more widgets than the list.
pub proof fn lemma_native_count_prefix(widgets: Seq<NativeView>, i: int)
    requires
        0 <= i <= widgets.len(),
    ensures
        native_count_all(widgets.take(i)) <= native_count_all(widgets),
    decreases widgets.len() - i,
{
    if i == widgets.len() {
        assert(widgets.take(i) == widgets);
    } else {
        lemma_native_count_step(widgets, i);
        lemma_native_count_prefix(widgets, i + 1);
    }
}

} // verus!
