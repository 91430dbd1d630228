//! Building native widgets from virtual nodes.
//!
//! A node is built into exactly as many numbered widgets as it has nodes,
//! or not at all. Construction fails where an image comes without the
//! size of its picture and where a node that is no container has
//! children, since those children would have no widgets to be numbered
//! with.
//!
//! Nothing is decoded here. Whoever makes the tree decodes the data of an
//! image and sets the size of the picture beside it, under `PixelsWide`
//! and `PixelsHigh`; data that does not decode comes without a size.
use vstd::prelude::*;
use vstd::utf8::{decode_utf8, valid_utf8};
use crate::native::{
    is_container, lemma_native_view, natives_view, Control, ControlView, NativeView, NativeWidget,
};
use crate::node::{lemma_child_is_smaller, lemma_element_view, nodes_view, Element, Node, NodeView};
use crate::value::{
    attrs_view, copy_bytes, find_callback, find_value, lookup_callback, lookup_value, text_of,
    AttribKey, Attribute, AttributeView, Value, ValueView,
};
use crate::widget::{is_container_tag, Widget, WidgetView};

verus! {

/// The error of `String::from_utf8`, carried through and never looked
/// into.
#[verifier::external_type_specification]
#[verifier::external_body]
pub struct ExFromUtf8Error(std::string::FromUtf8Error);

/// `String::from_utf8` succeeds exactly on well-formed UTF-8, and the
/// string it gives is the text those bytes encode.
pub assume_specification[ String::from_utf8 ](vec: Vec<u8>) -> (r: Result<
    String,
    std::string::FromUtf8Error,
>)
    ensures
        r is Ok <==> valid_utf8(vec@),
        r is Ok ==> r->Ok_0@ == decode_utf8(vec@),
;

/// The text an attribute gives: that of its literal, empty without one.
pub open spec fn text_or_empty(value: Option<ValueView>) -> Seq<char> {
    match value {
        Some(v) => text_of(v),
        None => Seq::empty(),
    }
}

/// The flag an attribute gives: its boolean, `false` without one.
pub open spec fn flag_of(value: Option<ValueView>) -> bool {
    match value {
        Some(ValueView::Bool(b)) => b,
        _ => false,
    }
}

/// The bytes an attribute gives: its byte buffer, empty without one.
pub open spec fn bytes_of(value: Option<ValueView>) -> Seq<u8> {
    match value {
        Some(ValueView::Bytes(b)) => b,
        _ => Seq::empty(),
    }
}

/// The extent an attribute gives: its integer, if it has one.
pub open spec fn extent_of(value: Option<ValueView>) -> Option<int> {
    match value {
        Some(ValueView::Int(i)) => Some(i),
        _ => None,
    }
}

/// The pixel count an attribute gives: its integer, where it is one that
/// a picture can measure.
pub open spec fn pixels_of(value: Option<ValueView>) -> Option<u32> {
    match value {
        Some(ValueView::Int(i)) => if 0 <= i <= u32::MAX {
            Some(i as u32)
        } else {
            None
        },
        _ => None,
    }
}

/// The markup that bytes hold: their text where they are well-formed
/// UTF-8, empty otherwise.
pub open spec fn markup_of(bytes: Seq<u8>) -> Seq<char> {
    if valid_utf8(bytes) {
        decode_utf8(bytes)
    } else {
        Seq::empty()
    }
}

/// The control for a widget kind and its attributes. A pane is drawn as
/// the box that lays out the same way. Only an image can fail, where its
/// attributes do not give the size of its picture.
pub open spec fn control_for(tag: WidgetView, attrs: Seq<AttributeView>) -> Option<ControlView> {
    match tag {
        WidgetView::Vbox => Some(ControlView::Flex { vertical: true }),
        WidgetView::Hbox => Some(ControlView::Flex { vertical: false }),
        WidgetView::Vpane => Some(ControlView::Flex { vertical: true }),
        WidgetView::Hpane => Some(ControlView::Flex { vertical: false }),
        WidgetView::Button => Some(
            ControlView::Button {
                label: text_or_empty(lookup_value(attrs, AttribKey::Label)),
                on_click: lookup_callback(attrs, AttribKey::ClickEvent),
            },
        ),
        WidgetView::Paragraph => Some(
            ControlView::TextArea {
                value: text_or_empty(lookup_value(attrs, AttribKey::Value)),
                width: None,
                height: None,
            },
        ),
        WidgetView::TextInput => Some(
            ControlView::TextInput { value: text_or_empty(lookup_value(attrs, AttribKey::Value)) },
        ),
        WidgetView::Checkbox => Some(
            ControlView::Checkbox {
                label: text_or_empty(lookup_value(attrs, AttribKey::Label)),
                checked: flag_of(lookup_value(attrs, AttribKey::Value)),
            },
        ),
        WidgetView::Radio => Some(
            ControlView::Radio {
                label: text_or_empty(lookup_value(attrs, AttribKey::Label)),
                checked: flag_of(lookup_value(attrs, AttribKey::Value)),
            },
        ),
        WidgetView::Image => match (
            pixels_of(lookup_value(attrs, AttribKey::PixelsWide)),
            pixels_of(lookup_value(attrs, AttribKey::PixelsHigh)),
        ) {
            (Some(width), Some(height)) => Some(
                ControlView::Image {
                    data: bytes_of(lookup_value(attrs, AttribKey::Data)),
                    pixels_wide: width,
                    pixels_high: height,
                },
            ),
            _ => None,
        },
        WidgetView::Svg => Some(
            ControlView::Svg { markup: markup_of(bytes_of(lookup_value(attrs, AttribKey::Data))) },
        ),
        WidgetView::TextArea => Some(
            ControlView::TextArea {
                value: text_or_empty(lookup_value(attrs, AttribKey::Value)),
                width: extent_of(lookup_value(attrs, AttribKey::Width)),
                height: extent_of(lookup_value(attrs, AttribKey::Height)),
            },
        ),
        WidgetView::Text(s) => Some(ControlView::Label { text: s }),
        WidgetView::Block(s) => Some(ControlView::Group { title: s }),
        WidgetView::TextBox(s) => Some(ControlView::TextInput { value: s }),
    }
}

/// A widget that holds nothing.
pub open spec fn leaf(control: ControlView) -> NativeView {
    NativeView { control, children: Seq::empty() }
}

/// The widget that stands for a node that is no container: the control
/// itself, inside a scroll wrapper for a text area, inside a viewport
/// inside a scroll wrapper for an SVG image.
pub open spec fn wrapped(tag: WidgetView, control: ControlView) -> NativeView {
    match tag {
        WidgetView::TextArea => NativeView {
            control: ControlView::Scrolled,
            children: seq![leaf(control)],
        },
        WidgetView::Svg => NativeView {
            control: ControlView::Scrolled,
            children: seq![
                NativeView { control: ControlView::Viewport, children: seq![leaf(control)] },
            ],
        },
        _ => leaf(control),
    }
}

/// The native tree built from a node, `None` where construction fails.
pub open spec fn built(node: NodeView) -> Option<NativeView>
    decreases node,
{
    match node {
        NodeView::Text(s) => Some(leaf(ControlView::Label { text: s })),
        NodeView::Element { tag, attrs, children } => match control_for(tag, attrs) {
            None => None,
            Some(control) => if is_container_tag(tag) {
                match built_all(children) {
                    Some(widgets) => Some(NativeView { control, children: widgets }),
                    None => None,
                }
            } else if children.len() > 0 {
                None
            } else {
                Some(wrapped(tag, control))
            },
        },
    }
}

/// The native trees built from a list of nodes, `None` where the
/// construction of any of them fails.
pub open spec fn built_all(nodes: Seq<NodeView>) -> Option<Seq<NativeView>>
    decreases nodes,
{
    if nodes.len() == 0 {
        Some(Seq::empty())
    } else {
        match (built_all(nodes.drop_last()), built(nodes.last())) {
            (Some(widgets), Some(widget)) => Some(widgets.push(widget)),
            _ => None,
        }
    }
}

/// The native trees built from those nodes of a list whose construction
/// succeeds, in order.
pub open spec fn built_each(nodes: Seq<NodeView>) -> Seq<NativeView>
    decreases nodes.len(),
{
    if nodes.len() == 0 {
        Seq::empty()
    } else {
        match built(nodes.last()) {
            Some(widget) => built_each(nodes.drop_last()).push(widget),
            None => built_each(nodes.drop_last()),
        }
    }
}

/// Model of an optional control.
pub open spec fn control_opt_view(control: Option<Control>) -> Option<ControlView> {
    match control {
        Some(c) => Some(c@),
        None => None,
    }
}

/// Model of an optional native widget.
pub open spec fn native_opt_view(widget: Option<NativeWidget>) -> Option<NativeView> {
    match widget {
        Some(w) => Some(w@),
        None => None,
    }
}

/// The text that `key` gives in `attrs`.
pub fn text_value(key: AttribKey, attrs: &Vec<Attribute>) -> (r: String)
    ensures
        r@ == text_or_empty(lookup_value(attrs_view(attrs@), key)),
{
    match find_value(key, attrs) {
        Some(v) => v.to_text(),
        None => String::new(),
    }
}

/// The flag that `key` gives in `attrs`.
pub fn flag_value(key: AttribKey, attrs: &Vec<Attribute>) -> (r: bool)
    ensures
        r == flag_of(lookup_value(attrs_view(attrs@), key)),
{
    match find_value(key, attrs) {
        Some(Value::Bool(b)) => *b,
        _ => false,
    }
}

/// The bytes that `key` gives in `attrs`.
pub fn bytes_value(key: AttribKey, attrs: &Vec<Attribute>) -> (r: Vec<u8>)
    ensures
        r@ == bytes_of(lookup_value(attrs_view(attrs@), key)),
{
    match find_value(key, attrs) {
        Some(Value::Bytes(b)) => copy_bytes(b),
        _ => Vec::new(),
    }
}

/// The extent that `key` gives in `attrs`.
pub fn extent_value(key: AttribKey, attrs: &Vec<Attribute>) -> (r: Option<i64>)
    ensures
        crate::native::extent_view(r) == extent_of(lookup_value(attrs_view(attrs@), key)),
{
    match find_value(key, attrs) {
        Some(Value::Int(i)) => Some(*i),
        _ => None,
    }
}

/// The pixel count that `key` gives in `attrs`.
pub fn pixels_value(key: AttribKey, attrs: &Vec<Attribute>) -> (r: Option<u32>)
    ensures
        r == pixels_of(lookup_value(attrs_view(attrs@), key)),
{
    match find_value(key, attrs) {
        Some(Value::Int(i)) => {
            if 0 <= *i && *i <= 0xffff_ffff {
                Some(*i as u32)
            } else {
                None
            }
        },
        _ => None,
    }
}

/// The markup that bytes hold.
pub fn markup_from(bytes: Vec<u8>) -> (r: String)
    ensures
        r@ == markup_of(bytes@),
{
    match String::from_utf8(bytes) {
        Ok(s) => s,
        Err(_) => String::new(),
    }
}

/// Builds the control for a widget kind and its attributes.
pub fn from_node(tag: &Widget, attrs: &Vec<Attribute>) -> (r: Option<Control>)
    ensures
        control_opt_view(r) == control_for(tag@, attrs_view(attrs@)),
{
    match tag {
        Widget::Vbox => Some(Control::Flex { vertical: true }),
        Widget::Hbox => Some(Control::Flex { vertical: false }),
        Widget::Vpane => Some(Control::Flex { vertical: true }),
        Widget::Hpane => Some(Control::Flex { vertical: false }),
        Widget::Button => {
            let label = text_value(AttribKey::Label, attrs);
            let on_click = find_callback(AttribKey::ClickEvent, attrs);
            Some(Control::Button { label, on_click })
        },
        Widget::Paragraph => {
            let value = text_value(AttribKey::Value, attrs);
            Some(Control::TextArea { value, width: None, height: None })
        },
        Widget::TextInput => {
            let value = text_value(AttribKey::Value, attrs);
            Some(Control::TextInput { value })
        },
        Widget::Checkbox => {
            let label = text_value(AttribKey::Label, attrs);
            let checked = flag_value(AttribKey::Value, attrs);
            Some(Control::Checkbox { label, checked })
        },
        Widget::Radio => {
            let label = text_value(AttribKey::Label, attrs);
            let checked = flag_value(AttribKey::Value, attrs);
            Some(Control::Radio { label, checked })
        },
        Widget::Image => {
            let wide = pixels_value(AttribKey::PixelsWide, attrs);
            let high = pixels_value(AttribKey::PixelsHigh, attrs);
            match (wide, high) {
                (Some(width), Some(height)) => {
                    let data = bytes_value(AttribKey::Data, attrs);
                    Some(Control::Image { data, pixels_wide: width, pixels_high: height })
                },
                _ => None,
            }
        },
        Widget::Svg => {
            let markup = markup_from(bytes_value(AttribKey::Data, attrs));
            Some(Control::Svg { markup })
        },
        Widget::TextArea => {
            let value = text_value(AttribKey::Value, attrs);
            let height = extent_value(AttribKey::Height, attrs);
            let width = extent_value(AttribKey::Width, attrs);
            Some(Control::TextArea { value, width, height })
        },
        Widget::Text(s) => Some(Control::Label { text: s.clone() }),
        Widget::Block(s) => Some(Control::Group { title: s.clone() }),
        Widget::TextBox(s) => Some(Control::TextInput { value: s.clone() }),
    }
}

/// Puts a control inside the wrappers its widget kind calls for.
pub fn wrap(tag: &Widget, control: Control) -> (r: NativeWidget)
    ensures
        r@ == wrapped(tag@, control@),
{
    let inner = NativeWidget { control, children: Vec::new() };
    proof {
        lemma_native_view(inner);
        assert(natives_view(inner.children@) =~= Seq::empty());
    }
    match tag {
        Widget::TextArea => {
            let mut held: Vec<NativeWidget> = Vec::new();
            held.push(inner);
            let outer = NativeWidget { control: Control::Scrolled, children: held };
            proof {
                lemma_native_view(outer);
                assert(natives_view(outer.children@) =~= seq![inner@]);
            }
            outer
        },
        Widget::Svg => {
            let mut held: Vec<NativeWidget> = Vec::new();
            held.push(inner);
            let port = NativeWidget { control: Control::Viewport, children: held };
            proof {
                lemma_native_view(port);
                assert(natives_view(port.children@) =~= seq![inner@]);
            }
            let mut ports: Vec<NativeWidget> = Vec::new();
            ports.push(port);
            let outer = NativeWidget { control: Control::Scrolled, children: ports };
            proof {
                lemma_native_view(outer);
                assert(natives_view(outer.children@) =~= seq![port@]);
            }
            outer
        },
        _ => inner,
    }
}

/// Builds the native tree of a node.
pub fn from_node_tree(node: &Node) -> (r: Option<NativeWidget>)
    ensures
        native_opt_view(r) == built(node@),
    decreases *node,
{
    match node {
        Node::Text(s) => {
            let w = NativeWidget { control: Control::Label { text: s.clone() }, children: Vec::new() };
            proof {
                lemma_native_view(w);
                assert(natives_view(w.children@) =~= Seq::empty());
            }
            Some(w)
        },
        Node::Element(e) => {
            proof {
                lemma_element_view(*e);
            }
            match from_node(&e.tag, &e.attrs) {
                None => None,
                Some(control) => {
                    if e.tag.is_container() {
                        let ghost kids = nodes_view(e.children@);
                        let mut held: Vec<NativeWidget> = Vec::new();
                        let mut i: usize = 0;
                        proof {
                            assert(kids.take(0) =~= Seq::<NodeView>::empty());
                            assert(natives_view(held@) =~= Seq::<NativeView>::empty());
                        }
                        while i < e.children.len()
                            invariant
                                i <= e.children.len(),
                                *node == Node::Element(*e),
                                kids == nodes_view(e.children@),
                                node@ == (NodeView::Element {
                                    tag: e.tag@,
                                    attrs: attrs_view(e.attrs@),
                                    children: kids,
                                }),
                                control_for(e.tag@, attrs_view(e.attrs@)) is Some,
                                is_container_tag(e.tag@),
                                built_all(kids.take(i as int)) == Some(natives_view(held@)),
                            decreases e.children.len() - i,
                        {
                            proof {
                                lemma_child_is_smaller(*node, i as int);
                                assert(kids.take(i + 1).drop_last() == kids.take(i as int));
                                assert(kids.take(i + 1).last() == kids[i as int]);
                            }
                            match from_node_tree(&e.children[i]) {
                                None => {
                                    proof {
                                        assert(kids[i as int] == e.children@[i as int]@);
                                        lemma_built_all_fails(kids, i as int);
                                    }
                                    return None;
                                },
                                Some(w) => {
                                    let ghost before = natives_view(held@);
                                    held.push(w);
                                    proof {
                                        assert(kids[i as int] == e.children@[i as int]@);
                                        assert(natives_view(held@) =~= before.push(w@));
                                    }
                                },
                            }
                            i += 1;
                        }
                        proof {
                            assert(kids.take(i as int) == kids);
                        }
                        let w = NativeWidget { control, children: held };
                        proof {
                            lemma_native_view(w);
                        }
                        Some(w)
                    } else if e.children.len() > 0 {
                        None
                    } else {
                        Some(wrap(&e.tag, control))
                    }
                },
            }
        },
    }
}

/// Builds the native trees of those nodes of a list whose construction
/// succeeds.
pub fn build_each(nodes: &Vec<Node>) -> (r: Vec<NativeWidget>)
    ensures
        natives_view(r@) == built_each(nodes_view(nodes@)),
{
    let ghost all = nodes_view(nodes@);
    let mut out: Vec<NativeWidget> = Vec::new();
    let mut i: usize = 0;
    proof {
        assert(all.take(0) =~= Seq::<NodeView>::empty());
        assert(natives_view(out@) =~= Seq::<NativeView>::empty());
    }
    while i < nodes.len()
        invariant
            i <= nodes.len(),
            all == nodes_view(nodes@),
            natives_view(out@) == built_each(all.take(i as int)),
        decreases nodes.len() - i,
    {
        proof {
            assert(all.take(i + 1).drop_last() == all.take(i as int));
            assert(all.take(i + 1).last() == all[i as int]);
            assert(all[i as int] == nodes@[i as int]@);
        }
        match from_node_tree(&nodes[i]) {
            Some(w) => {
                let ghost before = natives_view(out@);
                out.push(w);
                proof {
                    assert(natives_view(out@) =~= before.push(w@));
                }
            },
            None => {},
        }
        i += 1;
    }
    proof {
        assert(all.take(i as int) == all);
    }
    out
}

/// Where one node of a list cannot be built, the list cannot.
pub proof fn lemma_built_all_fails(nodes: Seq<NodeView>, i: int)
    requires
        0 <= i < nodes.len(),
        built(nodes[i]) is None,
    ensures
        built_all(nodes) is None,
    decreases nodes.len(),
{
    if i < nodes.len() - 1 {
        assert(nodes.drop_last()[i] == nodes[i]);
        lemma_built_all_fails(nodes.drop_last(), i);
    }
}

} // verus!
