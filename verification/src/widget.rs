//! The closed set of widget kinds a virtual node can ask for.
use vstd::prelude::*;
use crate::node::{lemma_element_view, nodes_view, Element, Node, NodeView};
use crate::value::{attrs_view, Attribute};

verus! {

/// The semantic kind of a widget.
#[derive(Debug, Clone, PartialEq)]
pub enum Widget {
    Vbox,
    Hbox,
    Vpane,
    Hpane,
    Button,
    Paragraph,
    TextInput,
    Checkbox,
    Radio,
    Image,
    Svg,
    TextArea,
    Text(String),
    Block(String),
    TextBox(String),
}

/// Mathematical model of a [`Widget`].
pub enum WidgetView {
    Vbox,
    Hbox,
    Vpane,
    Hpane,
    Button,
    Paragraph,
    TextInput,
    Checkbox,
    Radio,
    Image,
    Svg,
    TextArea,
    Text(Seq<char>),
    Block(Seq<char>),
    TextBox(Seq<char>),
}

impl View for Widget {
    type V = WidgetView;

    open spec fn view(&self) -> WidgetView {
        match self {
            Widget::Vbox => WidgetView::Vbox,
            Widget::Hbox => WidgetView::Hbox,
            Widget::Vpane => WidgetView::Vpane,
            Widget::Hpane => WidgetView::Hpane,
            Widget::Button => WidgetView::Button,
            Widget::Paragraph => WidgetView::Paragraph,
            Widget::TextInput => WidgetView::TextInput,
            Widget::Checkbox => WidgetView::Checkbox,
            Widget::Radio => WidgetView::Radio,
            Widget::Image => WidgetView::Image,
            Widget::Svg => WidgetView::Svg,
            Widget::TextArea => WidgetView::TextArea,
            Widget::Text(s) => WidgetView::Text(s@),
            Widget::Block(s) => WidgetView::Block(s@),
            Widget::TextBox(s) => WidgetView::TextBox(s@),
        }
    }
}

/// Whether widgets of this kind hold the widgets of child nodes.
pub open spec fn is_container_tag(tag: WidgetView) -> bool {
    tag is Vbox || tag is Hbox || tag is Vpane || tag is Hpane
}

impl Widget {
    /// A copy of this widget kind.
    pub fn duplicate(&self) -> (r: Widget)
        ensures
            r@ == self@,
    {
        match self {
            Widget::Vbox => Widget::Vbox,
            Widget::Hbox => Widget::Hbox,
            Widget::Vpane => Widget::Vpane,
            Widget::Hpane => Widget::Hpane,
            Widget::Button => Widget::Button,
            Widget::Paragraph => Widget::Paragraph,
            Widget::TextInput => Widget::TextInput,
            Widget::Checkbox => Widget::Checkbox,
            Widget::Radio => Widget::Radio,
            Widget::Image => Widget::Image,
            Widget::Svg => Widget::Svg,
            Widget::TextArea => Widget::TextArea,
            Widget::Text(s) => Widget::Text(s.clone()),
            Widget::Block(s) => Widget::Block(s.clone()),
            Widget::TextBox(s) => Widget::TextBox(s.clone()),
        }
    }

    /// Whether two widget kinds are the same, payload included.
    pub fn same(&self, other: &Widget) -> (r: bool)
        ensures
            r == (self@ == other@),
    {
        match (self, other) {
            (Widget::Vbox, Widget::Vbox) => true,
            (Widget::Hbox, Widget::Hbox) => true,
            (Widget::Vpane, Widget::Vpane) => true,
            (Widget::Hpane, Widget::Hpane) => true,
            (Widget::Button, Widget::Button) => true,
            (Widget::Paragraph, Widget::Paragraph) => true,
            (Widget::TextInput, Widget::TextInput) => true,
            (Widget::Checkbox, Widget::Checkbox) => true,
            (Widget::Radio, Widget::Radio) => true,
            (Widget::Image, Widget::Image) => true,
            (Widget::Svg, Widget::Svg) => true,
            (Widget::TextArea, Widget::TextArea) => true,
            (Widget::Text(a), Widget::Text(b)) => *a == *b,
            (Widget::Block(a), Widget::Block(b)) => *a == *b,
            (Widget::TextBox(a), Widget::TextBox(b)) => *a == *b,
            _ => false,
        }
    }

    /// Whether widgets of this kind hold the widgets of child nodes.
    pub fn is_container(&self) -> (r: bool)
        ensures
            r == is_container_tag(self@),
    {
        match self {
            Widget::Vbox | Widget::Hbox | Widget::Vpane | Widget::Hpane => true,
            _ => false,
        }
    }
}

/// An element of the given kind with these attributes and children.
pub fn widget(tag: Widget, attrs: Vec<Attribute>, children: Vec<Node>) -> (r: Node)
    ensures
        r@ == (NodeView::Element {
            tag: tag@,
            attrs: attrs_view(attrs@),
            children: nodes_view(children@),
        }),
{
    let e = Element { tag, attrs, children };
    proof {
        lemma_element_view(e);
    }
    Node::Element(e)
}

/// A box that lays its children out top to bottom.
pub fn vbox(attrs: Vec<Attribute>, children: Vec<Node>) -> (r: Node)
    ensures
        r@ == (NodeView::Element {
            tag: WidgetView::Vbox,
            attrs: attrs_view(attrs@),
            children: nodes_view(children@),
        }),
{
    self::widget(Widget::Vbox, attrs, children)
}

/// A box that lays its children out left to right.
pub fn hbox(attrs: Vec<Attribute>, children: Vec<Node>) -> (r: Node)
    ensures
        r@ == (NodeView::Element {
            tag: WidgetView::Hbox,
            attrs: attrs_view(attrs@),
            children: nodes_view(children@),
        }),
{
    self::widget(Widget::Hbox, attrs, children)
}

/// A button without children.
pub fn button(attrs: Vec<Attribute>) -> (r: Node)
    ensures
        r@ == (NodeView::Element {
            tag: WidgetView::Button,
            attrs: attrs_view(attrs@),
            children: Seq::empty(),
        }),
{
    let r = self::widget(Widget::Button, attrs, Vec::new());
    assert(nodes_view(Seq::<Node>::empty()) =~= Seq::<NodeView>::empty());
    r
}

/// No attributes.
pub open spec fn no_attrs() -> Seq<crate::value::AttributeView> {
    Seq::empty()
}

/// An element of a kind that carries a text, without attributes or
/// children.
fn bare(tag: Widget) -> (r: Node)
    ensures
        r@ == (NodeView::Element { tag: tag@, attrs: no_attrs(), children: Seq::empty() }),
{
    let r = self::widget(tag, Vec::new(), Vec::new());
    assert(nodes_view(Seq::<Node>::empty()) =~= Seq::<NodeView>::empty());
    assert(attrs_view(Seq::<Attribute>::empty()) =~= no_attrs());
    r
}

/// A piece of text.
pub fn text(txt: &str) -> (r: Node)
    ensures
        r@ == (NodeView::Element {
            tag: WidgetView::Text(txt@),
            attrs: no_attrs(),
            children: Seq::empty(),
        }),
{
    bare(Widget::Text(txt.to_owned()))
}

/// A one-line text field that starts out with `txt`.
pub fn textbox(txt: &str) -> (r: Node)
    ensures
        r@ == (NodeView::Element {
            tag: WidgetView::TextBox(txt@),
            attrs: no_attrs(),
            children: Seq::empty(),
        }),
{
    bare(Widget::TextBox(txt.to_owned()))
}

/// A framed block with a title.
pub fn block(title: &str) -> (r: Node)
    ensures
        r@ == (NodeView::Element {
            tag: WidgetView::Block(title@),
            attrs: no_attrs(),
            children: Seq::empty(),
        }),
{
    bare(Widget::Block(title.to_owned()))
}

} // verus!
