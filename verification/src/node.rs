//! The virtual tree: element nodes and text leaves.
use vstd::prelude::*;
use crate::value::{
    attrs_view, copy_attributes, lookup_value, find_value, AttribKey, Attribute, AttributeView,
    Value, ValueView,
};
use crate::widget::{Widget, WidgetView};

verus! {

/// An element: a widget kind, its attributes in order, its children in order.
#[derive(Debug, PartialEq)]
pub struct Element {
    pub tag: Widget,
    pub attrs: Vec<Attribute>,
    pub children: Vec<Node>,
}

/// A node of the virtual tree.
#[derive(Debug, PartialEq)]
pub enum Node {
    Element(Element),
    Text(String),
}

/// Mathematical model of a [`Node`].
pub enum NodeView {
    Element { tag: WidgetView, attrs: Seq<AttributeView>, children: Seq<NodeView> },
    Text(Seq<char>),
}

/// Model of a node.
pub open spec fn node_view(node: Node) -> NodeView
    decreases node,
{
    match node {
        Node::Element(e) => NodeView::Element {
            tag: e.tag@,
            attrs: attrs_view(e.attrs@),
            children: Seq::new(
                e.children@.len(),
                |i: int|
                    if 0 <= i < e.children@.len() {
                        node_view(e.children@[i])
                    } else {
                        NodeView::Text(Seq::empty())
                    },
            ),
        },
        Node::Text(s) => NodeView::Text(s@),
    }
}

/// Model of a list of nodes.
pub open spec fn nodes_view(nodes: Seq<Node>) -> Seq<NodeView> {
    Seq::new(nodes.len(), |i: int| node_view(nodes[i]))
}

impl View for Node {
    type V = NodeView;

    open spec fn view(&self) -> NodeView {
        node_view(*self)
    }
}

/// The model of an element lists the models of its children.
pub proof fn lemma_element_view(e: Element)
    ensures
        node_view(Node::Element(e)) == (NodeView::Element {
            tag: e.tag@,
            attrs: attrs_view(e.attrs@),
            children: nodes_view(e.children@),
        }),
{
    assert(node_view(Node::Element(e))->children =~= nodes_view(e.children@));
}

/// A child of an element is a smaller tree than the element.
pub proof fn lemma_child_is_smaller(node: Node, i: int)
    requires
        node is Element,
        0 <= i < node->Element_0.children@.len(),
    ensures
        decreases_to!(node => node->Element_0.children@[i]),
{
    let e = node->Element_0;
    assert(decreases_to!(node => e));
    assert(decreases_to!(e => e.children));
    assert(decreases_to!(e.children => e.children@));
    assert(decreases_to!(e.children@ => e.children@[i]));
}

/// Number of nodes in a tree: every node, element or text, counts once.
pub open spec fn count(node: NodeView) -> nat
    decreases node,
{
    match node {
        NodeView::Element { children, .. } => 1 + count_all(children),
        NodeView::Text(_) => 1,
    }
}

/// Number of nodes in a list of trees.
pub open spec fn count_all(nodes: Seq<NodeView>) -> nat
    decreases nodes,
{
    if nodes.len() == 0 {
        0
    } else {
        count_all(nodes.drop_last()) + count(nodes.last())
    }
}

/// Taking one more tree adds its nodes.
pub proof fn lemma_count_all_step(nodes: Seq<NodeView>, i: int)
    requires
        0 <= i < nodes.len(),
    ensures
        count_all(nodes.take(i + 1)) == count_all(nodes.take(i)) + count(nodes[i]),
{
    assert(nodes.take(i + 1).drop_last() == nodes.take(i));
    assert(nodes.take(i + 1).last() == nodes[i]);
}

/// A prefix of a list holds no more nodes than the list.
pub proof fn lemma_count_all_prefix(nodes: Seq<NodeView>, i: int)
    requires
        0 <= i <= nodes.len(),
    ensures
        count_all(nodes.take(i)) <= count_all(nodes),
    decreases nodes.len() - i,
{
    if i == nodes.len() {
        assert(nodes.take(i) == nodes);
    } else {
        lemma_count_all_step(nodes, i);
        lemma_count_all_prefix(nodes, i + 1);
    }
}

impl Node {
    /// Number of nodes in this tree.
    pub fn size(&self) -> (r: usize)
        requires
            count(self@) <= usize::MAX,
        ensures
            r == count(self@),
        decreases *self,
    {
        match self {
            Node::Text(_) => 1,
            Node::Element(e) => {
                proof {
                    lemma_element_view(*e);
                }
                let ghost kids = nodes_view(e.children@);
                let mut total: usize = 1;
                let mut i: usize = 0;
                assert(kids.take(0) =~= Seq::<NodeView>::empty());
                while i < e.children.len()
                    invariant
                        i <= e.children.len(),
                        *self == Node::Element(*e),
                        kids == nodes_view(e.children@),
                        1 + count_all(kids) <= usize::MAX,
                        total == 1 + count_all(kids.take(i as int)),
                    decreases e.children.len() - i,
                {
                    proof {
                        lemma_count_all_step(kids, i as int);
                        lemma_count_all_prefix(kids, i + 1);
                    }
                    proof {
                        lemma_child_is_smaller(*self, i as int);
                    }
                    let n = e.children[i].size();
                    total = total + n;
                    i += 1;
                }
                assert(kids.take(i as int) == kids);
                total
            },
        }
    }

    /// Number of nodes in this tree, or `None` where it does not fit.
    pub fn checked_size(&self) -> (r: Option<usize>)
        ensures
            match r {
                Some(n) => n == count(self@),
                None => count(self@) > usize::MAX,
            },
        decreases *self,
    {
        match self {
            Node::Text(_) => Some(1),
            Node::Element(e) => {
                proof {
                    lemma_element_view(*e);
                }
                let ghost kids = nodes_view(e.children@);
                let mut total: usize = 1;
                let mut i: usize = 0;
                assert(kids.take(0) =~= Seq::<NodeView>::empty());
                while i < e.children.len()
                    invariant
                        i <= e.children.len(),
                        *self == Node::Element(*e),
                        kids == nodes_view(e.children@),
                        count(self@) == 1 + count_all(kids),
                        total == 1 + count_all(kids.take(i as int)),
                    decreases e.children.len() - i,
                {
                    proof {
                        lemma_count_all_step(kids, i as int);
                        lemma_count_all_prefix(kids, i + 1);
                    }
                    match e.children[i].checked_size() {
                        None => {
                            return None;
                        },
                        Some(n) => {
                            match total.checked_add(n) {
                                None => {
                                    return None;
                                },
                                Some(t) => {
                                    total = t;
                                },
                            }
                        },
                    }
                    i += 1;
                }
                assert(kids.take(i as int) == kids);
                Some(total)
            },
        }
    }

    /// A copy of this tree.
    pub fn duplicate(&self) -> (r: Node)
        ensures
            r@ == self@,
        decreases *self,
    {
        match self {
            Node::Text(s) => Node::Text(s.clone()),
            Node::Element(e) => {
                let mut kids: Vec<Node> = Vec::new();
                let mut i: usize = 0;
                while i < e.children.len()
                    invariant
                        i <= e.children.len(),
                        *self == Node::Element(*e),
                        kids.len() == i,
                        forall|j: int| 0 <= j < i ==> (#[trigger] kids@[j])@ == e.children@[j]@,
                    decreases e.children.len() - i,
                {
                    proof {
                        lemma_child_is_smaller(*self, i as int);
                    }
                    kids.push(e.children[i].duplicate());
                    i += 1;
                }
                let out = Element {
                    tag: e.tag.duplicate(),
                    attrs: copy_attributes(&e.attrs),
                    children: kids,
                };
                proof {
                    lemma_element_view(*e);
                    lemma_element_view(out);
                    assert(nodes_view(out.children@) =~= nodes_view(e.children@));
                }
                Node::Element(out)
            },
        }
    }

    /// The widget kind, if this node is an element.
    pub fn tag(&self) -> (r: Option<&Widget>)
        ensures
            match self@ {
                NodeView::Element { tag, .. } => r is Some && r->0@ == tag,
                NodeView::Text(_) => r is None,
            },
    {
        match self {
            Node::Element(e) => Some(&e.tag),
            Node::Text(_) => None,
        }
    }

    /// The element, if this node is one.
    pub fn as_element_ref(&self) -> (r: Option<&Element>)
        ensures
            match self {
                Node::Element(e) => r == Some(e),
                Node::Text(_) => r is None,
            },
    {
        match self {
            Node::Element(e) => Some(e),
            Node::Text(_) => None,
        }
    }
}

impl Clone for Node {
    fn clone(&self) -> (r: Node)
        ensures
            r@ == self@,
    {
        self.duplicate()
    }
}

/// The key a node carries: the literal its `Key` attribute is set to.
/// A text node carries none.
pub open spec fn key_of(node: NodeView) -> Option<ValueView> {
    match node {
        NodeView::Element { attrs, .. } => lookup_value(attrs, AttribKey::Key),
        NodeView::Text(_) => None,
    }
}

/// The key a node carries, if it carries one.
pub fn node_key(node: &Node) -> (r: Option<&Value>)
    ensures
        r is Some <==> key_of(node@) is Some,
        r is Some ==> r->0@ == key_of(node@)->0,
{
    match node {
        Node::Element(e) => {
            proof {
                lemma_element_view(*e);
            }
            find_value(AttribKey::Key, &e.attrs)
        },
        Node::Text(_) => None,
    }
}

} // verus!
