use sauron_native::apply::{apply_patch, apply_patches, native_size, suits_patch, ApplyError};
use sauron_native::attrs::{clear_widget_attributes, set_widget_attributes, suits_widget};
use sauron_native::diff::diff;
use sauron_native::factory::from_node_tree;
use sauron_native::index::{find_node, find_nodes, follow};
use sauron_native::native::{Control, NativeWidget};
use sauron_native::node::Node;
use sauron_native::patch::Patch;
use sauron_native::value::{AttribKey, Attribute, Value};
use sauron_native::widget::{button, hbox, text, vbox, widget, Widget};

fn label(s: &str) -> Attribute {
    Attribute::from_value(AttribKey::Label, Value::Str(s.to_string()))
}

fn value(s: &str) -> Attribute {
    Attribute::from_value(AttribKey::Value, Value::Str(s.to_string()))
}

fn key(k: i64) -> Attribute {
    Attribute::from_value(AttribKey::Key, Value::Int(k))
}

fn textarea(s: &str) -> Node {
    widget(Widget::TextArea, vec![value(s)], vec![])
}

fn built(node: &Node) -> NativeWidget {
    from_node_tree(node).expect("the tree can be built")
}

fn round_trip(old: &Node, new: &Node) {
    let mut live = built(old);
    let patches = diff(old, new);
    assert_eq!(apply_patches(&mut live, &patches), Ok(()));
    assert_eq!(live, built(new));
}

fn old_screen() -> Node {
    vbox(
        vec![],
        vec![
            hbox(
                vec![],
                vec![
                    button(vec![label("column1 element1")]),
                    button(vec![label("column1 element2")]),
                    button(vec![label("column1 element3")]),
                    button(vec![label("column1 element4")]),
                    button(vec![label("column1 element5")]),
                    button(vec![label("column1 element6")]),
                ],
            ),
            hbox(
                vec![],
                vec![button(vec![label("column2")]), button(vec![label("c2 element2")])],
            ),
            button(vec![label("Hello")]),
            text("I'm a text kid!"),
            textarea("The quick brown fox"),
        ],
    )
}

fn new_screen() -> Node {
    vbox(
        vec![],
        vec![
            hbox(
                vec![],
                vec![
                    button(vec![label("Changed column1 element1")]),
                    button(vec![label("column1 element2")]),
                    button(vec![label("column1 element3")]),
                    button(vec![label("column1 element4")]),
                    button(vec![label("Changed column1 element5")]),
                    button(vec![label("Changed column1 element6")]),
                ],
            ),
            hbox(
                vec![],
                vec![button(vec![label("column2-changed")]), button(vec![label("c2 element2")])],
            ),
            button(vec![label("Hello")]),
            text("I'm a text kid!"),
            textarea("jumps over the lazy dog"),
        ],
    )
}

#[test]
fn the_screen_example_gives_one_patch_per_changed_widget() {
    assert_eq!(
        diff(&old_screen(), &new_screen()),
        vec![
            Patch::AddAttributes(Widget::Button, 2, vec![label("Changed column1 element1")]),
            Patch::AddAttributes(Widget::Button, 6, vec![label("Changed column1 element5")]),
            Patch::AddAttributes(Widget::Button, 7, vec![label("Changed column1 element6")]),
            Patch::AddAttributes(Widget::Button, 9, vec![label("column2-changed")]),
            Patch::AddAttributes(Widget::TextArea, 13, vec![value("jumps over the lazy dog")]),
        ]
    );
}

#[test]
fn the_screen_example_round_trips() {
    round_trip(&old_screen(), &new_screen());
    round_trip(&new_screen(), &old_screen());
}

#[test]
fn growing_and_shrinking_round_trip() {
    let small = vbox(vec![], vec![button(vec![label("a")])]);
    let large = vbox(
        vec![],
        vec![
            button(vec![label("A")]),
            hbox(vec![], vec![textarea("t"), Node::Text("leaf".to_string())]),
            text("end"),
        ],
    );
    round_trip(&small, &large);
    round_trip(&large, &small);
    round_trip(&vbox(vec![], vec![]), &large);
    round_trip(&large, &vbox(vec![], vec![]));
}

#[test]
fn replacing_round_trips() {
    let old = vbox(vec![], vec![hbox(vec![], vec![button(vec![]), button(vec![])]), text("x")]);
    let new = vbox(vec![], vec![button(vec![label("b")]), text("y")]);
    round_trip(&old, &new);
    round_trip(&new, &old);
    round_trip(&text("a"), &vbox(vec![], vec![text("a")]));
    round_trip(&Node::Text("a".to_string()), &Node::Text("b".to_string()));
}

#[test]
fn keyed_children_that_stay_in_place_round_trip() {
    let old = vbox(
        vec![],
        vec![button(vec![key(1), label("a")]), button(vec![key(2), label("b")])],
    );
    let new = vbox(
        vec![],
        vec![button(vec![key(1), label("A")]), button(vec![key(3), label("c")])],
    );
    round_trip(&old, &new);
}

#[test]
fn keyed_children_that_move_are_edited_where_they_stood() {
    let old = vbox(
        vec![],
        vec![button(vec![key(1), label("a")]), button(vec![key(2), label("b")])],
    );
    let new = vbox(
        vec![],
        vec![button(vec![key(2), label("B")]), button(vec![key(1), label("a")])],
    );
    let mut live = built(&old);
    assert_eq!(apply_patches(&mut live, &diff(&old, &new)), Ok(()));
    let stayed = vbox(
        vec![],
        vec![button(vec![key(1), label("a")]), button(vec![key(2), label("B")])],
    );
    assert_eq!(live, built(&stayed));
    assert_ne!(live, built(&new));
}

#[test]
fn attributes_that_go_reset_what_showed_them() {
    let old = widget(
        Widget::Checkbox,
        vec![label("on"), Attribute::from_value(AttribKey::Value, Value::Bool(true))],
        vec![],
    );
    let new = widget(Widget::Checkbox, vec![], vec![]);
    let mut live = built(&old);
    assert_eq!(
        live.control,
        Control::Checkbox { label: "on".to_string(), checked: true }
    );
    assert_eq!(apply_patches(&mut live, &diff(&old, &new)), Ok(()));
    assert_eq!(
        live.control,
        Control::Checkbox { label: String::new(), checked: false }
    );
}

#[test]
fn a_patch_without_a_widget_stops_the_batch() {
    let old = vbox(vec![], vec![button(vec![label("a")]), button(vec![label("b")])]);
    let mut live = built(&old);
    let patches = vec![
        Patch::AddAttributes(Widget::Button, 1, vec![label("first")]),
        Patch::AddAttributes(Widget::Button, 3, vec![label("nowhere")]),
        Patch::AddAttributes(Widget::Button, 2, vec![label("never")]),
    ];
    assert_eq!(
        apply_patches(&mut live, &patches),
        Err(ApplyError::IndexNotFound { patch: 1, index: 3 })
    );
    let expected = vbox(vec![], vec![button(vec![label("first")]), button(vec![label("b")])]);
    assert_eq!(live, built(&expected));
}

#[test]
fn a_dropped_widget_takes_its_patches_with_it() {
    let old = vbox(vec![], vec![button(vec![label("a")]), button(vec![label("b")])]);
    let mut live = built(&old);
    let patches = vec![
        Patch::TruncateChildren(Widget::Vbox, 0, 1),
        Patch::AppendChildren(Widget::Vbox, 0, vec![button(vec![label("new")])]),
        Patch::AddAttributes(Widget::Button, 2, vec![label("lost")]),
    ];
    assert_eq!(apply_patches(&mut live, &patches), Ok(()));
    let expected = vbox(vec![], vec![button(vec![label("a")]), button(vec![label("new")])]);
    assert_eq!(live, built(&expected));
}

#[test]
fn children_go_to_containers_only() {
    let mut live = built(&button(vec![label("a")]));
    let before = built(&button(vec![label("a")]));
    apply_patch(&mut live, &Patch::AppendChildren(Widget::Button, 0, vec![text("x")]));
    assert_eq!(live, before);
    apply_patch(&mut live, &Patch::TruncateChildren(Widget::Button, 0, 0));
    assert_eq!(live, before);
    let mut area = built(&textarea("t"));
    let area_before = built(&textarea("t"));
    apply_patch(&mut area, &Patch::TruncateChildren(Widget::TextArea, 0, 0));
    assert_eq!(area, area_before);
}

#[test]
fn a_replacement_that_cannot_be_built_leaves_the_widget() {
    let mut live = built(&button(vec![label("a")]));
    let bad = button(vec![]);
    let bad = match bad {
        Node::Element(mut e) => {
            e.children.push(text("child of a button"));
            Node::Element(e)
        }
        other => other,
    };
    apply_patch(&mut live, &Patch::Replace(0, bad));
    assert_eq!(live, built(&button(vec![label("a")])));
}

#[test]
fn appended_children_that_cannot_be_built_are_skipped() {
    let broken = widget(
        Widget::Image,
        vec![Attribute::from_value(AttribKey::Data, Value::Bytes(vec![1, 2, 3]))],
        vec![],
    );
    let mut live = built(&vbox(vec![], vec![]));
    apply_patch(
        &mut live,
        &Patch::AppendChildren(Widget::Vbox, 0, vec![text("a"), broken, text("b")]),
    );
    assert_eq!(live, built(&vbox(vec![], vec![text("a"), text("b")])));
}

#[test]
fn an_image_round_trips_with_its_size() {
    let picture = |data: Vec<u8>, wide: i64, high: i64| -> Node {
        widget(
            Widget::Image,
            vec![
                Attribute::from_value(AttribKey::Data, Value::Bytes(data)),
                Attribute::from_value(AttribKey::PixelsWide, Value::Int(wide)),
                Attribute::from_value(AttribKey::PixelsHigh, Value::Int(high)),
            ],
            vec![],
        )
    };
    let old = vbox(vec![], vec![picture(vec![1], 2, 3), picture(vec![4], 5, 6)]);
    let new = vbox(vec![], vec![picture(vec![7], 2, 3), picture(vec![4], 8, 6)]);
    assert_eq!(
        diff(&old, &new),
        vec![
            Patch::AddAttributes(
                Widget::Image,
                1,
                vec![Attribute::from_value(AttribKey::Data, Value::Bytes(vec![7]))]
            ),
            Patch::AddAttributes(
                Widget::Image,
                2,
                vec![Attribute::from_value(AttribKey::PixelsWide, Value::Int(8))]
            ),
        ]
    );
    round_trip(&old, &new);
    round_trip(&new, &old);
}

#[test]
fn panes_are_built_as_boxes_and_round_trip() {
    let old = widget(Widget::Vpane, vec![], vec![button(vec![label("a")])]);
    let new = widget(Widget::Vpane, vec![], vec![button(vec![label("b")]), text("t")]);
    assert_eq!(built(&old).control, Control::Flex { vertical: true });
    assert_eq!(
        built(&widget(Widget::Hpane, vec![], vec![])),
        built(&hbox(vec![], vec![]))
    );
    round_trip(&old, &new);
    round_trip(&new, &old);
}

#[test]
fn a_text_area_is_reached_through_its_wrapper() {
    let mut live = built(&textarea("old"));
    assert_eq!(live.control, Control::Scrolled);
    set_widget_attributes(
        &Widget::TextArea,
        &mut live,
        &vec![value("new"), Attribute::from_value(AttribKey::Width, Value::Int(40))],
    );
    assert_eq!(live.control, Control::Scrolled);
    assert_eq!(
        live.children[0].control,
        Control::TextArea { value: "new".to_string(), width: Some(40), height: None }
    );
    clear_widget_attributes(&Widget::TextArea, &mut live, &vec![AttribKey::Value]);
    assert_eq!(
        live.children[0].control,
        Control::TextArea { value: String::new(), width: Some(40), height: None }
    );
}

#[test]
fn a_button_patch_on_what_is_no_button_stops_the_batch() {
    let old = vbox(vec![], vec![button(vec![label("a")]), textarea("t")]);
    let mut live = built(&old);
    let patches = vec![
        Patch::AddAttributes(Widget::Button, 1, vec![label("first")]),
        Patch::AddAttributes(Widget::Button, 2, vec![label("wrong kind")]),
        Patch::AddAttributes(Widget::Button, 1, vec![label("never")]),
    ];
    assert!(suits_patch(&live.children[0], &patches[0]));
    assert!(!suits_patch(&live.children[1], &patches[1]));
    assert_eq!(
        apply_patches(&mut live, &patches),
        Err(ApplyError::KindMismatch { patch: 1, index: 2 })
    );
    let expected = vbox(vec![], vec![button(vec![label("first")]), textarea("t")]);
    assert_eq!(live, built(&expected));
    let clearing = vec![Patch::RemoveAttributes(Widget::TextArea, 1, vec![AttribKey::Value])];
    assert_eq!(
        apply_patches(&mut live, &clearing),
        Err(ApplyError::KindMismatch { patch: 0, index: 1 })
    );
    let svg = vec![Patch::AddAttributes(Widget::Svg, 2, vec![])];
    assert_eq!(
        apply_patches(&mut live, &svg),
        Err(ApplyError::KindMismatch { patch: 0, index: 2 })
    );
    assert_eq!(live, built(&expected));
    let harmless = vec![
        Patch::AddAttributes(Widget::Vbox, 0, vec![label("a box has no label")]),
        Patch::AddAttributes(Widget::Checkbox, 1, vec![label("no checkbox here")]),
        Patch::TruncateChildren(Widget::Button, 1, 0),
    ];
    assert!(suits_patch(&live, &harmless[0]));
    assert!(suits_patch(&live.children[0], &harmless[1]));
    assert!(suits_patch(&live.children[0], &harmless[2]));
    assert_eq!(apply_patches(&mut live, &harmless), Ok(()));
    assert_eq!(live, built(&expected));
}

#[test]
fn attributes_the_kind_does_not_reflect_change_nothing() {
    let mut live = built(&button(vec![label("a")]));
    set_widget_attributes(&Widget::Button, &mut live, &vec![value("v")]);
    assert_eq!(live, built(&button(vec![label("a")])));
    set_widget_attributes(&Widget::Button, &mut live, &vec![label("b"), label("c")]);
    assert_eq!(live, built(&button(vec![label("c")])));
    set_widget_attributes(
        &Widget::Button,
        &mut live,
        &vec![Attribute::from_callback(AttribKey::Label, 2)],
    );
    assert_eq!(live, built(&button(vec![label("c")])));
}

#[test]
fn a_way_leads_to_its_widget() {
    let tree = vbox(vec![], vec![hbox(vec![], vec![button(vec![label("x")]), text("t")])]);
    let live = built(&tree);
    assert_eq!(follow(&live, &vec![]), Some(&live));
    assert_eq!(follow(&live, &vec![0, 1]), Some(&built(&text("t"))));
    assert_eq!(follow(&live, &vec![0]), Some(&live.children[0]));
    assert_eq!(follow(&live, &vec![1]), None);
    assert_eq!(follow(&live, &vec![0, 2]), None);
    assert_eq!(follow(&live, &vec![0, 0, 0]), None);
}

#[test]
fn widgets_are_found_by_number() {
    let tree = vbox(
        vec![],
        vec![
            hbox(vec![], vec![button(vec![]), textarea("t")]),
            textarea("u"),
            hbox(vec![], vec![button(vec![])]),
        ],
    );
    let live = built(&tree);
    assert_eq!(native_size(&live), 7);
    assert_eq!(tree.size(), 7);
    let patches: Vec<Patch> = (0..9usize)
        .map(|i| Patch::TruncateChildren(Widget::Vbox, i, 0))
        .collect();
    let found = find_nodes(&live, &patches);
    assert_eq!(found.len(), 7);
    assert_eq!(found[&0], Vec::<usize>::new());
    assert_eq!(found[&1], vec![0]);
    assert_eq!(found[&2], vec![0, 0]);
    assert_eq!(found[&3], vec![0, 1]);
    assert_eq!(found[&4], vec![1]);
    assert_eq!(found[&5], vec![2]);
    assert_eq!(found[&6], vec![2, 0]);
    let some = find_nodes(&live, &vec![Patch::TruncateChildren(Widget::Hbox, 5, 0)]);
    assert_eq!(some.len(), 1);
    assert_eq!(some[&5], vec![2]);
}

#[test]
fn the_widget_of_a_number_is_built_from_the_node_of_that_number() {
    let tree = vbox(
        vec![],
        vec![hbox(vec![], vec![button(vec![label("x")]), textarea("t")]), text("u")],
    );
    let live = built(&tree);
    let found = find_nodes(
        &live,
        &vec![
            Patch::TruncateChildren(Widget::Vbox, 2, 0),
            Patch::TruncateChildren(Widget::Vbox, 3, 0),
            Patch::TruncateChildren(Widget::Vbox, 4, 0),
        ],
    );
    let at = |path: &Vec<usize>| -> &NativeWidget {
        let mut w = &live;
        for p in path {
            w = &w.children[*p];
        }
        w
    };
    assert_eq!(at(&found[&2]), &built(&button(vec![label("x")])));
    assert_eq!(at(&found[&3]), &built(&textarea("t")));
    assert_eq!(at(&found[&4]), &built(&text("u")));
}

#[test]
fn nodes_and_widgets_agree_on_every_number() {
    let tree = vbox(
        vec![],
        vec![
            hbox(vec![], vec![button(vec![label("x")]), textarea("t"), Node::Text("n".to_string())]),
            widget(Widget::Svg, vec![], vec![]),
            vbox(vec![], vec![hbox(vec![], vec![text("deep")])]),
        ],
    );
    let live = built(&tree);
    let size = tree.size();
    assert_eq!(size, 9);
    assert_eq!(native_size(&live), size);
    let patches: Vec<Patch> = (0..size + 2)
        .map(|i| Patch::TruncateChildren(Widget::Vbox, i, 0))
        .collect();
    let found = find_nodes(&live, &patches);
    assert_eq!(found.len(), size);
    for idx in 0..size {
        let node = find_node(&tree, idx).expect("the tree has a node of every number below its size");
        let mut at = &live;
        for p in &found[&idx] {
            at = &at.children[*p];
        }
        assert_eq!(at, &built(node));
    }
    assert_eq!(find_node(&tree, 0), Some(&tree));
    assert_eq!(find_node(&tree, 4), Some(&Node::Text("n".to_string())));
    assert_eq!(find_node(&tree, 8), Some(&text("deep")));
    assert_eq!(find_node(&tree, size), None);
}

#[test]
fn a_keyed_child_that_goes_from_the_front_round_trips() {
    let a = |_: ()| button(vec![key(1), label("a")]);
    let b = |_: ()| button(vec![key(2), label("b")]);
    let c = |_: ()| button(vec![key(3), label("c")]);
    let old = vbox(vec![], vec![a(()), b(())]);
    let new = vbox(vec![], vec![b(())]);
    assert_eq!(diff(&old, &new), vec![Patch::Replace(0, vbox(vec![], vec![b(())]))]);
    round_trip(&old, &new);
    round_trip(&new, &old);
    let three = vbox(vec![], vec![a(()), b(()), c(())]);
    round_trip(&three, &vbox(vec![], vec![a(()), c(())]));
    round_trip(&three, &vbox(vec![], vec![b(()), c(())]));
    round_trip(&three, &vbox(vec![], vec![c(())]));
    round_trip(&three, &vbox(vec![], vec![a(()), b(())]));
    round_trip(&vbox(vec![], vec![a(()), c(())]), &three);
    round_trip(&three, &vbox(vec![], vec![c(()), a(()), button(vec![key(4)])]));
    let nested_old = vbox(vec![], vec![text("t"), hbox(vec![], vec![a(()), b(())])]);
    let nested_new = vbox(vec![], vec![text("t"), hbox(vec![], vec![b(())])]);
    assert_eq!(
        diff(&nested_old, &nested_new),
        vec![Patch::Replace(2, hbox(vec![], vec![b(())]))]
    );
    round_trip(&nested_old, &nested_new);
}
