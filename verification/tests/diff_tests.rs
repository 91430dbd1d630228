use sauron_native::diff::{can_edit_in_place, diff};
use sauron_native::node::Node;
use sauron_native::patch::Patch;
use sauron_native::value::{AttribKey, Attribute, Value};
use sauron_native::widget::{button, hbox, text, vbox, Widget};

fn label(s: &str) -> Attribute {
    Attribute::from_value(AttribKey::Label, Value::Str(s.to_string()))
}

fn key(k: i64) -> Attribute {
    Attribute::from_value(AttribKey::Key, Value::Int(k))
}

fn keyed_button(k: i64, s: &str) -> Node {
    button(vec![key(k), label(s)])
}

#[test]
fn truncates_to_the_children_that_stay() {
    let old = vbox(vec![], vec![button(vec![label("A")]), button(vec![label("B")])]);
    let new = vbox(vec![], vec![button(vec![label("A")])]);
    assert_eq!(diff(&old, &new), vec![Patch::TruncateChildren(Widget::Vbox, 0, 1)]);
}

#[test]
fn appends_the_children_that_are_new() {
    let old = vbox(vec![], vec![]);
    let new = vbox(vec![], vec![button(vec![label("Hi")])]);
    assert_eq!(
        diff(&old, &new),
        vec![Patch::AppendChildren(Widget::Vbox, 0, vec![button(vec![label("Hi")])])]
    );
}

#[test]
fn a_changed_label_is_one_attribute_patch() {
    let old = button(vec![label("Hello")]);
    let new = button(vec![label("Hello, World")]);
    assert_eq!(
        diff(&old, &new),
        vec![Patch::AddAttributes(Widget::Button, 0, vec![label("Hello, World")])]
    );
}

#[test]
fn five_children_to_two_is_one_truncate() {
    let five = |_: ()| -> Vec<Node> {
        vec![
            button(vec![label("1")]),
            button(vec![label("2")]),
            button(vec![label("3")]),
            button(vec![label("4")]),
            button(vec![label("5")]),
        ]
    };
    let mut two = five(());
    two.truncate(2);
    let old = hbox(vec![], five(()));
    let new = hbox(vec![], two);
    let patches = diff(&old, &new);
    assert_eq!(patches, vec![Patch::TruncateChildren(Widget::Hbox, 0, 2)]);
    assert!(!patches.iter().any(|p| matches!(p, Patch::AppendChildren(..))));
}

#[test]
fn a_tree_against_itself_needs_no_patch() {
    let tree = |_: ()| -> Node {
        vbox(
            vec![key(7)],
            vec![
                hbox(vec![], vec![keyed_button(1, "a"), keyed_button(1, "b"), text("t")]),
                Node::Text("plain".to_string()),
                button(vec![label("x"), label("y")]),
            ],
        )
    };
    assert_eq!(diff(&tree(()), &tree(())), vec![]);
}

#[test]
fn reordered_keyed_children_are_not_replaced() {
    let old = vbox(vec![], vec![keyed_button(1, "a"), keyed_button(2, "b"), keyed_button(3, "c")]);
    let new = vbox(vec![], vec![keyed_button(3, "c"), keyed_button(1, "a"), keyed_button(2, "b")]);
    assert_eq!(diff(&old, &new), vec![]);
}

#[test]
fn a_keyed_child_is_patched_where_it_stood() {
    let old = vbox(vec![], vec![keyed_button(1, "a"), keyed_button(2, "b")]);
    let new = vbox(vec![], vec![keyed_button(2, "B"), keyed_button(1, "a")]);
    assert_eq!(
        diff(&old, &new),
        vec![Patch::AddAttributes(Widget::Button, 2, vec![label("B")])]
    );
}

#[test]
fn same_key_with_another_kind_is_replaced() {
    let old = vbox(vec![], vec![button(vec![key(1)])]);
    let new = vbox(vec![], vec![hbox(vec![key(1)], vec![])]);
    assert_eq!(diff(&old, &new), vec![Patch::Replace(1, hbox(vec![key(1)], vec![]))]);
}

#[test]
fn keyed_children_without_partner_are_dropped_and_appended() {
    let old = vbox(vec![], vec![keyed_button(1, "a"), keyed_button(2, "b")]);
    let new = vbox(vec![], vec![keyed_button(1, "a"), keyed_button(3, "c")]);
    assert_eq!(
        diff(&old, &new),
        vec![
            Patch::TruncateChildren(Widget::Vbox, 0, 1),
            Patch::AppendChildren(Widget::Vbox, 0, vec![keyed_button(3, "c")]),
        ]
    );
}

#[test]
fn unkeyed_children_pair_up_among_themselves() {
    let old = vbox(vec![], vec![button(vec![label("a")]), keyed_button(1, "k")]);
    let new = vbox(vec![], vec![keyed_button(1, "k"), button(vec![label("b")])]);
    assert_eq!(
        diff(&old, &new),
        vec![Patch::AddAttributes(Widget::Button, 1, vec![label("b")])]
    );
}

#[test]
fn another_kind_is_replaced_and_its_subtree_skipped() {
    let old = vbox(
        vec![],
        vec![
            hbox(vec![], vec![button(vec![]), button(vec![])]),
            button(vec![label("old")]),
        ],
    );
    let new = vbox(
        vec![],
        vec![button(vec![label("was a box")]), button(vec![label("new")])],
    );
    assert_eq!(
        diff(&old, &new),
        vec![
            Patch::Replace(1, button(vec![label("was a box")])),
            Patch::AddAttributes(Widget::Button, 4, vec![label("new")]),
        ]
    );
}

#[test]
fn text_nodes_are_equal_or_replaced() {
    let a = Node::Text("a".to_string());
    let b = Node::Text("b".to_string());
    assert_eq!(diff(&a, &Node::Text("a".to_string())), vec![]);
    assert_eq!(diff(&a, &b), vec![Patch::Replace(0, Node::Text("b".to_string()))]);
    assert_eq!(
        diff(&a, &button(vec![])),
        vec![Patch::Replace(0, button(vec![]))]
    );
    assert_eq!(
        diff(&button(vec![]), &a),
        vec![Patch::Replace(0, Node::Text("a".to_string()))]
    );
}

#[test]
fn a_text_element_with_another_text_is_another_kind() {
    assert_eq!(diff(&text("a"), &text("b")), vec![Patch::Replace(0, text("b"))]);
    assert_eq!(diff(&text("a"), &text("a")), vec![]);
}

#[test]
fn attributes_that_go_are_removed_after_those_that_come() {
    let old = button(vec![
        label("same"),
        Attribute::from_value(AttribKey::Name, Value::Str("n".to_string())),
        Attribute::from_callback(AttribKey::ClickEvent, 4),
    ]);
    let new = button(vec![
        Attribute::from_callback(AttribKey::ClickEvent, 5),
        label("same"),
        Attribute::from_value(AttribKey::Width, Value::Int(3)),
    ]);
    assert_eq!(
        diff(&old, &new),
        vec![
            Patch::AddAttributes(
                Widget::Button,
                0,
                vec![
                    Attribute::from_callback(AttribKey::ClickEvent, 5),
                    Attribute::from_value(AttribKey::Width, Value::Int(3)),
                ]
            ),
            Patch::RemoveAttributes(Widget::Button, 0, vec![AttribKey::Name]),
        ]
    );
}

#[test]
fn the_last_attribute_of_a_key_counts() {
    let old = button(vec![label("a"), label("b")]);
    let same = button(vec![label("b")]);
    assert_eq!(diff(&old, &same), vec![]);
    let new = button(vec![label("b"), label("a")]);
    assert_eq!(
        diff(&old, &new),
        vec![Patch::AddAttributes(Widget::Button, 0, vec![label("b"), label("a")])]
    );
}

#[test]
fn numbers_follow_the_old_tree_past_dropped_children() {
    let old = vbox(
        vec![],
        vec![
            hbox(
                vec![],
                vec![button(vec![label("a")]), button(vec![label("b")]), button(vec![])],
            ),
            button(vec![label("tail")]),
        ],
    );
    let new = vbox(
        vec![],
        vec![
            hbox(vec![], vec![button(vec![label("A")])]),
            button(vec![label("TAIL")]),
        ],
    );
    assert_eq!(
        diff(&old, &new),
        vec![
            Patch::TruncateChildren(Widget::Hbox, 1, 1),
            Patch::AddAttributes(Widget::Button, 2, vec![label("A")]),
            Patch::AddAttributes(Widget::Button, 5, vec![label("TAIL")]),
        ]
    );
}

#[test]
fn patch_knows_its_target_and_kind() {
    let p = Patch::TruncateChildren(Widget::Hbox, 9, 1);
    assert_eq!(p.node_idx(), 9);
    assert_eq!(p.tag(), Some(&Widget::Hbox));
    let r = Patch::Replace(3, Node::Text("t".to_string()));
    assert_eq!(r.node_idx(), 3);
    assert_eq!(r.tag(), None);
}

#[test]
fn an_attribute_that_sets_nothing_is_in_no_patch() {
    let old = button(vec![label("a")]);
    let new = button(vec![
        label("a"),
        Attribute::from_callback(AttribKey::Label, 1),
        Attribute::from_value(AttribKey::ClickEvent, Value::Int(2)),
    ]);
    assert_eq!(diff(&old, &new), vec![]);
    assert_eq!(diff(&new, &old), vec![]);
    let relabelled = button(vec![Attribute::from_callback(AttribKey::Label, 1), label("b")]);
    assert_eq!(
        diff(&new, &relabelled),
        vec![Patch::AddAttributes(Widget::Button, 0, vec![label("b")])]
    );
    let bare = button(vec![Attribute::from_callback(AttribKey::Label, 1)]);
    assert_eq!(
        diff(&old, &bare),
        vec![Patch::RemoveAttributes(Widget::Button, 0, vec![AttribKey::Label])]
    );
}

#[test]
fn an_element_whose_children_cannot_stay_in_place_is_replaced() {
    let old = vbox(vec![], vec![keyed_button(1, "a"), keyed_button(2, "b"), keyed_button(3, "c")]);
    let middle_gone = vbox(vec![], vec![keyed_button(1, "a"), keyed_button(3, "c")]);
    assert_eq!(
        diff(&old, &middle_gone),
        vec![Patch::Replace(
            0,
            vbox(vec![], vec![keyed_button(1, "a"), keyed_button(3, "c")])
        )]
    );
    let last_gone = vbox(vec![], vec![keyed_button(1, "A"), keyed_button(2, "b")]);
    assert_eq!(
        diff(&old, &last_gone),
        vec![
            Patch::TruncateChildren(Widget::Vbox, 0, 2),
            Patch::AddAttributes(Widget::Button, 1, vec![label("A")]),
        ]
    );
    let front_new = vbox(
        vec![],
        vec![
            keyed_button(4, "d"),
            keyed_button(1, "a"),
            keyed_button(2, "b"),
            keyed_button(3, "c"),
        ],
    );
    assert_eq!(diff(&old, &front_new).len(), 1);
    assert!(matches!(&diff(&old, &front_new)[0], Patch::Replace(0, _)));
    let moved_and_gone = vbox(vec![], vec![keyed_button(2, "b"), keyed_button(1, "a")]);
    assert!(matches!(&diff(&old, &moved_and_gone)[0], Patch::Replace(0, _)));
}

#[test]
fn children_are_edited_in_place_where_they_stay_in_place_or_all_have_partners() {
    let a = |_: ()| keyed_button(1, "a");
    let b = |_: ()| keyed_button(2, "b");
    let c = |_: ()| keyed_button(3, "c");
    let plain = |_: ()| button(vec![]);
    assert!(can_edit_in_place(&vec![], &vec![]));
    assert!(can_edit_in_place(&vec![a(()), b(())], &vec![a(()), b(())]));
    assert!(can_edit_in_place(&vec![a(()), b(())], &vec![b(()), a(())]));
    assert!(can_edit_in_place(&vec![a(()), b(())], &vec![a(())]));
    assert!(can_edit_in_place(&vec![a(()), b(())], &vec![a(()), c(())]));
    assert!(can_edit_in_place(&vec![a(()), b(())], &vec![c(())]));
    assert!(can_edit_in_place(&vec![a(())], &vec![a(()), b(()), c(())]));
    assert!(can_edit_in_place(&vec![plain(()), plain(())], &vec![plain(())]));
    assert!(can_edit_in_place(&vec![plain(()), a(())], &vec![a(()), plain(())]));
    assert!(!can_edit_in_place(&vec![a(()), b(())], &vec![b(())]));
    assert!(!can_edit_in_place(&vec![a(()), b(())], &vec![c(()), a(())]));
    assert!(!can_edit_in_place(&vec![a(()), b(()), c(())], &vec![a(()), c(())]));
    assert!(!can_edit_in_place(&vec![a(()), b(())], &vec![b(()), a(()), c(())]));
    assert!(!can_edit_in_place(&vec![plain(()), a(())], &vec![a(())]));
    assert!(!can_edit_in_place(&vec![a(()), a(())], &vec![b(()), a(())]));
}
