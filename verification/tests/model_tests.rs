use sauron_native::apply::checked_native_size;
use sauron_native::attrs::{
    bring_data, kind_suits_control, revise_control, revise_widget, suits_widget, Change,
};
use sauron_native::factory::{build_each, bytes_value, extent_value, flag_value, text_value, wrap};
use sauron_native::native::{Control, NativeWidget};
use sauron_native::node::{node_key, Node};
use sauron_native::value::{
    copy_attributes, copy_bytes, find_attribute, same_bytes, AttribKey, AttribValue, Attribute,
    Value,
};
use sauron_native::widget::{button, text, vbox, widget, Widget};

fn set(key: AttribKey, v: Value) -> Attribute {
    Attribute::from_value(key, v)
}

#[test]
fn widget_kinds_compare_with_their_payload() {
    assert!(Widget::Vbox.same(&Widget::Vbox));
    assert!(!Widget::Vbox.same(&Widget::Hbox));
    assert!(Widget::Text("a".to_string()).same(&Widget::Text("a".to_string())));
    assert!(!Widget::Text("a".to_string()).same(&Widget::Text("b".to_string())));
    assert!(!Widget::Text("a".to_string()).same(&Widget::Block("a".to_string())));
    assert_eq!(Widget::TextBox("t".to_string()).duplicate(), Widget::TextBox("t".to_string()));
    assert_eq!(Widget::Svg.duplicate(), Widget::Svg);
    for kind in [Widget::Vbox, Widget::Hbox, Widget::Vpane, Widget::Hpane] {
        assert!(kind.is_container());
    }
    for kind in [
        Widget::Button,
        Widget::Paragraph,
        Widget::TextInput,
        Widget::Checkbox,
        Widget::Radio,
        Widget::Image,
        Widget::Svg,
        Widget::TextArea,
        Widget::Text(String::new()),
        Widget::Block(String::new()),
        Widget::TextBox(String::new()),
    ] {
        assert!(!kind.is_container());
    }
}

#[test]
fn containers_are_flex_boxes_and_panes() {
    assert!(Control::Flex { vertical: true }.is_structural());
    assert!(Control::Paned { vertical: false }.is_structural());
    assert!(!Control::Scrolled.is_structural());
    assert!(!Control::Viewport.is_structural());
    assert!(!Control::Label { text: String::new() }.is_structural());
}

#[test]
fn attributes_copy_and_compare() {
    let a = set(AttribKey::Label, Value::Str("x".to_string()));
    let c = Attribute::from_callback(AttribKey::ClickEvent, 3);
    assert_eq!(a.duplicate(), a);
    assert_eq!(c.duplicate(), c);
    assert_eq!(a.get_value(), Some(&Value::Str("x".to_string())));
    assert_eq!(a.get_callback(), None);
    assert_eq!(c.get_value(), None);
    assert_eq!(c.get_callback(), Some(3));
    assert!(a.value.same(&AttribValue::Value(Value::Str("x".to_string()))));
    assert!(!a.value.same(&c.value));
    assert!(c.value.same(&AttribValue::Callback(3)));
    assert!(!c.value.same(&AttribValue::Callback(4)));
    assert_eq!(c.value.duplicate(), AttribValue::Callback(3));
    let list = vec![a, c];
    assert_eq!(copy_attributes(&list), list);
    assert_eq!(find_attribute(AttribKey::ClickEvent, &list), Some(&list[1]));
    assert_eq!(find_attribute(AttribKey::Key, &list), None);
    assert_eq!(copy_bytes(&vec![1, 2, 3]), vec![1, 2, 3]);
    assert!(same_bytes(&vec![], &vec![]));
    assert!(!same_bytes(&vec![1], &vec![2]));
}

#[test]
fn attribute_values_are_read_by_kind() {
    let attrs = vec![
        set(AttribKey::Label, Value::Int(12)),
        set(AttribKey::Value, Value::Bool(true)),
        set(AttribKey::Data, Value::Bytes(vec![4, 5])),
        set(AttribKey::Width, Value::Int(-3)),
        set(AttribKey::Height, Value::Bool(false)),
    ];
    assert_eq!(text_value(AttribKey::Label, &attrs), "12");
    assert_eq!(text_value(AttribKey::Data, &attrs), "");
    assert_eq!(text_value(AttribKey::Name, &attrs), "");
    assert!(flag_value(AttribKey::Value, &attrs));
    assert!(!flag_value(AttribKey::Height, &attrs));
    assert!(!flag_value(AttribKey::Label, &attrs));
    assert_eq!(bytes_value(AttribKey::Data, &attrs), vec![4, 5]);
    assert_eq!(bytes_value(AttribKey::Label, &attrs), Vec::<u8>::new());
    assert_eq!(extent_value(AttribKey::Width, &attrs), Some(-3));
    assert_eq!(extent_value(AttribKey::Height, &attrs), None);
    assert_eq!(extent_value(AttribKey::Name, &attrs), None);
}

#[test]
fn nodes_give_their_key_and_their_element() {
    let keyed = button(vec![set(AttribKey::Key, Value::Int(4))]);
    assert_eq!(node_key(&keyed), Some(&Value::Int(4)));
    assert_eq!(node_key(&button(vec![])), None);
    assert_eq!(node_key(&Node::Text("t".to_string())), None);
    let called = button(vec![Attribute::from_callback(AttribKey::Key, 1)]);
    assert_eq!(node_key(&called), None);
    match keyed.as_element_ref() {
        Some(e) => assert_eq!(e.tag, Widget::Button),
        None => panic!("a button is an element"),
    }
    assert!(Node::Text("t".to_string()).as_element_ref().is_none());
    assert_eq!(keyed.clone(), keyed);
}

#[test]
fn a_change_tells_what_it_does_to_a_key() {
    let attrs = vec![
        set(AttribKey::Label, Value::Str("a".to_string())),
        set(AttribKey::Label, Value::Str("b".to_string())),
    ];
    let assign = Change::Assign(&attrs);
    assert_eq!(
        assign.setting(AttribKey::Label),
        Some(Some(&AttribValue::Value(Value::Str("b".to_string()))))
    );
    assert_eq!(assign.setting(AttribKey::Value), None);
    let keys = vec![AttribKey::Value, AttribKey::Data];
    let clear = Change::Clear(&keys);
    assert_eq!(clear.setting(AttribKey::Data), Some(None));
    assert_eq!(clear.setting(AttribKey::Label), None);
    assert_eq!(bring_data(&clear), Some(vec![]));
    assert_eq!(bring_data(&assign), None);
    let data = vec![set(AttribKey::Data, Value::Bytes(vec![7]))];
    assert_eq!(bring_data(&Change::Assign(&data)), Some(vec![7]));
    let text_data = vec![set(AttribKey::Data, Value::Str("s".to_string()))];
    assert_eq!(bring_data(&Change::Assign(&text_data)), Some(vec![]));
}

#[test]
fn an_image_keeps_its_picture_where_a_change_leaves_it_without_a_size() {
    let mut control = Control::Image { data: vec![1], pixels_wide: 2, pixels_high: 3 };
    let data = vec![set(AttribKey::Data, Value::Bytes(vec![9, 9]))];
    revise_control(&Widget::Image, &mut control, &Change::Assign(&data));
    assert_eq!(control, Control::Image { data: vec![9, 9], pixels_wide: 2, pixels_high: 3 });
    let resized = vec![
        set(AttribKey::Data, Value::Bytes(vec![7])),
        set(AttribKey::PixelsWide, Value::Int(5)),
        set(AttribKey::PixelsHigh, Value::Int(6)),
    ];
    revise_control(&Widget::Image, &mut control, &Change::Assign(&resized));
    assert_eq!(control, Control::Image { data: vec![7], pixels_wide: 5, pixels_high: 6 });
    let no_size = vec![
        set(AttribKey::Data, Value::Bytes(vec![8])),
        set(AttribKey::PixelsWide, Value::Int(-5)),
    ];
    revise_control(&Widget::Image, &mut control, &Change::Assign(&no_size));
    assert_eq!(control, Control::Image { data: vec![7], pixels_wide: 5, pixels_high: 6 });
    revise_control(&Widget::Image, &mut control, &Change::Clear(&vec![AttribKey::PixelsHigh]));
    assert_eq!(control, Control::Image { data: vec![7], pixels_wide: 5, pixels_high: 6 });
    revise_control(&Widget::Image, &mut control, &Change::Clear(&vec![AttribKey::Data]));
    assert_eq!(control, Control::Image { data: vec![], pixels_wide: 5, pixels_high: 6 });
    let other = vec![set(AttribKey::Label, Value::Str("l".to_string()))];
    let mut live = NativeWidget { control, children: vec![] };
    revise_widget(&Widget::Image, &mut live, &Change::Assign(&other));
    assert_eq!(live.control, Control::Image { data: vec![], pixels_wide: 5, pixels_high: 6 });
}

#[test]
fn buttons_text_areas_and_svg_are_looked_for_in_the_widget() {
    let button = NativeWidget {
        control: Control::Button { label: String::new(), on_click: None },
        children: vec![],
    };
    let flex = NativeWidget { control: Control::Flex { vertical: true }, children: vec![] };
    assert!(suits_widget(&Widget::Button, &button));
    assert!(!suits_widget(&Widget::Button, &flex));
    assert!(suits_widget(&Widget::Vbox, &flex));
    assert!(suits_widget(&Widget::Vbox, &button));
    assert!(suits_widget(&Widget::Text("t".to_string()), &button));
    let area = Control::TextArea { value: String::new(), width: None, height: None };
    let wrapped = wrap(&Widget::TextArea, area.clone());
    let bare = NativeWidget { control: area.clone(), children: vec![] };
    assert!(suits_widget(&Widget::TextArea, &wrapped));
    assert!(!suits_widget(&Widget::TextArea, &bare));
    assert!(!suits_widget(&Widget::TextArea, &button));
    let svg = wrap(&Widget::Svg, Control::Svg { markup: String::new() });
    assert!(suits_widget(&Widget::Svg, &svg));
    assert!(!suits_widget(&Widget::Svg, &wrapped));
    assert!(!suits_widget(&Widget::TextArea, &svg));
    assert!(kind_suits_control(&Widget::Button, &button.control));
    assert!(!kind_suits_control(&Widget::Button, &area));
    assert!(!kind_suits_control(&Widget::Svg, &area));
}

#[test]
fn every_other_kind_is_set_on_any_widget_and_changes_only_its_own() {
    let area = Control::TextArea { value: "v".to_string(), width: None, height: None };
    let mut button = NativeWidget {
        control: Control::Button { label: "L".to_string(), on_click: None },
        children: vec![],
    };
    let attrs = vec![
        set(AttribKey::Label, Value::Str("x".to_string())),
        set(AttribKey::Value, Value::Bool(true)),
    ];
    for kind in [
        Widget::Paragraph,
        Widget::TextInput,
        Widget::Checkbox,
        Widget::Radio,
        Widget::Image,
        Widget::Hpane,
    ] {
        assert!(suits_widget(&kind, &button));
        assert!(kind_suits_control(&kind, &area));
        revise_widget(&kind, &mut button, &Change::Assign(&attrs));
        assert_eq!(button.control, Control::Button { label: "L".to_string(), on_click: None });
    }
    let mut check = Control::Checkbox { label: "c".to_string(), checked: false };
    revise_control(&Widget::Checkbox, &mut check, &Change::Assign(&attrs));
    assert_eq!(check, Control::Checkbox { label: "x".to_string(), checked: true });
    revise_control(&Widget::Radio, &mut check, &Change::Clear(&vec![AttribKey::Label]));
    assert_eq!(check, Control::Checkbox { label: "x".to_string(), checked: true });
}

#[test]
fn an_attribute_that_carries_a_callback_leaves_texts_and_flags_alone() {
    let mut button = NativeWidget {
        control: Control::Button { label: "L".to_string(), on_click: Some(1) },
        children: vec![],
    };
    let calls = vec![
        Attribute::from_callback(AttribKey::Label, 7),
        Attribute::from_callback(AttribKey::Value, 8),
        Attribute::from_callback(AttribKey::Key, 9),
    ];
    revise_widget(&Widget::Button, &mut button, &Change::Assign(&calls));
    assert_eq!(button.control, Control::Button { label: "L".to_string(), on_click: Some(1) });
    let click = vec![Attribute::from_callback(AttribKey::ClickEvent, 5)];
    revise_widget(&Widget::Button, &mut button, &Change::Assign(&click));
    assert_eq!(button.control, Control::Button { label: "L".to_string(), on_click: Some(5) });
    let literal = vec![set(AttribKey::ClickEvent, Value::Int(3))];
    revise_widget(&Widget::Button, &mut button, &Change::Assign(&literal));
    assert_eq!(button.control, Control::Button { label: "L".to_string(), on_click: Some(5) });
    let mut check = Control::Checkbox { label: "c".to_string(), checked: true };
    revise_control(&Widget::Checkbox, &mut check, &Change::Assign(&calls));
    assert_eq!(check, Control::Checkbox { label: "c".to_string(), checked: true });
    assert_eq!(Change::Assign(&calls).setting(AttribKey::Label), None);
}

#[test]
fn an_svg_is_reached_through_both_wrappers() {
    let mut live = wrap(&Widget::Svg, Control::Svg { markup: "<a/>".to_string() });
    let data = vec![set(AttribKey::Data, Value::Bytes(b"<b/>".to_vec()))];
    revise_widget(&Widget::Svg, &mut live, &Change::Assign(&data));
    assert_eq!(live, wrap(&Widget::Svg, Control::Svg { markup: "<b/>".to_string() }));
    revise_widget(&Widget::Svg, &mut live, &Change::Clear(&vec![AttribKey::Data]));
    assert_eq!(live, wrap(&Widget::Svg, Control::Svg { markup: String::new() }));
    let bare = NativeWidget { control: Control::Svg { markup: "<a/>".to_string() }, children: vec![] };
    assert!(!suits_widget(&Widget::Svg, &bare));
}

#[test]
fn native_sizes_stop_at_wrappers() {
    let tree = vbox(vec![], vec![widget(Widget::Svg, vec![], vec![]), text("t")]);
    let built = build_each(&vec![tree, button(vec![])]);
    assert_eq!(built.len(), 2);
    assert_eq!(checked_native_size(&built[0]), Some(3));
    assert_eq!(checked_native_size(&built[1]), Some(1));
    let wrapped = wrap(&Widget::TextArea, Control::Label { text: String::new() });
    assert_eq!(checked_native_size(&wrapped), Some(1));
}
