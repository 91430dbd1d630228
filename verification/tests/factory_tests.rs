use sauron_native::factory::{from_node, from_node_tree, markup_from, pixels_value};
use sauron_native::native::{Control, NativeWidget};
use sauron_native::node::Node;
use sauron_native::value::{decimal_string, find_callback, find_value, AttribKey, Attribute, Value};
use sauron_native::widget::{block, button, hbox, text, textbox, vbox, widget, Widget};

fn set(key: AttribKey, v: Value) -> Attribute {
    Attribute::from_value(key, v)
}

fn sized(data: Vec<u8>, wide: i64, high: i64) -> Vec<Attribute> {
    vec![
        set(AttribKey::Data, Value::Bytes(data)),
        set(AttribKey::PixelsWide, Value::Int(wide)),
        set(AttribKey::PixelsHigh, Value::Int(high)),
    ]
}

fn leaf(control: Control) -> NativeWidget {
    NativeWidget { control, children: vec![] }
}

#[test]
fn builders_make_elements() {
    let a = vec![set(AttribKey::Label, Value::Str("l".to_string()))];
    assert_eq!(
        vbox(vec![], vec![text("t")]),
        widget(Widget::Vbox, vec![], vec![widget(Widget::Text("t".to_string()), vec![], vec![])])
    );
    match hbox(a, vec![]) {
        Node::Element(e) => {
            assert_eq!(e.tag, Widget::Hbox);
            assert_eq!(e.attrs, vec![set(AttribKey::Label, Value::Str("l".to_string()))]);
            assert!(e.children.is_empty());
        }
        Node::Text(_) => panic!("an element was asked for"),
    }
    assert_eq!(button(vec![]), widget(Widget::Button, vec![], vec![]));
    assert_eq!(textbox("v"), widget(Widget::TextBox("v".to_string()), vec![], vec![]));
    assert_eq!(block("b"), widget(Widget::Block("b".to_string()), vec![], vec![]));
    assert_eq!(text("x").tag(), Some(&Widget::Text("x".to_string())));
    assert_eq!(Node::Text("x".to_string()).tag(), None);
}

#[test]
fn every_kind_has_its_control() {
    let attrs = vec![
        set(AttribKey::Label, Value::Str("l".to_string())),
        set(AttribKey::Value, Value::Bool(true)),
        set(AttribKey::Width, Value::Int(30)),
        set(AttribKey::Height, Value::Str("tall".to_string())),
        Attribute::from_callback(AttribKey::ClickEvent, 11),
        set(AttribKey::Data, Value::Bytes("<svg/>".as_bytes().to_vec())),
    ];
    let control = |tag: Widget| from_node(&tag, &attrs);
    assert_eq!(control(Widget::Vbox), Some(Control::Flex { vertical: true }));
    assert_eq!(control(Widget::Hbox), Some(Control::Flex { vertical: false }));
    assert_eq!(control(Widget::Vpane), control(Widget::Vbox));
    assert_eq!(control(Widget::Hpane), control(Widget::Hbox));
    assert_eq!(control(Widget::Vpane), Some(Control::Flex { vertical: true }));
    assert_eq!(control(Widget::Hpane), Some(Control::Flex { vertical: false }));
    assert_eq!(
        control(Widget::Button),
        Some(Control::Button { label: "l".to_string(), on_click: Some(11) })
    );
    assert_eq!(
        control(Widget::Paragraph),
        Some(Control::TextArea { value: "true".to_string(), width: None, height: None })
    );
    assert_eq!(control(Widget::TextInput), Some(Control::TextInput { value: "true".to_string() }));
    assert_eq!(
        control(Widget::Checkbox),
        Some(Control::Checkbox { label: "l".to_string(), checked: true })
    );
    assert_eq!(
        control(Widget::Radio),
        Some(Control::Radio { label: "l".to_string(), checked: true })
    );
    assert_eq!(control(Widget::Svg), Some(Control::Svg { markup: "<svg/>".to_string() }));
    assert_eq!(
        control(Widget::TextArea),
        Some(Control::TextArea { value: "true".to_string(), width: Some(30), height: None })
    );
    assert_eq!(
        control(Widget::Text("t".to_string())),
        Some(Control::Label { text: "t".to_string() })
    );
    assert_eq!(
        control(Widget::Block("b".to_string())),
        Some(Control::Group { title: "b".to_string() })
    );
    assert_eq!(
        control(Widget::TextBox("v".to_string())),
        Some(Control::TextInput { value: "v".to_string() })
    );
    assert_eq!(control(Widget::Image), None);
}

#[test]
fn without_attributes_controls_are_blank() {
    let none: Vec<Attribute> = vec![];
    assert_eq!(
        from_node(&Widget::Button, &none),
        Some(Control::Button { label: String::new(), on_click: None })
    );
    assert_eq!(
        from_node(&Widget::Checkbox, &none),
        Some(Control::Checkbox { label: String::new(), checked: false })
    );
    assert_eq!(from_node(&Widget::Svg, &none), Some(Control::Svg { markup: String::new() }));
    assert_eq!(from_node(&Widget::Image, &none), None);
}

#[test]
fn an_image_is_built_with_the_size_set_beside_its_data() {
    let attrs = sized(vec![1, 2, 3], 2, 3);
    assert_eq!(
        from_node(&Widget::Image, &attrs),
        Some(Control::Image { data: vec![1, 2, 3], pixels_wide: 2, pixels_high: 3 })
    );
    let largest = sized(vec![], 4294967295, 0);
    assert_eq!(
        from_node(&Widget::Image, &largest),
        Some(Control::Image { data: vec![], pixels_wide: u32::MAX, pixels_high: 0 })
    );
    let no_data = vec![
        set(AttribKey::PixelsWide, Value::Int(1)),
        set(AttribKey::PixelsHigh, Value::Int(1)),
    ];
    assert_eq!(
        from_node(&Widget::Image, &no_data),
        Some(Control::Image { data: vec![], pixels_wide: 1, pixels_high: 1 })
    );
}

#[test]
fn an_image_without_the_size_of_its_picture_fails_construction() {
    let attrs = vec![set(AttribKey::Data, Value::Bytes(vec![0, 1, 2, 3]))];
    assert_eq!(from_node(&Widget::Image, &attrs), None);
    assert_eq!(from_node(&Widget::Image, &sized(vec![], -1, 3)), None);
    assert_eq!(from_node(&Widget::Image, &sized(vec![], 3, 4294967296)), None);
    let half = vec![set(AttribKey::PixelsWide, Value::Int(1))];
    assert_eq!(from_node(&Widget::Image, &half), None);
    let words = vec![
        set(AttribKey::PixelsWide, Value::Str("1".to_string())),
        set(AttribKey::PixelsHigh, Value::Int(1)),
    ];
    assert_eq!(from_node(&Widget::Image, &words), None);
    let tree = vbox(vec![], vec![text("a"), widget(Widget::Image, attrs, vec![])]);
    assert_eq!(from_node_tree(&tree), None);
    let good = vbox(vec![], vec![widget(Widget::Image, sized(vec![9], 1, 1), vec![])]);
    assert_eq!(
        from_node_tree(&good),
        Some(NativeWidget {
            control: Control::Flex { vertical: true },
            children: vec![leaf(Control::Image { data: vec![9], pixels_wide: 1, pixels_high: 1 })],
        })
    );
}

#[test]
fn pixel_counts_are_whole_and_fit_a_picture() {
    let attrs = vec![
        set(AttribKey::PixelsWide, Value::Int(0)),
        set(AttribKey::PixelsHigh, Value::Int(-1)),
        set(AttribKey::Width, Value::Int(4294967296)),
        set(AttribKey::Height, Value::Bool(true)),
    ];
    assert_eq!(pixels_value(AttribKey::PixelsWide, &attrs), Some(0));
    assert_eq!(pixels_value(AttribKey::PixelsHigh, &attrs), None);
    assert_eq!(pixels_value(AttribKey::Width, &attrs), None);
    assert_eq!(pixels_value(AttribKey::Height, &attrs), None);
    assert_eq!(pixels_value(AttribKey::Data, &attrs), None);
}

#[test]
fn markup_is_text_or_nothing() {
    assert_eq!(markup_from("<svg>é</svg>".as_bytes().to_vec()), "<svg>é</svg>");
    assert_eq!(markup_from(vec![0xff, 0xfe]), "");
    assert_eq!(markup_from(vec![]), "");
}

#[test]
fn wrappers_go_around_text_areas_and_svg() {
    let area = widget(Widget::TextArea, vec![], vec![]);
    assert_eq!(
        from_node_tree(&area),
        Some(NativeWidget {
            control: Control::Scrolled,
            children: vec![leaf(Control::TextArea {
                value: String::new(),
                width: None,
                height: None
            })],
        })
    );
    let svg = widget(Widget::Svg, vec![], vec![]);
    assert_eq!(
        from_node_tree(&svg),
        Some(NativeWidget {
            control: Control::Scrolled,
            children: vec![NativeWidget {
                control: Control::Viewport,
                children: vec![leaf(Control::Svg { markup: String::new() })],
            }],
        })
    );
    assert_eq!(
        from_node_tree(&widget(Widget::Paragraph, vec![], vec![])),
        Some(leaf(Control::TextArea { value: String::new(), width: None, height: None }))
    );
    assert_eq!(
        from_node_tree(&Node::Text("t".to_string())),
        Some(leaf(Control::Label { text: "t".to_string() }))
    );
}

#[test]
fn children_need_a_container() {
    assert_eq!(from_node_tree(&widget(Widget::Button, vec![], vec![text("x")])), None);
    assert_eq!(
        from_node_tree(&widget(Widget::Vpane, vec![], vec![text("x")])),
        Some(NativeWidget {
            control: Control::Flex { vertical: true },
            children: vec![leaf(Control::Label { text: "x".to_string() })],
        })
    );
}

#[test]
fn integers_show_in_decimal() {
    assert_eq!(decimal_string(0), "0");
    assert_eq!(decimal_string(7), "7");
    assert_eq!(decimal_string(10), "10");
    assert_eq!(decimal_string(-1), "-1");
    assert_eq!(decimal_string(1234567890), "1234567890");
    assert_eq!(decimal_string(i64::MAX), "9223372036854775807");
    assert_eq!(decimal_string(i64::MIN), "-9223372036854775808");
    assert_eq!(decimal_string(-4050), (-4050i64).to_string());
}

#[test]
fn literals_show_as_text() {
    assert_eq!(Value::Str("s".to_string()).to_text(), "s");
    assert_eq!(Value::Bool(true).to_text(), "true");
    assert_eq!(Value::Bool(false).to_text(), "false");
    assert_eq!(Value::Int(-12).to_text(), "-12");
    assert_eq!(Value::Bytes(vec![65]).to_text(), "");
    assert_eq!(Value::Int(3).as_int(), Some(3));
    assert_eq!(Value::Bool(true).as_int(), None);
    assert_eq!(Value::Bool(true).as_bool(), Some(true));
    assert_eq!(Value::Int(1).as_bool(), None);
    assert!(Value::Bytes(vec![1, 2]).same(&Value::Bytes(vec![1, 2])));
    assert!(!Value::Bytes(vec![1, 2]).same(&Value::Bytes(vec![1])));
    assert!(!Value::Int(1).same(&Value::Bool(true)));
    assert_eq!(Value::Str("d".to_string()).duplicate(), Value::Str("d".to_string()));
}

#[test]
fn the_last_attribute_that_sets_a_key_is_found() {
    let attrs = vec![
        set(AttribKey::Label, Value::Str("first".to_string())),
        Attribute::from_callback(AttribKey::ClickEvent, 1),
        set(AttribKey::Label, Value::Str("last".to_string())),
        set(AttribKey::ClickEvent, Value::Int(2)),
        Attribute::from_callback(AttribKey::Label, 3),
    ];
    assert_eq!(find_value(AttribKey::Label, &attrs), Some(&Value::Str("last".to_string())));
    assert_eq!(find_callback(AttribKey::ClickEvent, &attrs), Some(1));
    assert_eq!(find_value(AttribKey::ClickEvent, &attrs), None);
    assert_eq!(find_value(AttribKey::Width, &attrs), None);
    assert_eq!(find_callback(AttribKey::Label, &attrs), None);
    let calls = vec![Attribute::from_callback(AttribKey::InputEvent, 8)];
    assert_eq!(find_callback(AttribKey::InputEvent, &calls), Some(8));
    assert_eq!(find_value(AttribKey::InputEvent, &calls), None);
    assert!(attrs[0].sets_its_key());
    assert!(attrs[1].sets_its_key());
    assert!(!attrs[3].sets_its_key());
    assert!(!attrs[4].sets_its_key());
    assert!(AttribKey::ClickEvent.is_event());
    assert!(AttribKey::InputEvent.is_event());
    assert!(!AttribKey::Label.is_event());
    assert!(!AttribKey::PixelsWide.is_event());
    assert_eq!(
        from_node(&Widget::Button, &attrs),
        Some(Control::Button { label: "last".to_string(), on_click: Some(1) })
    );
}

#[test]
fn sizes_count_every_node() {
    let tree = vbox(
        vec![],
        vec![button(vec![]), hbox(vec![], vec![Node::Text("t".to_string()), text("u")])],
    );
    assert_eq!(tree.size(), 5);
    assert_eq!(tree.checked_size(), Some(5));
    assert_eq!(Node::Text("t".to_string()).size(), 1);
    assert_eq!(tree.duplicate(), tree);
}
