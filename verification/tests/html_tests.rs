use tesseract::attributes::GlobalAttributes;
use tesseract::html::{
    create_opening_tag, properties, property, quotes, self_closing_tag, tag, Child, Div, Head,
    HTMLElement, MarkupNode,
};

#[test]
fn should_wrap_i32_in_quotes() {
    let value: i32 = 4;

    let expected = format!("\"{}\"", value);

    let actual = quotes(&format!("{}", value));

    assert_eq!(actual, expected);
}

#[test]
fn should_wrap_str_in_quotes() {
    let value = "value";

    let expected = format!("\"{}\"", value);

    let actual = quotes(value);

    assert_eq!(actual, expected);
}

#[test]
fn html_should_build_single_property() {
    let key = "key";
    let value = "value";

    let expected = format!("{}=\"{}\"", key, value);

    let actual = property(key, value);

    assert_eq!(actual, expected);
}

#[test]
fn html_should_build_multiple_properties() {
    let key_one = "key_one";
    let value_one = "value_one";
    let key_two = "key_two";
    let value_two = "value_two";

    let expected = format!(
        "{}=\"{}\" {}=\"{}\"",
        key_one, value_one, key_two, value_two
    );

    let pairs = vec![
        (key_one.to_string(), value_one.to_string()),
        (key_two.to_string(), value_two.to_string()),
    ];
    let actual = properties(&pairs);

    assert_eq!(actual, expected);
}

#[test]
fn html_should_build_property_of_i32() {
    let key = "key";
    let value: i32 = 4;

    let expected = format!("{}=\"{}\"", key, value);

    let actual = property(key, &format!("{}", value));

    assert_eq!(actual, expected);
}

#[test]
fn should_create_tag() {
    let class_name = "class_name";
    let tag_name = "div";
    let body = "test";

    let expected = format!(
        "<{} {}=\"{}\">\n{}\n</{}>",
        tag_name,
        GlobalAttributes::Class.as_str(),
        class_name,
        body,
        tag_name
    );

    let actual = tag(
        tag_name,
        property(GlobalAttributes::Class.as_str(), class_name).as_str(),
        body,
    );

    assert_eq!(actual, expected);
}

#[test]
fn should_build_head_with_title_and_lang() {
    let expected = "<head>\n<title>\ntest page\n</title>\n<lang>\nen-gb\n</lang>\n</head>";

    let actual = Head::default().render();

    assert_eq!(actual, expected);
}

#[test]
fn opening_tag_omits_the_attribute_block_when_empty() {
    assert_eq!(create_opening_tag("div", ""), "<div>");
    assert_eq!(create_opening_tag("div", "class=\"x\""), "<div class=\"x\">");
}

#[test]
fn self_closing_tag_has_no_body_and_no_closing_tag() {
    assert_eq!(self_closing_tag("br", ""), "<br />");
    assert_eq!(self_closing_tag("img", "class=\"x\""), "<img class=\"x\" />");
}

#[test]
fn div_renders_its_content() {
    let div = Div { content: "hello" };
    assert_eq!(div.render(), "<div>\nhello\n</div>");
}

#[test]
fn global_attributes_serialize_to_their_names() {
    assert_eq!(GlobalAttributes::AccessKey.as_str(), "accesskey");
    assert_eq!(GlobalAttributes::AutoCapitalize.as_str(), "autocapitalize");
    assert_eq!(GlobalAttributes::Lang.as_str(), "lang");
    assert_eq!(GlobalAttributes::Style.as_str(), "style");
    assert_eq!(GlobalAttributes::Title.as_str(), "title");
    assert_eq!(GlobalAttributes::Class.as_str(), "class");
}

#[test]
fn node_with_text_children_renders_newline_joined() {
    let node = MarkupNode {
        tag: "div".to_string(),
        attrs: vec![],
        children: vec![
            Child::Text("Hi!".to_string()),
            Child::Text("This is a test page!".to_string()),
        ],
        self_closing: false,
    };
    assert_eq!(node.render(), "<div>\nHi!\nThis is a test page!\n</div>");
}

#[test]
fn node_with_nested_elements_renders_each_child_tag() {
    let title = MarkupNode {
        tag: "title".to_string(),
        attrs: vec![],
        children: vec![Child::Text("Example Page".to_string())],
        self_closing: false,
    };
    let lang = MarkupNode {
        tag: "lang".to_string(),
        attrs: vec![],
        children: vec![Child::Text("en-gb".to_string())],
        self_closing: false,
    };
    let expected = format!("<head>\n{}\n{}\n</head>", title.render(), lang.render());
    let head = MarkupNode {
        tag: "head".to_string(),
        attrs: vec![],
        children: vec![Child::Element(title), Child::Element(lang)],
        self_closing: false,
    };
    assert_eq!(head.render(), expected);
    assert_eq!(
        head.render(),
        "<head>\n<title>\nExample Page\n</title>\n<lang>\nen-gb\n</lang>\n</head>"
    );
}

#[test]
fn node_with_attributes_renders_them_in_declaration_order() {
    let node = MarkupNode {
        tag: "div".to_string(),
        attrs: vec![
            ("class".to_string(), "test".to_string()),
            ("lang".to_string(), "en-gb".to_string()),
        ],
        children: vec![Child::Text("body".to_string())],
        self_closing: false,
    };
    assert_eq!(
        node.render(),
        "<div class=\"test\" lang=\"en-gb\">\nbody\n</div>"
    );
}

#[test]
fn self_closing_node_renders_without_body() {
    let node = MarkupNode {
        tag: "br".to_string(),
        attrs: vec![],
        children: vec![],
        self_closing: true,
    };
    assert_eq!(node.render(), "<br />");
}
