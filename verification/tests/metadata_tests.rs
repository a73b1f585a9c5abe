use tesseract::metadata::{
    build_properties, create_opening_tag, extract_html_field_attrs, synthesize, AttributeMetadata,
    FieldDef, MetadataError, TypeData, TypeDef, VariantDef,
};

fn variant(ident: &str, value: Option<&str>) -> VariantDef {
    VariantDef {
        ident: ident.to_string(),
        value: value.map(|v| v.to_string()),
    }
}

fn enum_def(tag_name: Option<&str>, variants: Vec<VariantDef>) -> TypeDef {
    TypeDef {
        ident: "Example".to_string(),
        tag_name: tag_name.map(|t| t.to_string()),
        data: TypeData::Enum(variants),
    }
}

#[test]
fn lib_should_build_single_property() {
    let key = "key";
    let value = "value";

    let expected = format!("{}=\"{}\"", key, value);

    let fields = vec![AttributeMetadata {
        key: key.to_string(),
        value: value.to_string(),
    }];
    let actual = build_properties(&fields);

    assert_eq!(actual, expected);
}

#[test]
fn lib_should_build_multiple_properties() {
    let key_one = "key_one";
    let value_one = "value_one";
    let key_two = "key_two";
    let value_two = "value_two";

    let expected = format!(
        "{}=\"{}\" {}=\"{}\"",
        key_one, value_one, key_two, value_two
    );

    let fields = vec![
        AttributeMetadata {
            key: key_one.to_string(),
            value: value_one.to_string(),
        },
        AttributeMetadata {
            key: key_two.to_string(),
            value: value_two.to_string(),
        },
    ];
    let actual = build_properties(&fields);

    assert_eq!(actual, expected);
}

#[test]
fn lib_should_build_property_of_i32() {
    let key = "key";
    let value: i32 = 4;

    let expected = format!("{}=\"{}\"", key, value);

    let fields = vec![AttributeMetadata {
        key: key.to_string(),
        value: format!("{}", value),
    }];
    let actual = build_properties(&fields);

    assert_eq!(actual, expected);
}

#[test]
fn extraction_normalizes_variant_idents_into_keys() {
    let def = enum_def(
        Some("img"),
        vec![
            variant("SourcePath", Some("a.png")),
            variant("AltText", Some("alt")),
        ],
    );
    let metas = extract_html_field_attrs(&def).unwrap();
    assert_eq!(metas.len(), 2);
    assert_eq!(metas[0].key, "source_path");
    assert_eq!(metas[0].value, "a.png");
    assert_eq!(metas[1].key, "alt_text");
    assert_eq!(metas[1].value, "alt");
}

#[test]
fn missing_variant_value_fails_naming_the_variant() {
    let def = enum_def(
        Some("img"),
        vec![
            variant("SourcePath", Some("a.png")),
            variant("AltText", None),
            variant("ClassName", Some("c")),
        ],
    );
    assert_eq!(
        synthesize(&def).unwrap_err(),
        MetadataError::Missing("AltText".to_string())
    );
}

#[test]
fn struct_shaped_definition_fails_with_unsupported_shape() {
    let def = TypeDef {
        ident: "Example".to_string(),
        tag_name: Some("div".to_string()),
        data: TypeData::Struct(vec![FieldDef {
            ident: "field".to_string(),
            value: Some("v".to_string()),
        }]),
    };
    assert_eq!(
        synthesize(&def).unwrap_err(),
        MetadataError::UnsupportedShape("struct".to_string())
    );
    assert_eq!(
        extract_html_field_attrs(&def).unwrap_err(),
        MetadataError::UnsupportedShape("struct".to_string())
    );
}

#[test]
fn union_shaped_definition_fails_with_unsupported_shape() {
    let def = TypeDef {
        ident: "Example".to_string(),
        tag_name: Some("div".to_string()),
        data: TypeData::Union,
    };
    assert_eq!(
        synthesize(&def).unwrap_err(),
        MetadataError::UnsupportedShape("union".to_string())
    );
}

#[test]
fn colliding_keys_fail_with_duplicate_key() {
    let def = enum_def(
        Some("img"),
        vec![
            variant("ExampleValue", Some("one")),
            variant("Example_Value", Some("two")),
        ],
    );
    assert_eq!(
        synthesize(&def).unwrap_err(),
        MetadataError::DuplicateKey("example_value".to_string())
    );
}

#[test]
fn missing_tag_name_fails_before_extraction() {
    let def = enum_def(None, vec![variant("SourcePath", Some("a.png"))]);
    assert_eq!(
        synthesize(&def).unwrap_err(),
        MetadataError::Missing("tag_name".to_string())
    );
    let empty = enum_def(Some(""), vec![variant("SourcePath", Some("a.png"))]);
    assert_eq!(
        synthesize(&empty).unwrap_err(),
        MetadataError::Missing("tag_name".to_string())
    );
}

#[test]
fn missing_value_is_reported_before_a_later_duplicate() {
    let def = enum_def(
        Some("img"),
        vec![
            variant("First", None),
            variant("ExampleValue", Some("one")),
            variant("Example_Value", Some("two")),
        ],
    );
    assert_eq!(
        synthesize(&def).unwrap_err(),
        MetadataError::Missing("First".to_string())
    );
}

#[test]
fn synthesized_definition_renders_its_element() {
    let def = enum_def(
        Some("img"),
        vec![
            variant("SourcePath", Some("a.png")),
            variant("AltText", Some("alt")),
        ],
    );
    let element = synthesize(&def).unwrap();
    assert_eq!(element.tag_name, "img");
    assert_eq!(
        element.render(),
        "<img source_path=\"a.png\" alt_text=\"alt\">\n\n</img>"
    );
}

#[test]
fn synthesis_is_deterministic() {
    let make = || {
        enum_def(
            Some("img"),
            vec![variant("SourcePath", Some("a.png"))],
        )
    };
    let first = synthesize(&make()).unwrap().render();
    let second = synthesize(&make()).unwrap().render();
    assert_eq!(first, second);
}

#[test]
fn opening_tag_of_extracted_fields() {
    let fields = vec![AttributeMetadata {
        key: "class".to_string(),
        value: "test".to_string(),
    }];
    assert_eq!(create_opening_tag("div", &fields), "<div class=\"test\">");
    let empty: Vec<AttributeMetadata> = vec![];
    assert_eq!(create_opening_tag("div", &empty), "<div>");
}
