use spec_body::{
    example_to_json, from_spec_body, is_json_media_type, parse_json_from_schema, Body,
    ExampleValue, Formatting, JsonLiteral, ListSpacing, MediaContent, ObjectElement, RequestBody,
    ResolutionError, SchemaNode, SchemaTable, SchemaType, Settings, SpecBodySettings,
};

fn node() -> SchemaNode {
    SchemaNode {
        schema_type: None,
        read_only: false,
        example: None,
        items: None,
        properties: vec![],
        all_of: vec![],
        one_of: vec![],
        any_of: vec![],
    }
}

fn typed(t: SchemaType) -> SchemaNode {
    SchemaNode { schema_type: Some(t), ..node() }
}

fn with_props(props: Vec<(&str, usize)>) -> SchemaNode {
    SchemaNode {
        schema_type: Some(SchemaType::Object),
        properties: props.into_iter().map(|(k, r)| (k.to_string(), r)).collect(),
        ..node()
    }
}

fn settings() -> SpecBodySettings {
    SpecBodySettings { formatting: Formatting::Indented }
}

fn element(key: &str, value: ExampleValue, depth: usize) -> ObjectElement {
    ObjectElement { key: key.to_string(), value, depth, formatting: Formatting::Indented }
}

fn convert(n: &SchemaNode, table: &SchemaTable, depth: usize) -> Result<Option<ExampleValue>, ResolutionError> {
    parse_json_from_schema(n, table, depth, &settings())
}

fn empty_table() -> SchemaTable {
    SchemaTable { nodes: vec![] }
}

#[test]
fn read_only_gives_none_even_with_example() {
    let n = SchemaNode {
        read_only: true,
        example: Some(JsonLiteral::Bool(false)),
        schema_type: Some(SchemaType::Integer),
        ..node()
    };
    assert_eq!(convert(&n, &empty_table(), 1), Ok(None));
}

#[test]
fn scalar_type_defaults() {
    let t = empty_table();
    assert_eq!(convert(&typed(SchemaType::Boolean), &t, 1), Ok(Some(ExampleValue::Boolean(true))));
    assert_eq!(
        convert(&typed(SchemaType::Integer), &t, 1),
        Ok(Some(ExampleValue::Number("3".to_string())))
    );
    assert_eq!(
        convert(&typed(SchemaType::Number), &t, 1),
        Ok(Some(ExampleValue::Number("3.3".to_string())))
    );
    assert_eq!(
        convert(&typed(SchemaType::String), &t, 1),
        Ok(Some(ExampleValue::String("string".to_string())))
    );
}

#[test]
fn example_overrides_type_and_composition() {
    let t = SchemaTable { nodes: vec![typed(SchemaType::Boolean)] };
    let n = SchemaNode {
        schema_type: Some(SchemaType::Integer),
        example: Some(JsonLiteral::String("hello".to_string())),
        all_of: vec![0],
        one_of: vec![0],
        ..node()
    };
    assert_eq!(convert(&n, &t, 2), Ok(Some(ExampleValue::String("hello".to_string()))));
}

#[test]
fn example_keeps_nested_shape() {
    let lit = JsonLiteral::Object(vec![
        ("id".to_string(), JsonLiteral::Number("7".to_string())),
        (
            "tags".to_string(),
            JsonLiteral::Array(vec![JsonLiteral::Null, JsonLiteral::Bool(true)]),
        ),
    ]);
    let n = SchemaNode { example: Some(lit), schema_type: Some(SchemaType::String), ..node() };
    let expected = ExampleValue::Object {
        members: vec![
            element("id", ExampleValue::Number("7".to_string()), 3),
            element(
                "tags",
                ExampleValue::List {
                    spacing: ListSpacing::Styled(Formatting::Indented),
                    elements: vec![ExampleValue::Null, ExampleValue::Boolean(true)],
                },
                3,
            ),
        ],
    };
    assert_eq!(convert(&n, &empty_table(), 3), Ok(Some(expected)));
}

#[test]
fn materialized_example_equals_direct_construction() {
    let lit = JsonLiteral::Array(vec![
        JsonLiteral::Object(vec![("k".to_string(), JsonLiteral::String("v".to_string()))]),
        JsonLiteral::Number("-1.5".to_string()),
    ]);
    let direct = ExampleValue::List {
        spacing: ListSpacing::Styled(Formatting::Compact),
        elements: vec![
            ExampleValue::Object {
                members: vec![ObjectElement {
                    key: "k".to_string(),
                    value: ExampleValue::String("v".to_string()),
                    depth: 4,
                    formatting: Formatting::Compact,
                }],
            },
            ExampleValue::Number("-1.5".to_string()),
        ],
    };
    let s = SpecBodySettings { formatting: Formatting::Compact };
    assert_eq!(example_to_json(&lit, 4, &s), direct);
}

#[test]
fn object_keeps_order_and_skips_read_only() {
    let hidden = SchemaNode { read_only: true, ..typed(SchemaType::String) };
    let t = SchemaTable {
        nodes: vec![typed(SchemaType::String), hidden, typed(SchemaType::Integer)],
    };
    let n = with_props(vec![("z", 0), ("secret", 1), ("a", 2)]);
    let expected = ExampleValue::Object {
        members: vec![
            element("z", ExampleValue::String("string".to_string()), 1),
            element("a", ExampleValue::Number("3".to_string()), 1),
        ],
    };
    assert_eq!(convert(&n, &t, 1), Ok(Some(expected)));
}

#[test]
fn nested_object_goes_one_level_deeper() {
    let t = SchemaTable {
        nodes: vec![typed(SchemaType::Boolean), with_props(vec![("inner", 0)])],
    };
    let n = with_props(vec![("outer", 1)]);
    let expected = ExampleValue::Object {
        members: vec![element(
            "outer",
            ExampleValue::Object { members: vec![element("inner", ExampleValue::Boolean(true), 2)] },
            1,
        )],
    };
    assert_eq!(convert(&n, &t, 1), Ok(Some(expected)));
}

#[test]
fn all_of_merges_sibling_properties() {
    let t = SchemaTable {
        nodes: vec![
            typed(SchemaType::String),
            typed(SchemaType::Integer),
            SchemaNode { properties: vec![("a".to_string(), 0)], ..node() },
            SchemaNode { properties: vec![("b".to_string(), 1)], ..node() },
        ],
    };
    let n = SchemaNode { all_of: vec![2, 3], ..node() };
    let expected = ExampleValue::Object {
        members: vec![
            element("a", ExampleValue::String("string".to_string()), 1),
            element("b", ExampleValue::Number("3".to_string()), 1),
        ],
    };
    assert_eq!(convert(&n, &t, 1), Ok(Some(expected)));
}

#[test]
fn all_of_with_no_properties_gives_empty_object() {
    let t = SchemaTable { nodes: vec![typed(SchemaType::String)] };
    let n = SchemaNode { all_of: vec![0], ..node() };
    assert_eq!(convert(&n, &t, 1), Ok(Some(ExampleValue::Object { members: vec![] })));
}

#[test]
fn one_of_converts_first_member_only() {
    let t = SchemaTable { nodes: vec![typed(SchemaType::Boolean), typed(SchemaType::Integer)] };
    let n = SchemaNode { one_of: vec![0, 1], ..node() };
    assert_eq!(convert(&n, &t, 1), Ok(Some(ExampleValue::Boolean(true))));
}

#[test]
fn one_of_never_looks_at_later_members() {
    // The second member is a dangling reference: looking at it would fail.
    let t = SchemaTable { nodes: vec![typed(SchemaType::Boolean)] };
    let n = SchemaNode { one_of: vec![0, 42], ..node() };
    assert_eq!(convert(&n, &t, 1), Ok(Some(ExampleValue::Boolean(true))));
}

#[test]
fn any_of_behaves_like_one_of() {
    let t = SchemaTable { nodes: vec![typed(SchemaType::Integer), typed(SchemaType::Boolean)] };
    let n = SchemaNode { any_of: vec![0, 1], ..node() };
    assert_eq!(convert(&n, &t, 1), Ok(Some(ExampleValue::Number("3".to_string()))));
}

#[test]
fn all_of_takes_precedence_over_one_of() {
    let t = SchemaTable {
        nodes: vec![
            typed(SchemaType::Boolean),
            SchemaNode { properties: vec![("x".to_string(), 0)], ..node() },
        ],
    };
    let n = SchemaNode { all_of: vec![1], one_of: vec![0], ..node() };
    let expected =
        ExampleValue::Object { members: vec![element("x", ExampleValue::Boolean(true), 1)] };
    assert_eq!(convert(&n, &t, 1), Ok(Some(expected)));
}

#[test]
fn array_without_items_differs_from_array_whose_items_give_nothing() {
    let hidden = SchemaNode { read_only: true, ..typed(SchemaType::String) };
    let t = SchemaTable { nodes: vec![hidden] };
    let bare = convert(&typed(SchemaType::Array), &t, 1);
    let with_items = convert(&SchemaNode { items: Some(0), ..typed(SchemaType::Array) }, &t, 1);
    assert_eq!(
        bare,
        Ok(Some(ExampleValue::List { spacing: ListSpacing::Newline, elements: vec![] }))
    );
    assert_eq!(
        with_items,
        Ok(Some(ExampleValue::List {
            spacing: ListSpacing::Styled(Formatting::Indented),
            elements: vec![]
        }))
    );
    assert_ne!(bare, with_items);
}

#[test]
fn array_items_keep_depth() {
    let t = SchemaTable {
        nodes: vec![typed(SchemaType::Integer), with_props(vec![("n", 0)])],
    };
    let n = SchemaNode { items: Some(1), ..typed(SchemaType::Array) };
    let expected = ExampleValue::List {
        spacing: ListSpacing::Styled(Formatting::Indented),
        elements: vec![ExampleValue::Object {
            members: vec![element("n", ExampleValue::Number("3".to_string()), 5)],
        }],
    };
    assert_eq!(convert(&n, &t, 5), Ok(Some(expected)));
}

#[test]
fn untyped_schema_without_composition_gives_null() {
    assert_eq!(convert(&node(), &empty_table(), 1), Ok(Some(ExampleValue::Null)));
}

#[test]
fn dangling_reference_fails_whole_conversion() {
    let t = SchemaTable { nodes: vec![typed(SchemaType::String)] };
    let n = with_props(vec![("ok", 0), ("bad", 9)]);
    assert_eq!(convert(&n, &t, 1), Err(ResolutionError { reference: 9 }));
    let arr = SchemaNode { items: Some(3), ..typed(SchemaType::Array) };
    assert_eq!(convert(&arr, &t, 1), Err(ResolutionError { reference: 3 }));
    let all = SchemaNode { all_of: vec![0, 7], ..node() };
    assert_eq!(convert(&all, &t, 1), Err(ResolutionError { reference: 7 }));
    let one = SchemaNode { one_of: vec![5, 0], ..node() };
    assert_eq!(convert(&one, &t, 1), Err(ResolutionError { reference: 5 }));
}

#[test]
fn json_media_type_detection() {
    assert!(is_json_media_type("application/json"));
    assert!(is_json_media_type("application/vnd.api+json; charset=utf-8"));
    assert!(is_json_media_type("json"));
    assert!(!is_json_media_type("jso"));
    assert!(!is_json_media_type("application/xml"));
    assert!(!is_json_media_type(""));
}

fn content(media: &str, schema: Option<usize>) -> MediaContent {
    MediaContent { media_type: media.to_string(), schema }
}

#[test]
fn body_uses_first_json_content() {
    let t = SchemaTable { nodes: vec![typed(SchemaType::Integer), typed(SchemaType::Boolean)] };
    let rb = RequestBody {
        content: vec![
            content("text/plain", Some(0)),
            content("application/json", None),
            content("Application/JSON", Some(1)),
            content("application/json", Some(0)),
        ],
    };
    let expected = Body {
        space0: String::new(),
        value: ExampleValue::Boolean(true),
        line_terminator0: "\n".to_string(),
    };
    assert_eq!(from_spec_body(rb, &t, settings()), Ok(Some(expected)));
}

#[test]
fn body_without_json_content_is_none() {
    let t = SchemaTable { nodes: vec![typed(SchemaType::Integer)] };
    let rb = RequestBody { content: vec![content("application/xml", Some(0))] };
    assert_eq!(from_spec_body(rb, &t, settings()), Ok(None));
    let empty = RequestBody { content: vec![] };
    assert_eq!(from_spec_body(empty, &t, settings()), Ok(None));
}

#[test]
fn body_of_read_only_schema_is_none() {
    let t = SchemaTable { nodes: vec![SchemaNode { read_only: true, ..typed(SchemaType::Integer) }] };
    let rb = RequestBody { content: vec![content("application/json", Some(0))] };
    assert_eq!(from_spec_body(rb, &t, settings()), Ok(None));
}

#[test]
fn body_skips_dangling_schema_of_other_content() {
    let t = SchemaTable { nodes: vec![typed(SchemaType::Integer)] };
    let rb = RequestBody {
        content: vec![content("text/plain", Some(4)), content("application/json", Some(0))],
    };
    let expected = Body {
        space0: String::new(),
        value: ExampleValue::Number("3".to_string()),
        line_terminator0: "\n".to_string(),
    };
    assert_eq!(from_spec_body(rb, &t, settings()), Ok(Some(expected)));
}

#[test]
fn body_without_json_content_ignores_dangling_schemas() {
    let t = SchemaTable { nodes: vec![] };
    let rb = RequestBody { content: vec![content("application/xml", Some(8))] };
    assert_eq!(from_spec_body(rb, &t, settings()), Ok(None));
}

#[test]
fn body_fails_on_dangling_schema_of_json_content() {
    let t = SchemaTable { nodes: vec![typed(SchemaType::Integer)] };
    let rb = RequestBody {
        content: vec![content("application/json", Some(4)), content("application/json", Some(0))],
    };
    assert_eq!(from_spec_body(rb, &t, settings()), Err(ResolutionError { reference: 4 }));
}

#[test]
fn object_with_every_property_kept_has_all_members() {
    let t = SchemaTable { nodes: vec![typed(SchemaType::Boolean), typed(SchemaType::Number)] };
    let n = with_props(vec![("p", 0), ("q", 1)]);
    match convert(&n, &t, 1) {
        Ok(Some(ExampleValue::Object { members })) => assert_eq!(members.len(), 2),
        other => panic!("unexpected {:?}", other),
    }
}

#[test]
fn body_members_start_at_depth_one() {
    let t = SchemaTable { nodes: vec![typed(SchemaType::String), with_props(vec![("name", 0)])] };
    let rb = RequestBody { content: vec![content("application/json", Some(1))] };
    let got = from_spec_body(rb, &t, settings()).unwrap().unwrap();
    assert_eq!(
        got.value,
        ExampleValue::Object {
            members: vec![element("name", ExampleValue::String("string".to_string()), 1)]
        }
    );
}

#[test]
fn settings_keep_formatting() {
    let s = Settings { formatting: Formatting::Compact };
    assert_eq!(SpecBodySettings::from_settings(&s).formatting, Formatting::Compact);
}
