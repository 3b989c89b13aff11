use tailwind_extract::css::{ValueKind, ValueNode};
use tailwind_extract::registry::{BareValueType, CssDataType, ValueShape};
use tailwind_extract::values::{css_data_type, theme_prefix, value_shapes};

fn node(kind: ValueKind, text: &str, children: Vec<ValueNode>) -> ValueNode {
    let first_token = Some(text.to_string());
    ValueNode { kind, text: text.to_string(), first_token, inner_text: None, children }
}

fn call(parameters: Vec<ValueNode>) -> ValueNode {
    let name = node(ValueKind::Identifier, "--value", vec![]);
    node(ValueKind::Function, "--value", vec![name, node(ValueKind::Other, "", parameters)])
}

#[test]
fn prefix_ends_in_one_dash() {
    assert_eq!(theme_prefix("--color"), "--color-");
    assert_eq!(theme_prefix("--color-*"), "--color-");
    assert_eq!(theme_prefix("--color-*-*"), "--color-");
    assert_eq!(theme_prefix("--color-"), "--color--");
    assert_eq!(theme_prefix("-*"), "-");
    assert_eq!(theme_prefix(""), "-");
    assert_eq!(theme_prefix("--größe-*"), "--größe-");
}

#[test]
fn data_types_by_name() {
    let named = [
        ("color", CssDataType::Color),
        ("length", CssDataType::Length),
        ("percentage", CssDataType::Percentage),
        ("number", CssDataType::Number),
        ("integer", CssDataType::Integer),
        ("ratio", CssDataType::Ratio),
        ("angle", CssDataType::Angle),
        ("url", CssDataType::Url),
        ("position", CssDataType::Position),
        ("bg-size", CssDataType::BgSize),
        ("line-width", CssDataType::LineWidth),
        ("image", CssDataType::Image),
        ("absolute-size", CssDataType::AbsoluteSize),
        ("relative-size", CssDataType::RelativeSize),
        ("vector", CssDataType::Vector),
    ];
    for (name, data_type) in named {
        assert_eq!(css_data_type(name), Some(data_type));
    }
    assert_eq!(css_data_type("*"), None);
    assert_eq!(css_data_type("Color"), None);
    assert_eq!(css_data_type(""), None);
}

#[test]
fn bare_types_by_keyword() {
    assert_eq!(BareValueType::from_keyword("number"), Some(BareValueType::Number));
    assert_eq!(BareValueType::from_keyword("integer"), Some(BareValueType::Integer));
    assert_eq!(BareValueType::from_keyword("ratio"), Some(BareValueType::Ratio));
    assert_eq!(BareValueType::from_keyword("percentage"), Some(BareValueType::Percentage));
    assert_eq!(BareValueType::from_keyword("color"), None);
}

#[test]
fn shapes_of_nested_parameters() {
    let unknown = node(ValueKind::BracketedValue, "[", vec![node(ValueKind::Other, "*", vec![])]);
    let empty = node(ValueKind::BracketedValue, "[", vec![]);
    let nested = call(vec![node(ValueKind::Identifier, "integer", vec![])]);
    let bare = node(
        ValueKind::ThemeReference,
        "--a",
        vec![node(ValueKind::DashedIdentifier, "--a", vec![])],
    );
    let shapes = value_shapes(&call(vec![
        node(ValueKind::Other, "", vec![node(ValueKind::DashedIdentifier, "--color", vec![])]),
        unknown,
        empty,
        nested,
        bare,
        node(ValueKind::ThemeReference, "", vec![]),
        node(ValueKind::StringLiteral, "\"\"", vec![]),
        node(ValueKind::Identifier, "inherit", vec![]),
    ]));
    assert_eq!(
        shapes,
        vec![
            ValueShape::Theme("--color-".into()),
            ValueShape::Arbitrary(None),
            ValueShape::Arbitrary(None),
            // The name of the nested call is no argument.
            ValueShape::Bare(BareValueType::Integer),
            ValueShape::Theme("--a-".into()),
        ]
    );
}

#[test]
fn function_without_parameters_has_no_shapes() {
    assert!(value_shapes(&call(vec![])).is_empty());
    assert!(value_shapes(&node(ValueKind::Function, "", vec![])).is_empty());
}
