//! The shapes that the functions in a value take.

use crate::css::{ValueKind, ValueNode};
use crate::registry;
use crate::registry::{BareValueType, CssDataType, ShapeModel, ValueShape};
use crate::text;
use vstd::prelude::*;
use vstd::string::*;

verus! {

/// `reference` without the `-*` endings that it has.
pub open spec fn without_stars(reference: Seq<char>) -> Seq<char>
    decreases reference.len(),
{
    let n = reference.len();
    if n >= 2 && reference[n - 2] == '-' && reference[n - 1] == '*' {
        without_stars(reference.take(n - 2))
    } else {
        reference
    }
}

/// The prefix to which a key is joined: `--color-` for `--color` and for
/// `--color-*`.
pub open spec fn key_prefix(reference: Seq<char>) -> Seq<char> {
    without_stars(reference).push('-')
}

/// `--color` → `--color-`: the prefix a key is joined to.
pub fn theme_prefix(reference: &str) -> (prefix: String)
    ensures
        prefix@ == key_prefix(reference@),
{
    let mut end: usize = reference.unicode_len();
    assert(reference@.take(end as int) == reference@);
    while end >= 2 && reference.get_char(end - 2) == '-' && reference.get_char(end - 1) == '*'
        invariant
            end <= reference@.len(),
            without_stars(reference@) == without_stars(reference@.take(end as int)),
        decreases end,
    {
        assert(reference@.take(end as int).take(end - 2) == reference@.take(end - 2));
        end -= 2;
    }
    let mut prefix = reference.substring_char(0, end).to_owned();
    prefix.append("-");
    proof {
        reveal_strlit("-");
        assert(prefix@ == without_stars(reference@).push('-'));
    }
    prefix
}

/// The data type that a name stands for.
pub open spec fn data_type_named(name: Seq<char>) -> Option<CssDataType> {
    if name == "color"@ {
        Some(CssDataType::Color)
    } else if name == "length"@ {
        Some(CssDataType::Length)
    } else if name == "percentage"@ {
        Some(CssDataType::Percentage)
    } else if name == "number"@ {
        Some(CssDataType::Number)
    } else if name == "integer"@ {
        Some(CssDataType::Integer)
    } else if name == "ratio"@ {
        Some(CssDataType::Ratio)
    } else if name == "angle"@ {
        Some(CssDataType::Angle)
    } else if name == "url"@ {
        Some(CssDataType::Url)
    } else if name == "position"@ {
        Some(CssDataType::Position)
    } else if name == "bg-size"@ {
        Some(CssDataType::BgSize)
    } else if name == "line-width"@ {
        Some(CssDataType::LineWidth)
    } else if name == "image"@ {
        Some(CssDataType::Image)
    } else if name == "absolute-size"@ {
        Some(CssDataType::AbsoluteSize)
    } else if name == "relative-size"@ {
        Some(CssDataType::RelativeSize)
    } else if name == "vector"@ {
        Some(CssDataType::Vector)
    } else {
        None
    }
}

/// The `[type]` a `--value([type])` argument names; `[*]` and unknown names
/// are `None` (any arbitrary value).
pub fn css_data_type(name: &str) -> (data_type: Option<CssDataType>)
    ensures
        data_type == data_type_named(name@),
{
    if text::same_text(name, "color") {
        Some(CssDataType::Color)
    } else if text::same_text(name, "length") {
        Some(CssDataType::Length)
    } else if text::same_text(name, "percentage") {
        Some(CssDataType::Percentage)
    } else if text::same_text(name, "number") {
        Some(CssDataType::Number)
    } else if text::same_text(name, "integer") {
        Some(CssDataType::Integer)
    } else if text::same_text(name, "ratio") {
        Some(CssDataType::Ratio)
    } else if text::same_text(name, "angle") {
        Some(CssDataType::Angle)
    } else if text::same_text(name, "url") {
        Some(CssDataType::Url)
    } else if text::same_text(name, "position") {
        Some(CssDataType::Position)
    } else if text::same_text(name, "bg-size") {
        Some(CssDataType::BgSize)
    } else if text::same_text(name, "line-width") {
        Some(CssDataType::LineWidth)
    } else if text::same_text(name, "image") {
        Some(CssDataType::Image)
    } else if text::same_text(name, "absolute-size") {
        Some(CssDataType::AbsoluteSize)
    } else if text::same_text(name, "relative-size") {
        Some(CssDataType::RelativeSize)
    } else if text::same_text(name, "vector") {
        Some(CssDataType::Vector)
    } else {
        None
    }
}

/// The text of an optional string.
pub open spec fn optional_text(string: Option<String>) -> Option<Seq<char>> {
    match string {
        Some(s) => Some(s@),
        None => None,
    }
}

/// The text of the dashed identifier that a theme reference holds.
pub open spec fn reference_text(reference: ValueNode) -> Option<Seq<char>> {
    if reference.children@.len() > 0 && reference.children@[0].kind == ValueKind::DashedIdentifier {
        optional_text(reference.children@[0].first_token)
    } else {
        None
    }
}

/// The data type that the first item of a bracketed value names.
pub open spec fn bracketed_type(bracketed: ValueNode) -> Option<CssDataType> {
    if bracketed.children@.len() > 0 {
        match bracketed.children@[0].first_token {
            Some(token) => data_type_named(token@),
            None => None,
        }
    } else {
        None
    }
}

/// The shape that one node stands for, given what it stands directly inside.
pub open spec fn node_shape(node: ValueNode, parent: ValueKind) -> Option<ShapeModel> {
    match node.kind {
        ValueKind::ThemeReference => match reference_text(node) {
            Some(token) => Some(ShapeModel::Theme(key_prefix(token))),
            None => None,
        },
        ValueKind::DashedIdentifier => match node.first_token {
            Some(token) if parent != ValueKind::ThemeReference => Some(
                ShapeModel::Theme(key_prefix(token@)),
            ),
            _ => None,
        },
        ValueKind::BracketedValue => Some(ShapeModel::Arbitrary(bracketed_type(node))),
        ValueKind::StringLiteral => match node.inner_text {
            Some(literal) => Some(ShapeModel::Literal(literal@)),
            None => None,
        },
        ValueKind::Identifier => match node.first_token {
            Some(token) if parent != ValueKind::BracketedValue && parent != ValueKind::Function => {
                match registry::bare_value_type(token@) {
                    Some(bare) => Some(ShapeModel::Bare(bare)),
                    None => None,
                }
            },
            _ => None,
        },
        _ => None,
    }
}

/// The shapes that `nodes` and all nodes inside them stand for, in document
/// order. `parent` is what `nodes` stand directly inside.
pub open spec fn shapes(nodes: Seq<ValueNode>, parent: ValueKind) -> Seq<ShapeModel>
    decreases nodes,
{
    if nodes.len() == 0 {
        Seq::empty()
    } else {
        let node = nodes.last();
        let own = match node_shape(node, parent) {
            Some(shape) => seq![shape],
            None => Seq::empty(),
        };
        shapes(nodes.drop_last(), parent) + own + shapes(node.children@, node.kind)
    }
}

/// The shapes of the parameters of a function.
pub open spec fn function_shapes(function: ValueNode) -> Seq<ShapeModel> {
    if function.children@.len() >= 2 {
        let parameters = function.children@[1];
        shapes(parameters.children@, parameters.kind)
    } else {
        Seq::empty()
    }
}

/// The shape that one node stands for, given what it stands directly inside.
fn shape_of(node: &ValueNode, parent: ValueKind) -> (shape: Option<ValueShape>)
    ensures
        node_shape(*node, parent) == match shape {
            Some(s) => Some(s@),
            None => None,
        },
{
    match node.kind {
        ValueKind::ThemeReference => {
            if node.children.len() > 0 {
                if let ValueKind::DashedIdentifier = node.children[0].kind {
                    if let Some(token) = &node.children[0].first_token {
                        return Some(ValueShape::Theme(theme_prefix(token.as_str())));
                    }
                }
            }
            None
        },
        ValueKind::DashedIdentifier => match &node.first_token {
            Some(token) if parent != ValueKind::ThemeReference => Some(
                ValueShape::Theme(theme_prefix(token.as_str())),
            ),
            _ => None,
        },
        ValueKind::BracketedValue => {
            if node.children.len() > 0 {
                if let Some(token) = &node.children[0].first_token {
                    return Some(ValueShape::Arbitrary(css_data_type(token.as_str())));
                }
            }
            Some(ValueShape::Arbitrary(None))
        },
        ValueKind::StringLiteral => match &node.inner_text {
            Some(literal) => Some(ValueShape::Literal(literal.clone())),
            None => None,
        },
        ValueKind::Identifier => match &node.first_token {
            Some(token) if parent != ValueKind::BracketedValue && parent
                != ValueKind::Function => match BareValueType::from_keyword(token.as_str()) {
                Some(bare) => Some(ValueShape::Bare(bare)),
                None => None,
            },
            _ => None,
        },
        _ => None,
    }
}

fn push_shapes(nodes: &Vec<ValueNode>, parent: ValueKind, found: &mut Vec<ValueShape>)
    ensures
        registry::shapes_view(final(found)@) == registry::shapes_view(old(found)@) + shapes(
            nodes@,
            parent,
        ),
    decreases nodes@,
{
    let mut i: usize = 0;
    assert(shapes(nodes@.take(0), parent) == Seq::<ShapeModel>::empty());
    while i < nodes.len()
        invariant
            i <= nodes@.len(),
            registry::shapes_view(found@) == registry::shapes_view(old(found)@) + shapes(
                nodes@.take(i as int),
                parent,
            ),
        decreases nodes@.len() - i,
    {
        let node = &nodes[i];
        let ghost before = found@;
        assert(nodes@.take(i + 1).drop_last() == nodes@.take(i as int));
        match shape_of(node, parent) {
            Some(shape) => {
                found.push(shape);
                assert(registry::shapes_view(found@) == registry::shapes_view(before).push(shape@));
            },
            None => {},
        }
        push_shapes(&node.children, node.kind, found);
        i += 1;
    }
    assert(nodes@.take(i as int) == nodes@);
}

/// The argument shapes of one `--value(…)` / `--modifier(…)` call.
pub fn value_shapes(function: &ValueNode) -> (found: Vec<ValueShape>)
    ensures
        registry::shapes_view(found@) == function_shapes(*function),
{
    let mut found: Vec<ValueShape> = Vec::new();
    assert(registry::shapes_view(found@) == Seq::<ShapeModel>::empty());
    if function.children.len() >= 2 {
        let parameters = &function.children[1];
        push_shapes(&parameters.children, parameters.kind, &mut found);
    }
    found
}

} // verus!
