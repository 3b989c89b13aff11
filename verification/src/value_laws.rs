//! What holds of values and of single declarations.

use crate::css::{
    CssDeclaration, CssGenericProperty, CssItem, CssProperty, DeclarationName, PropertyValue,
    ValueKind, ValueNode,
};
use crate::declarations;
use crate::properties;
use crate::registry;
use crate::registry::{BareValueType, CssDataType, DeclModel, ShapeModel};
use crate::values;
use vstd::prelude::*;

verus! {

/// `-*`, `n` times.
pub open spec fn stars(n: nat) -> Seq<char>
    decreases n,
{
    if n == 0 {
        Seq::empty()
    } else {
        stars((n - 1) as nat) + seq!['-', '*']
    }
}

/// Whether a text ends in `-*`.
pub open spec fn ends_in_star(text: Seq<char>) -> bool {
    text.len() >= 2 && text[text.len() - 2] == '-' && text[text.len() - 1] == '*'
}

/// The prefix that a reference stands for is the reference without the `-*`
/// behind it, however often that stands there, and one dash.
pub proof fn law_prefix_drops_stars(base: Seq<char>, n: nat)
    requires
        !ends_in_star(base),
    ensures
        values::key_prefix(base + stars(n)) == base.push('-'),
    decreases n,
{
    if n == 0 {
        assert(base + stars(n) == base);
    } else {
        let shorter = base + stars((n - 1) as nat);
        law_prefix_drops_stars(base, (n - 1) as nat);
        assert(base + stars(n) == shorter + seq!['-', '*']);
        assert((base + stars(n)).take((base + stars(n)).len() - 2) == shorter);
        assert(values::without_stars(base + stars(n)) == values::without_stars(shorter));
    }
}

/// Every reference is one of those.
pub proof fn law_every_reference_has_a_base(reference: Seq<char>) -> (parts: (Seq<char>, nat))
    ensures
        !ends_in_star(parts.0),
        reference == parts.0 + stars(parts.1),
    decreases reference.len(),
{
    if ends_in_star(reference) {
        let shorter = reference.take(reference.len() - 2);
        let (base, n) = law_every_reference_has_a_base(shorter);
        assert(reference == shorter + seq!['-', '*']);
        assert(reference == base + stars((n + 1) as nat));
        (base, (n + 1) as nat)
    } else {
        assert(reference == reference + stars(0));
        (reference, 0)
    }
}

/// How a data type is written.
pub open spec fn data_type_name(data_type: CssDataType) -> Seq<char> {
    match data_type {
        CssDataType::Color => "color"@,
        CssDataType::Length => "length"@,
        CssDataType::Percentage => "percentage"@,
        CssDataType::Number => "number"@,
        CssDataType::Integer => "integer"@,
        CssDataType::Ratio => "ratio"@,
        CssDataType::Angle => "angle"@,
        CssDataType::Url => "url"@,
        CssDataType::Position => "position"@,
        CssDataType::BgSize => "bg-size"@,
        CssDataType::LineWidth => "line-width"@,
        CssDataType::Image => "image"@,
        CssDataType::AbsoluteSize => "absolute-size"@,
        CssDataType::RelativeSize => "relative-size"@,
        CssDataType::Vector => "vector"@,
    }
}

/// A name stands for a data type just where the type is written so.
pub proof fn law_data_type_by_its_name(name: Seq<char>, data_type: CssDataType)
    ensures
        values::data_type_named(name) == Some(data_type) <==> name == data_type_name(data_type),
{
    reveal_strlit("color");
    reveal_strlit("length");
    reveal_strlit("percentage");
    reveal_strlit("number");
    reveal_strlit("integer");
    reveal_strlit("ratio");
    reveal_strlit("angle");
    reveal_strlit("url");
    reveal_strlit("position");
    reveal_strlit("bg-size");
    reveal_strlit("line-width");
    reveal_strlit("image");
    reveal_strlit("absolute-size");
    reveal_strlit("relative-size");
    reveal_strlit("vector");
    assert("color"@.len() == 5 && "ratio"@.len() == 5 && "angle"@.len() == 5 && "image"@.len()
        == 5);
    assert("length"@.len() == 6 && "number"@.len() == 6 && "vector"@.len() == 6);
    assert("integer"@.len() == 7 && "bg-size"@.len() == 7);
    assert("percentage"@.len() == 10 && "line-width"@.len() == 10);
    assert("absolute-size"@.len() == 13 && "relative-size"@.len() == 13);
    assert("url"@.len() == 3 && "position"@.len() == 8);
    assert("color"@[0] == 'c' && "ratio"@[0] == 'r' && "angle"@[0] == 'a' && "image"@[0] == 'i');
    assert("length"@[0] == 'l' && "number"@[0] == 'n' && "vector"@[0] == 'v');
    assert("integer"@[0] == 'i' && "bg-size"@[0] == 'b');
    assert("percentage"@[0] == 'p' && "line-width"@[0] == 'l');
    assert("absolute-size"@[0] == 'a' && "relative-size"@[0] == 'r');
    if name =~= data_type_name(data_type) {
        assert(values::data_type_named(name) == Some(data_type));
    }
}

/// How a bare value type is written.
pub open spec fn bare_type_name(bare: BareValueType) -> Seq<char> {
    match bare {
        BareValueType::Number => "number"@,
        BareValueType::Integer => "integer"@,
        BareValueType::Ratio => "ratio"@,
        BareValueType::Percentage => "percentage"@,
    }
}

/// A keyword stands for a bare value type just where the type is written so.
pub proof fn law_bare_type_by_its_keyword(keyword: Seq<char>, bare: BareValueType)
    ensures
        registry::bare_value_type(keyword) == Some(bare) <==> keyword == bare_type_name(bare),
{
    reveal_strlit("number");
    reveal_strlit("integer");
    reveal_strlit("ratio");
    reveal_strlit("percentage");
    assert("number"@.len() == 6 && "integer"@.len() == 7);
    assert("ratio"@.len() == 5 && "percentage"@.len() == 10);
    if keyword =~= bare_type_name(bare) {
        assert(registry::bare_value_type(keyword) == Some(bare));
    }
}

/// The shapes of two lists of nodes stand one behind the other.
pub proof fn law_shapes_join(first: Seq<ValueNode>, second: Seq<ValueNode>, parent: ValueKind)
    ensures
        values::shapes(first + second, parent) == values::shapes(first, parent) + values::shapes(
            second,
            parent,
        ),
        values::shapes(Seq::empty(), parent) == Seq::<ShapeModel>::empty(),
    decreases second.len(),
{
    if second.len() == 0 {
        assert(first + second == first);
    } else {
        law_shapes_join(first, second.drop_last(), parent);
        assert((first + second).drop_last() == first + second.drop_last());
        assert((first + second).last() == second.last());
        assert(values::shapes(first + second, parent) == values::shapes(first, parent)
            + values::shapes(second, parent));
    }
}

/// Whether a theme reference refers to `token`.
pub open spec fn refers_to(node: ValueNode, token: Seq<char>) -> bool {
    &&& node.children@.len() > 0
    &&& node.children@[0].kind == ValueKind::DashedIdentifier
    &&& node.children@[0].first_token matches Some(t) && t@ == token
}

/// Whether the first token of a node is `token`.
pub open spec fn begins_with(node: ValueNode, token: Seq<char>) -> bool {
    node.first_token matches Some(t) && t@ == token
}

proof fn lemma_one_node(node: ValueNode, parent: ValueKind)
    ensures
        values::shapes(seq![node], parent) == (match values::node_shape(node, parent) {
            Some(shape) => seq![shape],
            None => Seq::empty(),
        }) + values::shapes(node.children@, node.kind),
{
    assert(seq![node].drop_last() == Seq::<ValueNode>::empty());
    assert(values::shapes(seq![node].drop_last(), parent) == Seq::<ShapeModel>::empty());
    assert(seq![node].last() == node);
}

/// `--color-*`, or `--color` outside such a reference, stands for the theme
/// keys behind its prefix; what is inside comes behind.
pub proof fn law_theme_shape(node: ValueNode, parent: ValueKind, token: Seq<char>)
    requires
        (node.kind == ValueKind::ThemeReference && refers_to(node, token)) || (node.kind
            == ValueKind::DashedIdentifier && parent != ValueKind::ThemeReference && begins_with(
            node,
            token,
        )),
    ensures
        values::shapes(seq![node], parent) == seq![ShapeModel::Theme(values::key_prefix(token))]
            + values::shapes(node.children@, node.kind),
{
    lemma_one_node(node, parent);
}

/// `[type]` stands for an arbitrary value, of the type that the first token in
/// the brackets names, or of any type where that one names none.
pub proof fn law_arbitrary_shape(node: ValueNode, parent: ValueKind, data_type: CssDataType)
    requires
        node.kind == ValueKind::BracketedValue,
    ensures
        node.children@.len() > 0 && begins_with(node.children@[0], data_type_name(data_type))
            ==> values::shapes(seq![node], parent) == seq![
            ShapeModel::Arbitrary(Some(data_type)),
        ] + values::shapes(node.children@, node.kind),
        (node.children@.len() == 0 || forall|t: CssDataType|
            !#[trigger] begins_with(node.children@[0], data_type_name(t))) ==> values::shapes(
            seq![node],
            parent,
        ) == seq![ShapeModel::Arbitrary(None)] + values::shapes(node.children@, node.kind),
{
    lemma_one_node(node, parent);
    if node.children@.len() > 0 {
        if let Some(token) = node.children@[0].first_token {
            law_data_type_by_its_name(token@, data_type);
            if let Some(found) = values::data_type_named(token@) {
                law_data_type_by_its_name(token@, found);
                assert(begins_with(node.children@[0], data_type_name(found)));
            }
        }
    }
}

/// `"text"` stands for that text.
pub proof fn law_literal_shape(node: ValueNode, parent: ValueKind, literal: String)
    requires
        node.kind == ValueKind::StringLiteral,
        node.inner_text == Some(literal),
    ensures
        values::shapes(seq![node], parent) == seq![ShapeModel::Literal(literal@)]
            + values::shapes(node.children@, node.kind),
{
    lemma_one_node(node, parent);
}

/// `integer` stands for a bare integer, and so on, unless it stands directly
/// in brackets or is the name of a function.
pub proof fn law_bare_shape(node: ValueNode, parent: ValueKind, bare: BareValueType)
    requires
        node.kind == ValueKind::Identifier,
        begins_with(node, bare_type_name(bare)),
        parent != ValueKind::BracketedValue,
        parent != ValueKind::Function,
    ensures
        values::shapes(seq![node], parent) == seq![ShapeModel::Bare(bare)] + values::shapes(
            node.children@,
            node.kind,
        ),
{
    lemma_one_node(node, parent);
    law_bare_type_by_its_keyword(bare_type_name(bare), bare);
}

/// Any other node stands for what is inside it alone.
pub proof fn law_no_shape(node: ValueNode, parent: ValueKind)
    requires
        node.kind == ValueKind::ThemeReference ==> forall|t: Seq<char>|
            !#[trigger] refers_to(node, t),
        node.kind == ValueKind::DashedIdentifier ==> parent == ValueKind::ThemeReference
            || node.first_token is None,
        node.kind != ValueKind::BracketedValue,
        node.kind == ValueKind::StringLiteral ==> node.inner_text is None,
        node.kind == ValueKind::Identifier ==> parent == ValueKind::BracketedValue || parent
            == ValueKind::Function || forall|b: BareValueType|
            !#[trigger] begins_with(node, bare_type_name(b)),
    ensures
        values::shapes(seq![node], parent) == values::shapes(node.children@, node.kind),
{
    lemma_one_node(node, parent);
    if node.kind == ValueKind::ThemeReference {
        if let Some(token) = values::reference_text(node) {
            assert(refers_to(node, token));
        }
    }
    if node.kind == ValueKind::Identifier {
        if let Some(token) = node.first_token {
            if let Some(bare) = registry::bare_value_type(token@) {
                law_bare_type_by_its_keyword(token@, bare);
                assert(begins_with(node, bare_type_name(bare)));
            }
        }
    }
    assert(values::node_shape(node, parent) is None);
    assert(values::shapes(seq![node], parent) == values::shapes(node.children@, node.kind));
}

/// The shapes of a call are those of its parameters, which are the second of
/// its children.
pub proof fn law_shapes_of_a_call(function: ValueNode)
    ensures
        function.children@.len() >= 2 ==> values::function_shapes(function) == values::shapes(
            function.children@[1].children@,
            function.children@[1].kind,
        ),
        function.children@.len() < 2 ==> values::function_shapes(function).len() == 0,
{
}

/// A list of nodes and all nodes inside them: one list after the other, each
/// node before what is inside it.
pub proof fn law_descendants(first: Seq<ValueNode>, second: Seq<ValueNode>, node: ValueNode)
    ensures
        declarations::descendants(first + second) == declarations::descendants(first)
            + declarations::descendants(second),
        declarations::descendants(seq![node]) == seq![node] + declarations::descendants(
            node.children@,
        ),
        declarations::descendants(Seq::empty()) == Seq::<ValueNode>::empty(),
    decreases second.len(),
{
    if second.len() == 0 {
        assert(first + second == first);
    } else {
        law_descendants(first, second.drop_last(), node);
        assert((first + second).drop_last() == first + second.drop_last());
        assert(declarations::descendants(first + second) == declarations::descendants(first)
            + declarations::descendants(second));
    }
    assert(seq![node].drop_last() == Seq::<ValueNode>::empty());
    assert(declarations::descendants(seq![node].drop_last()) == Seq::<ValueNode>::empty());
    assert(declarations::descendants(seq![node]) == seq![node] + declarations::descendants(
        node.children@,
    ));
}

/// Whether a node is a call of the function `name`.
pub open spec fn is_call_of(node: ValueNode, name: Seq<char>) -> bool {
    &&& node.kind == ValueKind::Function
    &&& node.children@.len() > 0
    &&& node.children@[0].kind == ValueKind::Identifier
    &&& begins_with(node.children@[0], name)
}

/// The shapes of one call are those of the call; a node that is no call of the
/// function adds nothing, not even an empty list.
pub proof fn law_one_call(node: ValueNode, name: Seq<char>)
    ensures
        is_call_of(node, name) ==> declarations::called_shapes(seq![node], name) == Some(
            values::function_shapes(node),
        ),
        !is_call_of(node, name) ==> declarations::called_shapes(seq![node], name) is None,
        declarations::called_shapes(Seq::empty(), name) is None,
{
    assert(seq![node].drop_last() == Seq::<ValueNode>::empty());
    assert(declarations::called_shapes(seq![node].drop_last(), name) is None);
    assert(seq![node].last() == node);
}

/// The shapes of all calls among two lists of nodes stand one behind the other.
pub proof fn law_calls_add_up(first: Seq<ValueNode>, second: Seq<ValueNode>, name: Seq<char>)
    ensures
        declarations::called_shapes(first, name) is None ==> declarations::called_shapes(
            first + second,
            name,
        ) == declarations::called_shapes(second, name),
        declarations::called_shapes(second, name) is None ==> declarations::called_shapes(
            first + second,
            name,
        ) == declarations::called_shapes(first, name),
        declarations::called_shapes(first, name) matches Some(a) ==> (
        declarations::called_shapes(second, name) matches Some(b) ==> declarations::called_shapes(
            first + second,
            name,
        ) == Some(a + b)),
    decreases second.len(),
{
    if second.len() == 0 {
        assert(first + second == first);
    } else {
        law_calls_add_up(first, second.drop_last(), name);
        assert((first + second).drop_last() == first + second.drop_last());
        assert((first + second).last() == second.last());
        if let Some(a) = declarations::called_shapes(first, name) {
            if let Some(b) = declarations::called_shapes(second.drop_last(), name) {
                assert(a + (b + values::function_shapes(second.last())) == a + b
                    + values::function_shapes(second.last()));
            }
        }
    }
}

/// Whether `name` stands before the colon of a property that is set.
pub open spec fn is_named(property: CssGenericProperty, name: Seq<char>) -> bool {
    ||| (property.name matches Some(DeclarationName::Identifier(Some(text))) && text@ == name)
    ||| (property.name matches Some(DeclarationName::Dashed(Some(text))) && text@ == name)
}

/// Whether a value is one component, of which `text` is the source.
pub open spec fn is_one_component(property: CssGenericProperty, text: Seq<char>) -> bool {
    property.value matches Some(PropertyValue::Components(list)) && list@.len() == 1
        && list@[0].text@ == text
}

/// Whether a declaration sets the property `name`.
pub open spec fn sets_property(
    declaration: CssDeclaration,
    property: CssGenericProperty,
    name: Seq<char>,
) -> bool {
    declaration.property == Some(CssProperty::Generic(property)) && is_named(property, name)
}

/// A declaration sets a named property just where a name and a colon say so.
pub proof fn law_named_property(
    declaration: CssDeclaration,
    property: CssGenericProperty,
    name: Seq<char>,
)
    ensures
        declarations::named_property(declaration) == Some((name, property)) <==> sets_property(
            declaration,
            property,
            name,
        ),
{
}

/// The text of a value is the whole source of its one component; a value of
/// none or of several components has no text.
pub proof fn law_value_text(property: CssGenericProperty, text: Seq<char>)
    ensures
        declarations::single_value(property) == Some(text) <==> is_one_component(property, text),
{
}

/// A property has a position just where the index gives it that one.
pub proof fn law_position(positions: Map<Seq<char>, u16>, name: Seq<char>, position: u16)
    ensures
        properties::position_of(positions, name) == Some(position) <==> positions.contains_pair(
            name,
            position,
        ),
{
}

/// A declaration of a functional utility has the position of its property,
/// whatever its value is, and none where the property has none.
pub proof fn law_functional_property(
    declaration: CssDeclaration,
    property: CssGenericProperty,
    name: Seq<char>,
    positions: Map<Seq<char>, u16>,
    position: u16,
)
    requires
        sets_property(declaration, property, name),
    ensures
        declarations::functional_decl(declaration, positions).property == Some(position)
            <==> positions.contains_pair(name, position),
{
    law_named_property(declaration, property, name);
}

/// Two declarations of one property have the same position in a functional
/// utility, whatever their values are.
pub proof fn law_functional_property_ignores_the_value(
    one: CssDeclaration,
    other: CssDeclaration,
    property: CssGenericProperty,
    other_property: CssGenericProperty,
    name: Seq<char>,
    positions: Map<Seq<char>, u16>,
)
    requires
        sets_property(one, property, name),
        sets_property(other, other_property, name),
    ensures
        declarations::functional_decl(one, positions).property == declarations::functional_decl(
            other,
            positions,
        ).property,
{
    law_named_property(one, property, name);
    law_named_property(other, other_property, name);
}

/// A declaration of a functional utility has a hint just where it is a
/// `--tw-sort:` whose one component names an ordered property.
pub proof fn law_functional_hint(
    declaration: CssDeclaration,
    property: CssGenericProperty,
    name: Seq<char>,
    positions: Map<Seq<char>, u16>,
    position: u16,
)
    requires
        sets_property(declaration, property, name),
    ensures
        declarations::functional_decl(declaration, positions).sort_hint == Some(position) <==> name
            == "--tw-sort"@ && exists|text: Seq<char>| #[trigger]
            is_one_component(property, text) && positions.contains_pair(text, position),
{
    law_named_property(declaration, property, name);
    if let Some(text) = declarations::single_value(property) {
        assert(is_one_component(property, text));
    }
}

/// A declaration of a functional utility has the shapes of all `--value(…)`
/// and all `--modifier(…)` calls in its value, at whatever depth.
pub proof fn law_functional_shapes(
    declaration: CssDeclaration,
    property: CssGenericProperty,
    name: Seq<char>,
    positions: Map<Seq<char>, u16>,
    nodes: Vec<ValueNode>,
)
    requires
        sets_property(declaration, property, name),
        property.value == Some(PropertyValue::Components(nodes)) || property.value == Some(
            PropertyValue::Other(nodes),
        ),
    ensures
        declarations::functional_decl(declaration, positions).value
            == declarations::called_shapes(declarations::descendants(nodes@), "--value"@),
        declarations::functional_decl(declaration, positions).modifier
            == declarations::called_shapes(declarations::descendants(nodes@), "--modifier"@),
{
    law_named_property(declaration, property, name);
}

/// A declaration of a functional utility without a value has no shapes, and
/// one that sets no named property says nothing at all.
pub proof fn law_functional_nothing(
    declaration: CssDeclaration,
    positions: Map<Seq<char>, u16>,
)
    ensures
        (declaration.property matches Some(CssProperty::Generic(property))
            && property.value is None) ==> {
            &&& declarations::functional_decl(declaration, positions).value is None
            &&& declarations::functional_decl(declaration, positions).modifier is None
        },
        (forall|property: CssGenericProperty, name: Seq<char>|
            !#[trigger] sets_property(declaration, property, name))
            ==> declarations::functional_decl(declaration, positions) == (DeclModel {
            property: None,
            sort_hint: None,
            value: None,
            modifier: None,
        }),
{
    if let Some((name, property)) = declarations::named_property(declaration) {
        assert(sets_property(declaration, property, name));
        if property.value is None {
            assert(declarations::descendants(Seq::empty()) == Seq::<ValueNode>::empty());
        }
    }
}

/// A functional utility has one entry for each declaration, in their order,
/// and none for anything else.
pub proof fn law_functional_declarations(
    first: Seq<CssItem>,
    second: Seq<CssItem>,
    item: CssItem,
    positions: Map<Seq<char>, u16>,
)
    ensures
        declarations::functional_decls(first + second, positions)
            == declarations::functional_decls(first, positions) + declarations::functional_decls(
            second,
            positions,
        ),
        item matches CssItem::Declaration(Some(declaration)) ==> declarations::functional_decls(
            seq![item],
            positions,
        ) == seq![declarations::functional_decl(declaration, positions)],
        !(item matches CssItem::Declaration(Some(_))) ==> declarations::functional_decls(
            seq![item],
            positions,
        ).len() == 0,
        declarations::functional_decls(Seq::empty(), positions).len() == 0,
    decreases second.len(),
{
    if second.len() == 0 {
        assert(first + second == first);
        assert(declarations::functional_decls(second, positions) == Seq::<DeclModel>::empty());
    } else {
        law_functional_declarations(first, second.drop_last(), item, positions);
        assert((first + second).drop_last() == first + second.drop_last());
        assert(declarations::functional_decls(first + second, positions)
            == declarations::functional_decls(first, positions) + declarations::functional_decls(
            second,
            positions,
        ));
    }
    assert(seq![item].drop_last() == Seq::<CssItem>::empty());
    assert(declarations::functional_decls(seq![item].drop_last(), positions)
        == Seq::<DeclModel>::empty());
    assert(seq![item].last() == item);
    if let CssItem::Declaration(Some(declaration)) = item {
        assert(declarations::functional_decls(seq![item], positions) == seq![
            declarations::functional_decl(declaration, positions),
        ]);
    }
}

} // verus!
