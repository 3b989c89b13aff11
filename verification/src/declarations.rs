//! What single declarations say.

use crate::css::{
    CssDeclaration, CssGenericProperty, CssItem, CssProperty, DeclarationName, PropertyValue,
    ValueKind, ValueNode,
};
use crate::properties;
use crate::properties::PropertyIndex;
use crate::registry;
use crate::registry::{DeclModel, FunctionalDecl, ShapeModel, ValueShape};
use crate::text;
use crate::values;
use crate::walk;
use vstd::prelude::*;

verus! {

/// The text of the name of a declaration that sets a property.
pub open spec fn property_name(name: DeclarationName) -> Option<Seq<char>> {
    match name {
        DeclarationName::Identifier(Some(text)) => Some(text@),
        DeclarationName::Dashed(Some(text)) => Some(text@),
        _ => None,
    }
}

/// The name and the property of a declaration that sets a named property.
pub open spec fn named_property(declaration: CssDeclaration) -> Option<
    (Seq<char>, CssGenericProperty),
> {
    match declaration.property {
        Some(CssProperty::Generic(property)) => match property.name {
            Some(name) => match property_name(name) {
                Some(text) => Some((text, property)),
                None => None,
            },
            None => None,
        },
        _ => None,
    }
}

/// The source of a value that is a single component.
pub open spec fn single_value(property: CssGenericProperty) -> Option<Seq<char>> {
    match property.value {
        Some(PropertyValue::Components(list)) => if list@.len() == 1 {
            Some(list@[0].text@)
        } else {
            None
        },
        _ => None,
    }
}

/// The position that the `--tw-sort:` hint of a declaration names.
pub open spec fn hinted_position(
    name: Seq<char>,
    property: CssGenericProperty,
    positions: Map<Seq<char>, u16>,
) -> Option<u16> {
    if name == "--tw-sort"@ {
        match single_value(property) {
            Some(value) => properties::position_of(positions, value),
            None => None,
        }
    } else {
        None
    }
}

/// `nodes` and all nodes inside them, in document order.
pub open spec fn descendants(nodes: Seq<ValueNode>) -> Seq<ValueNode>
    decreases nodes,
{
    if nodes.len() == 0 {
        Seq::empty()
    } else {
        descendants(nodes.drop_last()).push(nodes.last()) + descendants(nodes.last().children@)
    }
}

/// The nodes directly inside a value.
pub open spec fn value_nodes(value: Option<PropertyValue>) -> Seq<ValueNode> {
    match value {
        Some(PropertyValue::Components(nodes)) => nodes@,
        Some(PropertyValue::Other(nodes)) => nodes@,
        None => Seq::empty(),
    }
}

/// The name of a function, where it is a plain identifier.
pub open spec fn function_name(function: ValueNode) -> Option<Seq<char>> {
    if function.children@.len() > 0 && function.children@[0].kind == ValueKind::Identifier {
        values::optional_text(function.children@[0].first_token)
    } else {
        None
    }
}

/// Whether `node` is a call of the function `name`.
pub open spec fn calls(node: ValueNode, name: Seq<char>) -> bool {
    node.kind == ValueKind::Function && function_name(node) == Some(name)
}

/// The shapes of every call of the function `name` among `nodes`, one call
/// after the other; `None` where it is not called.
pub open spec fn called_shapes(nodes: Seq<ValueNode>, name: Seq<char>) -> Option<Seq<ShapeModel>>
    decreases nodes.len(),
{
    if nodes.len() == 0 {
        None
    } else {
        let before = called_shapes(nodes.drop_last(), name);
        if calls(nodes.last(), name) {
            let shapes = values::function_shapes(nodes.last());
            match before {
                Some(earlier) => Some(earlier + shapes),
                None => Some(shapes),
            }
        } else {
            before
        }
    }
}

/// What a declaration of a functional utility says.
pub open spec fn functional_decl(
    declaration: CssDeclaration,
    positions: Map<Seq<char>, u16>,
) -> DeclModel {
    match named_property(declaration) {
        Some((name, property)) => {
            let nodes = descendants(value_nodes(property.value));
            DeclModel {
                property: properties::position_of(positions, name),
                sort_hint: hinted_position(name, property, positions),
                value: called_shapes(nodes, "--value"@),
                modifier: called_shapes(nodes, "--modifier"@),
            }
        },
        None => DeclModel { property: None, sort_hint: None, value: None, modifier: None },
    }
}

/// What the declarations among `items` say, in their order.
pub open spec fn functional_decls(
    items: Seq<CssItem>,
    positions: Map<Seq<char>, u16>,
) -> Seq<DeclModel>
    decreases items.len(),
{
    if items.len() == 0 {
        Seq::empty()
    } else {
        let before = functional_decls(items.drop_last(), positions);
        match items.last() {
            CssItem::Declaration(Some(declaration)) => before.push(
                functional_decl(declaration, positions),
            ),
            _ => before,
        }
    }
}

/// A declaration's property name and generic property; `None` for non-generic
/// (SCSS, bogus) declarations.
pub fn generic_property(declaration: &CssDeclaration) -> (found: Option<
    (&String, &CssGenericProperty),
>)
    ensures
        named_property(*declaration) == match found {
            Some((name, property)) => Some((name@, *property)),
            None => None,
        },
{
    match &declaration.property {
        Some(CssProperty::Generic(property)) => match &property.name {
            Some(DeclarationName::Identifier(Some(name))) => Some((name, property)),
            Some(DeclarationName::Dashed(Some(name))) => Some((name, property)),
            _ => None,
        },
        _ => None,
    }
}

/// The value of a declaration when it is a single component (`120rem`,
/// `#abc`, `display`); breakpoint and container comparison need the length
/// text, `--tw-sort` names a property.
pub fn property_value_text(property: &CssGenericProperty) -> (value: Option<&String>)
    ensures
        single_value(*property) == match value {
            Some(text) => Some(text@),
            None => None,
        },
{
    match &property.value {
        Some(PropertyValue::Components(list)) => if list.len() == 1 {
            Some(&list[0].text)
        } else {
            None
        },
        _ => None,
    }
}

/// The position that the `--tw-sort:` hint of a declaration names.
pub(crate) fn sort_hint(
    name: &String,
    property: &CssGenericProperty,
    properties: &PropertyIndex,
) -> (position: Option<u16>)
    ensures
        position == hinted_position(name@, *property, properties@),
{
    if text::same_text(name.as_str(), "--tw-sort") {
        match property_value_text(property) {
            Some(value) => properties.get(value.as_str()),
            None => None,
        }
    } else {
        None
    }
}

fn push_descendants<'a>(nodes: &'a Vec<ValueNode>, found: &mut Vec<&'a ValueNode>)
    ensures
        final(found)@.unref() == old(found)@.unref() + descendants(nodes@),
    decreases nodes@,
{
    let mut i: usize = 0;
    assert(descendants(nodes@.take(0)) == Seq::<ValueNode>::empty());
    while i < nodes.len()
        invariant
            i <= nodes@.len(),
            found@.unref() == old(found)@.unref() + descendants(nodes@.take(i as int)),
        decreases nodes@.len() - i,
    {
        let node = &nodes[i];
        let ghost before = found@;
        found.push(node);
        assert(found@.unref() == before.unref().push(*node));
        assert(nodes@.take(i + 1).drop_last() == nodes@.take(i as int));
        push_descendants(&node.children, found);
        i += 1;
    }
    assert(nodes@.take(i as int) == nodes@);
}

/// Whether `node` is a call of the function `name`.
fn is_call(node: &ValueNode, name: &str) -> (called: bool)
    ensures
        called == calls(*node, name@),
{
    if node.kind == ValueKind::Function && node.children.len() > 0 && node.children[0].kind
        == ValueKind::Identifier {
        match &node.children[0].first_token {
            Some(token) => text::same_text(token.as_str(), name),
            None => false,
        }
    } else {
        false
    }
}

/// The shapes of every call of the function `name` among `nodes`.
fn shapes_of_calls(nodes: &Vec<&ValueNode>, name: &str) -> (found: Option<Vec<ValueShape>>)
    ensures
        registry::optional_shapes_view(found) == called_shapes(nodes@.unref(), name@),
{
    let mut found: Option<Vec<ValueShape>> = None;
    let mut i: usize = 0;
    while i < nodes.len()
        invariant
            i <= nodes@.len(),
            registry::optional_shapes_view(found) == called_shapes(
                nodes@.unref().take(i as int),
                name@,
            ),
        decreases nodes@.len() - i,
    {
        assert(nodes@.unref().take(i + 1).drop_last() == nodes@.unref().take(i as int));
        if is_call(nodes[i], name) {
            let mut shapes = values::value_shapes(nodes[i]);
            found = match found {
                Some(mut earlier) => {
                    let ghost before = earlier@;
                    let ghost added = shapes@;
                    earlier.append(&mut shapes);
                    assert(registry::shapes_view(earlier@) == registry::shapes_view(before)
                        + registry::shapes_view(added));
                    Some(earlier)
                },
                None => Some(shapes),
            };
        }
        i += 1;
    }
    assert(nodes@.unref().take(i as int) == nodes@.unref());
    found
}

/// What a declaration of a functional utility says.
fn declaration_shapes(declaration: &CssDeclaration, properties: &PropertyIndex) -> (decl:
    FunctionalDecl)
    ensures
        decl@ == functional_decl(*declaration, properties@),
{
    match generic_property(declaration) {
        Some((name, property)) => {
            let mut nodes: Vec<&ValueNode> = Vec::new();
            assert(nodes@.unref() == Seq::<ValueNode>::empty());
            match &property.value {
                Some(PropertyValue::Components(list)) => push_descendants(list, &mut nodes),
                Some(PropertyValue::Other(list)) => push_descendants(list, &mut nodes),
                None => {},
            }
            assert(nodes@.unref() == descendants(value_nodes(property.value)));
            FunctionalDecl {
                property: properties.get(name.as_str()),
                sort_hint: sort_hint(name, property, properties),
                value: shapes_of_calls(&nodes, "--value"),
                modifier: shapes_of_calls(&nodes, "--modifier"),
            }
        },
        None => FunctionalDecl { property: None, sort_hint: None, value: None, modifier: None },
    }
}

/// Every declaration of a functional `@utility name-* { … }` block, breadth
/// first, with the `--value(…)` and `--modifier(…)` shapes each one resolves
/// through.
pub fn functional_declarations(items: &Vec<CssItem>, properties: &PropertyIndex) -> (decls: Vec<
    FunctionalDecl,
>)
    ensures
        registry::decls_view(decls@) == functional_decls(walk::level_order(items@), properties@),
{
    let order = walk::breadth_first(items);
    let mut decls: Vec<FunctionalDecl> = Vec::new();
    let mut i: usize = 0;
    assert(registry::decls_view(decls@) == Seq::<DeclModel>::empty());
    while i < order.len()
        invariant
            i <= order@.len(),
            registry::decls_view(decls@) == functional_decls(
                order@.unref().take(i as int),
                properties@,
            ),
        decreases order@.len() - i,
    {
        assert(order@.unref().take(i + 1).drop_last() == order@.unref().take(i as int));
        if let CssItem::Declaration(Some(declaration)) = order[i] {
            let ghost before = decls@;
            let decl = declaration_shapes(declaration, properties);
            decls.push(decl);
            assert(registry::decls_view(decls@) == registry::decls_view(before).push(decl@));
        }
        i += 1;
    }
    assert(order@.unref().take(i as int) == order@.unref());
    decls
}

} // verus!
