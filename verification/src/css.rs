//! The parts of a parsed stylesheet that the extraction reads.
//!
//! A piece that the parser could not find is `None`.

use vstd::prelude::*;

verus! {

/// A parsed stylesheet.
pub struct CssRoot {
    /// The rules and at-rules at the top, in document order.
    pub items: Vec<CssItem>,
}

/// One entry of a stylesheet or of a block.
pub enum CssItem {
    /// `property: value;`
    Declaration(Option<CssDeclaration>),
    /// `@name …`
    AtRule(Option<CssAtRule>),
    /// Any other rule, with the block that follows its prelude.
    Rule(Option<CssBlock>),
    /// Anything else, with the entries found inside it.
    Other(Vec<CssItem>),
}

/// What follows the `@` of an at-rule.
pub enum CssAtRule {
    /// `@utility name { … }`
    Utility(TwUtilityAtRule),
    /// `@custom-variant name …`
    CustomVariant(TwCustomVariantAtRule),
    /// `@theme { … }`
    Theme(TwThemeAtRule),
    /// `@apply a b c;`
    Apply(TwApplyAtRule),
    /// Any other at-rule, with its block.
    Other(Option<CssBlock>),
}

/// A block in braces.
pub struct CssBlock {
    /// What the block may hold.
    pub kind: BlockKind,
    /// The entries of the block, in document order.
    pub items: Vec<CssItem>,
}

/// The kinds of block that are told apart.
#[derive(Clone, Copy, PartialEq, Eq, Structural)]
pub enum BlockKind {
    /// A block of declarations and rules.
    DeclarationOrRule,
    /// Any other block.
    Other,
}

/// `@utility name { … }`
pub struct TwUtilityAtRule {
    /// The name of the utility.
    pub name: Option<UtilityName>,
    /// The block of the utility.
    pub block: Option<CssBlock>,
}

/// The name of an `@utility`, by the text of its identifier.
pub enum UtilityName {
    /// `card`
    Static(Option<String>),
    /// `tab-*`, of which the identifier is `tab`
    Functional(Option<String>),
    /// Anything else.
    Other,
}

/// `@custom-variant name …`
pub struct TwCustomVariantAtRule {
    /// The name of the variant.
    pub name: Option<String>,
    /// What the variant stands for.
    pub selector: Option<CustomVariantSelector>,
}

/// What a `@custom-variant` stands for.
pub enum CustomVariantSelector {
    /// `(…)`, with what stands in the brackets.
    Shorthand(Option<VariantShorthand>),
    /// A block of rules.
    RuleBlock(Vec<CssItem>),
    /// Anything else, with the entries found inside it.
    Other(Vec<CssItem>),
}

/// What stands in the brackets of a `@custom-variant name (…)`.
#[derive(Clone, Copy, PartialEq, Eq, Structural)]
pub enum VariantShorthand {
    /// `@media …` or another at-rule.
    AtRule,
    /// Selectors.
    Other,
}

/// `@theme { … }`
pub struct TwThemeAtRule {
    /// The block of the theme.
    pub block: Option<CssBlock>,
}

/// `@apply a b c;`
pub struct TwApplyAtRule {
    /// The text of each applied class.
    pub classes: Vec<Option<String>>,
}

/// `property: value`
pub struct CssDeclaration {
    /// The property that is set.
    pub property: Option<CssProperty>,
}

/// The property that a declaration sets.
pub enum CssProperty {
    /// A name and a value.
    Generic(CssGenericProperty),
    /// Anything else.
    Other,
}

/// A name and a value.
pub struct CssGenericProperty {
    /// The name before the colon.
    pub name: Option<DeclarationName>,
    /// The value after the colon.
    pub value: Option<PropertyValue>,
}

/// The name of a declaration, by its text.
pub enum DeclarationName {
    /// `color`
    Identifier(Option<String>),
    /// `--color-brand`
    Dashed(Option<String>),
    /// `--color-*`, of which the reference is `--color`
    ThemeReference(Option<String>),
    /// Anything else.
    Other,
}

/// The value of a declaration.
pub enum PropertyValue {
    /// A list of components.
    Components(Vec<ValueNode>),
    /// Anything else, with the nodes found inside it.
    Other(Vec<ValueNode>),
}

/// A node in the syntax tree of a value.
///
/// A function has two children: its name, and the list of its parameters. A
/// theme reference has one: the dashed identifier that it refers to. The
/// children of a bracketed value are its items.
pub struct ValueNode {
    /// What the node is.
    pub kind: ValueKind,
    /// The source of the node, without the space around it.
    pub text: String,
    /// The text of the first token of the node.
    pub first_token: Option<String>,
    /// What stands between the quotes of a string.
    pub inner_text: Option<String>,
    /// The nodes directly inside this one, in document order.
    pub children: Vec<ValueNode>,
}

/// The kinds of value node that are told apart.
#[derive(Clone, Copy, PartialEq, Eq, Structural)]
pub enum ValueKind {
    /// `name(…)`
    Function,
    /// `--color-*`
    ThemeReference,
    /// `--color`
    DashedIdentifier,
    /// `[…]`
    BracketedValue,
    /// `"…"`
    StringLiteral,
    /// `name`
    Identifier,
    /// Anything else.
    Other,
}

/// The entries of a block of declarations and rules.
pub open spec fn block_items(block: Option<CssBlock>) -> Option<Seq<CssItem>> {
    match block {
        Some(b) => if b.kind == BlockKind::DeclarationOrRule {
            Some(b.items@)
        } else {
            None
        },
        None => None,
    }
}

/// The entries of a block, whatever its kind.
pub open spec fn any_block_items(block: Option<CssBlock>) -> Seq<CssItem> {
    match block {
        Some(b) => b.items@,
        None => Seq::empty(),
    }
}

/// The entries directly inside an at-rule.
pub open spec fn at_rule_children(rule: CssAtRule) -> Seq<CssItem> {
    match rule {
        CssAtRule::Utility(r) => any_block_items(r.block),
        CssAtRule::CustomVariant(r) => match r.selector {
            Some(CustomVariantSelector::RuleBlock(items)) => items@,
            Some(CustomVariantSelector::Other(items)) => items@,
            _ => Seq::empty(),
        },
        CssAtRule::Theme(r) => any_block_items(r.block),
        CssAtRule::Apply(_) => Seq::empty(),
        CssAtRule::Other(block) => any_block_items(block),
    }
}

/// The entries directly inside an entry.
pub open spec fn item_children(item: CssItem) -> Seq<CssItem> {
    match item {
        CssItem::Declaration(_) => Seq::empty(),
        CssItem::AtRule(Some(rule)) => at_rule_children(rule),
        CssItem::AtRule(None) => Seq::empty(),
        CssItem::Rule(block) => any_block_items(block),
        CssItem::Other(items) => items@,
    }
}

/// The block of declarations and rules of a rule or an at-rule.
pub open spec fn item_block(item: CssItem) -> Option<CssBlock> {
    match item {
        CssItem::AtRule(Some(CssAtRule::Utility(r))) => r.block,
        CssItem::AtRule(Some(CssAtRule::Theme(r))) => r.block,
        CssItem::AtRule(Some(CssAtRule::Other(block))) => block,
        CssItem::Rule(block) => block,
        _ => None,
    }
}

/// The entries of the block of declarations and rules directly inside a rule
/// or an at-rule.
pub open spec fn nested_items(item: CssItem) -> Seq<CssItem> {
    match block_items(item_block(item)) {
        Some(items) => items,
        None => Seq::empty(),
    }
}

/// The entries inside an entry are smaller than the entry.
pub proof fn lemma_children_are_smaller(item: CssItem)
    ensures
        item_children(item).len() > 0 ==> decreases_to!(item => item_children(item)),
        nested_items(item).len() > 0 ==> decreases_to!(item => nested_items(item)),
{
}

} // verus!
