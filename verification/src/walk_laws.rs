//! What holds of the two walks, entry by entry.

use crate::css;
use crate::css::{BlockKind, CssAtRule, CssBlock, CssItem, CustomVariantSelector};
use crate::walk;
use vstd::prelude::*;

verus! {

/// Whether `block` is the block in braces of the rule or at-rule `item`.
pub open spec fn has_block(item: CssItem, block: CssBlock) -> bool {
    ||| item == CssItem::Rule(Some(block))
    ||| item == CssItem::AtRule(Some(CssAtRule::Other(Some(block))))
    ||| (item matches CssItem::AtRule(Some(CssAtRule::Utility(rule))) && rule.block == Some(block))
    ||| (item matches CssItem::AtRule(Some(CssAtRule::Theme(rule))) && rule.block == Some(block))
}

/// Whether `item` is a `@custom-variant` with these entries.
pub open spec fn is_variant_with(item: CssItem, entries: Seq<CssItem>) -> bool {
    item matches CssItem::AtRule(Some(CssAtRule::CustomVariant(rule))) && {
        ||| (rule.selector matches Some(CustomVariantSelector::RuleBlock(rules)) && rules@
            == entries)
        ||| (rule.selector matches Some(CustomVariantSelector::Other(rules)) && rules@ == entries)
    }
}

/// Whether `item` is none of the known entries, with these inside it.
pub open spec fn is_other_with(item: CssItem, entries: Seq<CssItem>) -> bool {
    item matches CssItem::Other(inside) && inside@ == entries
}

/// The breadth-first walk meets `items`, and then what stands one level below
/// what it meets, in the order in which it meets that.
pub proof fn law_breadth_first(items: Seq<CssItem>)
    ensures
        walk::level_order(items) == items + walk::next_level(walk::level_order(items)),
    decreases walk::depth(items),
{
    if items.len() == 0 {
        assert(walk::level_order(items) == items + walk::next_level(walk::level_order(items)));
    } else {
        let below = walk::next_level(items);
        walk::lemma_next_level_is_shallower(items);
        law_breadth_first(below);
        walk::lemma_next_level_concat(items, walk::level_order(below));
        assert(walk::level_order(items) == items + walk::next_level(walk::level_order(items)));
    }
}

/// What stands one level below two lists is what stands below the first, and
/// then what stands below the second.
pub proof fn law_levels_join(first: Seq<CssItem>, second: Seq<CssItem>)
    ensures
        walk::next_level(first + second) == walk::next_level(first) + walk::next_level(second),
        walk::next_level(Seq::empty()) == Seq::<CssItem>::empty(),
{
    walk::lemma_next_level_concat(first, second);
}

proof fn lemma_one_level(item: CssItem)
    ensures
        walk::next_level(seq![item]) == css::nested_items(item),
{
    assert(seq![item].drop_last() == Seq::<CssItem>::empty());
    assert(walk::next_level(seq![item].drop_last()) == Seq::<CssItem>::empty());
    assert(walk::next_level(seq![item]) == css::nested_items(item));
}

/// The entries of a block of declarations and rules stand one level below the
/// rule or the at-rule whose block it is; those of another block do not.
pub proof fn law_block_is_the_level_below(item: CssItem, block: CssBlock)
    requires
        has_block(item, block),
    ensures
        block.kind == BlockKind::DeclarationOrRule ==> walk::next_level(seq![item])
            == block.items@,
        block.kind == BlockKind::Other ==> walk::next_level(seq![item]).len() == 0,
{
    lemma_one_level(item);
}

/// Nothing stands one level below an entry without a block.
pub proof fn law_nothing_below_without_a_block(item: CssItem)
    requires
        forall|block: CssBlock| !#[trigger] has_block(item, block),
    ensures
        walk::next_level(seq![item]).len() == 0,
{
    lemma_one_level(item);
    match item {
        CssItem::Rule(Some(block)) => {
            assert(has_block(item, block));
        },
        CssItem::AtRule(Some(CssAtRule::Other(Some(block)))) => {
            assert(has_block(item, block));
        },
        CssItem::AtRule(Some(CssAtRule::Utility(rule))) => {
            if let Some(block) = rule.block {
                assert(has_block(item, block));
            }
        },
        CssItem::AtRule(Some(CssAtRule::Theme(rule))) => {
            if let Some(block) = rule.block {
                assert(has_block(item, block));
            }
        },
        _ => {},
    }
}

/// The walk in document order meets one list after the other.
pub proof fn law_document_joins(first: Seq<CssItem>, second: Seq<CssItem>)
    ensures
        walk::document_order(first + second) == walk::document_order(first) + walk::document_order(
            second,
        ),
        walk::document_order(Seq::empty()) == Seq::<CssItem>::empty(),
{
    walk::lemma_document_order_concat(first, second);
}

proof fn lemma_one_entry(item: CssItem)
    ensures
        walk::document_order(seq![item]) == seq![item] + walk::document_order(
            css::item_children(item),
        ),
{
    assert(seq![item].drop_last() == Seq::<CssItem>::empty());
    assert(walk::document_order(seq![item].drop_last()) == Seq::<CssItem>::empty());
    let inside = css::item_children(item);
    if inside.len() == 0 {
        assert(walk::document_order(inside) == Seq::<CssItem>::empty());
    }
    assert(walk::document_order(seq![item]) == seq![item] + walk::document_order(inside));
}

/// The walk in document order meets an entry, and then what stands inside it:
/// in its block of whatever kind, in a `@custom-variant`, or in something else.
pub proof fn law_document_enters(item: CssItem, entries: Seq<CssItem>)
    requires
        (exists|block: CssBlock| #[trigger] has_block(item, block) && block.items@ == entries)
            || is_variant_with(item, entries) || is_other_with(item, entries),
    ensures
        walk::document_order(seq![item]) == seq![item] + walk::document_order(entries),
{
    lemma_one_entry(item);
}

/// The walk in document order meets an entry with nothing inside it alone.
pub proof fn law_document_leaves(item: CssItem)
    requires
        forall|block: CssBlock| !#[trigger] has_block(item, block),
        forall|entries: Seq<CssItem>| !#[trigger] is_variant_with(item, entries),
        forall|entries: Seq<CssItem>| !#[trigger] is_other_with(item, entries),
    ensures
        walk::document_order(seq![item]) == seq![item],
{
    lemma_one_entry(item);
    let entries = css::item_children(item);
    if entries.len() > 0 {
        assert(!is_variant_with(item, entries));
        assert(!is_other_with(item, entries));
        match item {
            CssItem::Rule(Some(block)) => {
                assert(has_block(item, block));
            },
            CssItem::AtRule(Some(CssAtRule::Other(Some(block)))) => {
                assert(has_block(item, block));
            },
            CssItem::AtRule(Some(CssAtRule::Utility(rule))) => {
                if let Some(block) = rule.block {
                    assert(has_block(item, block));
                }
            },
            CssItem::AtRule(Some(CssAtRule::Theme(rule))) => {
                if let Some(block) = rule.block {
                    assert(has_block(item, block));
                }
            },
            _ => {},
        }
    }
    assert(walk::document_order(Seq::empty()) == Seq::<CssItem>::empty());
    assert(entries == Seq::<CssItem>::empty());
}

} // verus!
