//! The two orders in which the entries of a stylesheet are walked.

use crate::css;
use crate::css::{BlockKind, CssAtRule, CssBlock, CssItem, CustomVariantSelector};
use vstd::prelude::*;

verus! {

/// The entries one level below `items`, in document order.
pub open spec fn next_level(items: Seq<CssItem>) -> Seq<CssItem>
    decreases items.len(),
{
    if items.len() == 0 {
        Seq::empty()
    } else {
        next_level(items.drop_last()) + css::nested_items(items.last())
    }
}

/// How many levels of entries `items` spans.
pub open spec fn depth(items: Seq<CssItem>) -> nat
    decreases items,
{
    if items.len() == 0 {
        0
    } else {
        proof {
            css::lemma_children_are_smaller(items.last());
        }
        let below = css::nested_items(items.last());
        let down: nat = if below.len() == 0 {
            1
        } else {
            depth(below) + 1
        };
        let beside = depth(items.drop_last());
        if beside > down {
            beside
        } else {
            down
        }
    }
}

/// How many entries `items` holds, those on the levels below included.
pub open spec fn total(items: Seq<CssItem>) -> nat
    decreases items,
{
    if items.len() == 0 {
        0
    } else {
        proof {
            css::lemma_children_are_smaller(items.last());
        }
        let below = css::nested_items(items.last());
        total(items.drop_last()) + 1 + if below.len() == 0 {
            0
        } else {
            total(below)
        }
    }
}

/// `items` and the entries on the levels below them, breadth first: each
/// level in document order, before the next one.
pub open spec fn level_order(items: Seq<CssItem>) -> Seq<CssItem>
    decreases depth(items),
{
    if items.len() == 0 {
        Seq::empty()
    } else {
        proof {
            lemma_next_level_is_shallower(items);
        }
        items + level_order(next_level(items))
    }
}

/// The levels below two lists stand one behind the other.
pub proof fn lemma_next_level_concat(a: Seq<CssItem>, b: Seq<CssItem>)
    ensures
        next_level(a + b) == next_level(a) + next_level(b),
    decreases b.len(),
{
    if b.len() == 0 {
        assert(a + b == a);
    } else {
        lemma_next_level_concat(a, b.drop_last());
        assert((a + b).drop_last() == a + b.drop_last());
    }
}

proof fn lemma_depth_concat(a: Seq<CssItem>, b: Seq<CssItem>)
    ensures
        depth(a + b) == if depth(a) > depth(b) {
            depth(a)
        } else {
            depth(b)
        },
    decreases b.len(),
{
    if b.len() == 0 {
        assert(a + b == a);
    } else {
        lemma_depth_concat(a, b.drop_last());
        assert((a + b).drop_last() == a + b.drop_last());
    }
}

/// The entries of two lists add up.
pub proof fn lemma_total_concat(a: Seq<CssItem>, b: Seq<CssItem>)
    ensures
        total(a + b) == total(a) + total(b),
    decreases b.len(),
{
    if b.len() == 0 {
        assert(a + b == a);
    } else {
        lemma_total_concat(a, b.drop_last());
        assert((a + b).drop_last() == a + b.drop_last());
    }
}

/// The level below spans fewer levels.
pub proof fn lemma_next_level_is_shallower(items: Seq<CssItem>)
    requires
        items.len() > 0,
    ensures
        depth(next_level(items)) < depth(items),
    decreases items.len(),
{
    let rest = items.drop_last();
    lemma_depth_concat(next_level(rest), css::nested_items(items.last()));
    if rest.len() > 0 {
        lemma_next_level_is_shallower(rest);
    }
}

/// The breadth-first order is the one sequence that is its own next level
/// behind `items`.
proof fn lemma_level_order_unique(items: Seq<CssItem>, order: Seq<CssItem>)
    requires
        order == items + next_level(order),
    ensures
        order == level_order(items),
    decreases depth(items),
{
    if items.len() == 0 {
        assert(order == next_level(order));
        if order.len() > 0 {
            lemma_next_level_is_shallower(order);
        }
    } else {
        let below = next_level(order);
        lemma_next_level_concat(items, below);
        lemma_next_level_is_shallower(items);
        lemma_level_order_unique(next_level(items), below);
    }
}

/// `items` and the entries on the levels below them, breadth first.
pub(crate) fn breadth_first<'a>(items: &'a Vec<CssItem>) -> (order: Vec<&'a CssItem>)
    ensures
        order@.unref() == level_order(items@),
{
    let mut order: Vec<&'a CssItem> = Vec::new();
    push_items(&mut order, items);
    assert(order@.unref() == items@);
    assert(order@.unref().take(0) == Seq::<CssItem>::empty());
    let mut head: usize = 0;
    assert(order@.unref().skip(0) == items@);
    while head < order.len()
        invariant
            head <= order@.len(),
            order@.unref() == items@ + next_level(order@.unref().take(head as int)),
        decreases total(order@.unref().skip(head as int)),
    {
        let item = order[head];
        let ghost before = order@.unref();
        proof {
            assert(before.take(head + 1).drop_last() == before.take(head as int));
            assert(before.skip(head as int) == seq![*item] + before.skip(head + 1));
            lemma_total_concat(seq![*item], before.skip(head + 1));
            lemma_total_concat(before.skip(head + 1), css::nested_items(*item));
            assert(seq![*item].drop_last() == Seq::<CssItem>::empty());
            assert(total(seq![*item].drop_last()) == 0);
        }
        match nested_block(item) {
            Some(block) => {
                if let BlockKind::DeclarationOrRule = block.kind {
                    push_items(&mut order, &block.items);
                }
            },
            None => {},
        }
        head += 1;
        proof {
            let after = order@.unref();
            assert(after == before + css::nested_items(*item));
            assert(after.take(head as int) == before.take(head as int));
            assert(after.skip(head as int) == before.skip(head as int) + css::nested_items(*item));
        }
    }
    proof {
        assert(order@.unref().take(head as int) == order@.unref());
        lemma_level_order_unique(items@, order@.unref());
    }
    order
}

fn push_items<'a>(order: &mut Vec<&'a CssItem>, items: &'a Vec<CssItem>)
    ensures
        final(order)@.unref() == old(order)@.unref() + items@,
{
    let mut i: usize = 0;
    while i < items.len()
        invariant
            i <= items@.len(),
            order@.unref() == old(order)@.unref() + items@.take(i as int),
        decreases items@.len() - i,
    {
        let ghost before = order@;
        order.push(&items[i]);
        assert(order@.unref() == before.unref().push(items@[i as int]));
        assert(items@.take(i + 1) == items@.take(i as int).push(items@[i as int]));
        i += 1;
    }
    assert(items@.take(i as int) == items@);
}

/// The block of declarations and rules of a rule or an at-rule.
fn nested_block(item: &CssItem) -> (block: Option<&CssBlock>)
    ensures
        block == match css::item_block(*item) {
            Some(b) => Some(&b),
            None => None,
        },
{
    match item {
        CssItem::AtRule(Some(CssAtRule::Utility(rule))) => rule.block.as_ref(),
        CssItem::AtRule(Some(CssAtRule::Theme(rule))) => rule.block.as_ref(),
        CssItem::AtRule(Some(CssAtRule::Other(block))) => block.as_ref(),
        CssItem::Rule(block) => block.as_ref(),
        _ => None,
    }
}

/// `items` and all entries inside them in document order: each entry before
/// those inside it.
pub open spec fn document_order(items: Seq<CssItem>) -> Seq<CssItem>
    decreases items,
{
    if items.len() == 0 {
        Seq::empty()
    } else {
        proof {
            css::lemma_children_are_smaller(items.last());
        }
        let inside = css::item_children(items.last());
        document_order(items.drop_last()).push(items.last()) + if inside.len() == 0 {
            Seq::empty()
        } else {
            document_order(inside)
        }
    }
}

/// Two stylesheets one behind the other are walked one after the other.
pub proof fn lemma_document_order_concat(a: Seq<CssItem>, b: Seq<CssItem>)
    ensures
        document_order(a + b) == document_order(a) + document_order(b),
    decreases b.len(),
{
    if b.len() == 0 {
        assert(a + b == a);
    } else {
        lemma_document_order_concat(a, b.drop_last());
        assert((a + b).drop_last() == a + b.drop_last());
    }
}

/// `items` and all entries inside them in document order.
pub(crate) fn preorder<'a>(items: &'a Vec<CssItem>) -> (order: Vec<&'a CssItem>)
    ensures
        order@.unref() == document_order(items@),
{
    let mut order: Vec<&'a CssItem> = Vec::new();
    push_preorder(&mut order, items);
    assert(order@.unref() == document_order(items@));
    order
}

fn push_preorder<'a>(order: &mut Vec<&'a CssItem>, items: &'a Vec<CssItem>)
    ensures
        final(order)@.unref() == old(order)@.unref() + document_order(items@),
    decreases items@,
{
    let mut i: usize = 0;
    assert(document_order(items@.take(0)) == Seq::<CssItem>::empty());
    while i < items.len()
        invariant
            i <= items@.len(),
            order@.unref() == old(order)@.unref() + document_order(items@.take(i as int)),
        decreases items@.len() - i,
    {
        let item = &items[i];
        let ghost before = order@;
        order.push(item);
        proof {
            assert(order@.unref() == before.unref().push(*item));
            assert(items@.take(i + 1).drop_last() == items@.take(i as int));
            css::lemma_children_are_smaller(*item);
        }
        match children(item) {
            Some(inside) => {
                if inside.len() > 0 {
                    push_preorder(order, inside);
                }
            },
            None => {},
        }
        i += 1;
    }
    assert(items@.take(i as int) == items@);
}

/// The entries directly inside an entry.
fn children(item: &CssItem) -> (inside: Option<&Vec<CssItem>>)
    ensures
        inside matches Some(items) ==> items@ == css::item_children(*item),
        inside is None ==> css::item_children(*item).len() == 0,
{
    match item {
        CssItem::Declaration(_) => None,
        CssItem::AtRule(None) => None,
        CssItem::AtRule(Some(CssAtRule::Utility(rule))) => items_of(&rule.block),
        CssItem::AtRule(Some(CssAtRule::CustomVariant(rule))) => match &rule.selector {
            Some(CustomVariantSelector::RuleBlock(items)) => Some(items),
            Some(CustomVariantSelector::Other(items)) => Some(items),
            _ => None,
        },
        CssItem::AtRule(Some(CssAtRule::Theme(rule))) => items_of(&rule.block),
        CssItem::AtRule(Some(CssAtRule::Apply(_))) => None,
        CssItem::AtRule(Some(CssAtRule::Other(block))) => items_of(block),
        CssItem::Rule(block) => items_of(block),
        CssItem::Other(items) => Some(items),
    }
}

fn items_of(block: &Option<CssBlock>) -> (items: Option<&Vec<CssItem>>)
    ensures
        items matches Some(i) ==> i@ == css::any_block_items(*block),
        items is None ==> css::any_block_items(*block).len() == 0,
{
    match block {
        Some(block) => Some(&block.items),
        None => None,
    }
}

} // verus!
