//! What is found in a registry after extraction.

use crate::css::{
    BlockKind, CssAtRule, CssBlock, CssItem, CssProperty, CustomVariantSelector, DeclarationName,
    UtilityName, VariantShorthand,
};
use crate::declarations;
use crate::extract;
use crate::property_sort;
use crate::property_sort::{PlacementModel, Reply};
use crate::registry;
use crate::registry::{RegistrationModel, TailwindRegistry, ThemeState};
use crate::value_laws;
use crate::walk;
use vstd::prelude::*;
use vstd::utf8::*;

verus! {

/// The entries of a block of declarations and rules.
pub open spec fn entries_of(block: Option<CssBlock>) -> Option<Seq<CssItem>> {
    match block {
        Some(CssBlock { kind: BlockKind::DeclarationOrRule, items }) => Some(items@),
        _ => None,
    }
}

/// The block of the static utility `name`, where `item` declares it.
pub open spec fn static_block(item: CssItem, name: Seq<char>) -> Option<Seq<CssItem>> {
    match item {
        CssItem::AtRule(Some(CssAtRule::Utility(rule))) => match rule.name {
            Some(UtilityName::Static(Some(text))) if text@ == name => entries_of(rule.block),
            _ => None,
        },
        _ => None,
    }
}

/// The block of the functional utility `name-*`, where `item` declares it.
pub open spec fn functional_block(item: CssItem, name: Seq<char>) -> Option<Seq<CssItem>> {
    match item {
        CssItem::AtRule(Some(CssAtRule::Utility(rule))) => match rule.name {
            Some(UtilityName::Functional(Some(text))) if text@ == name => entries_of(rule.block),
            _ => None,
        },
        _ => None,
    }
}

/// What the custom variant `name` stands for, where `item` declares it.
pub open spec fn variant_selector(item: CssItem, name: Seq<char>) -> Option<
    Option<CustomVariantSelector>,
> {
    match item {
        CssItem::AtRule(Some(CssAtRule::CustomVariant(rule))) => match rule.name {
            Some(text) if text@ == name => Some(rule.selector),
            _ => None,
        },
        _ => None,
    }
}

/// The entries of a `@theme` block.
pub open spec fn theme_entries(item: CssItem) -> Seq<CssItem> {
    match item {
        CssItem::AtRule(Some(CssAtRule::Theme(rule))) => match entries_of(rule.block) {
            Some(entries) => entries,
            None => Seq::empty(),
        },
        _ => Seq::empty(),
    }
}

/// Whether a registration declares the theme variable `name`.
pub open spec fn declares(entry: RegistrationModel, name: Seq<char>) -> bool {
    entry matches RegistrationModel::ThemeKey(key, _) && key == name
}

/// Whether a registration declares or drops the theme variable `name`.
pub open spec fn concerns(entry: RegistrationModel, name: Seq<char>) -> bool {
    match entry {
        RegistrationModel::ThemeKey(key, _) => key == name,
        RegistrationModel::ClearThemeNamespace(prefix) => prefix.is_prefix_of(name),
        RegistrationModel::ClearAllThemeNamespaces => true,
        _ => false,
    }
}

/// Whether an entry is a declaration of the dashed name `name`.
pub open spec fn is_dashed(item: CssItem, name: Seq<char>) -> bool {
    item matches CssItem::Declaration(Some(declaration)) && declaration.property matches Some(
        CssProperty::Generic(property),
    ) && property.name matches Some(DeclarationName::Dashed(Some(text))) && text@ == name
}

/// Whether an entry of a `@theme` block declares the variable `name`.
pub open spec fn entry_declares(item: CssItem, name: Seq<char>) -> bool {
    is_dashed(item, name) && name != "--*"@
}

/// Whether an entry of a `@theme` block resets the namespace of `reference`.
pub open spec fn resets(item: CssItem, reference: Seq<char>) -> bool {
    item matches CssItem::Declaration(Some(declaration)) && declaration.property matches Some(
        CssProperty::Generic(property),
    ) && property.name matches Some(DeclarationName::ThemeReference(Some(text))) && text@
        == reference
}

/// Whether the namespace of `reference` holds the variable `name`. The
/// reference `--` stands for every namespace; one of 64 bytes or more stands
/// for none.
pub open spec fn covers(reference: Seq<char>, name: Seq<char>) -> bool {
    reference == "--"@ || (encode_utf8(reference).len() < 64 && reference.push('-').is_prefix_of(
        name,
    ))
}

/// Whether an entry of a `@theme` block declares or drops the variable `name`.
pub open spec fn entry_concerns(item: CssItem, name: Seq<char>) -> bool {
    ||| entry_declares(item, name)
    ||| is_dashed(item, "--*"@)
    ||| exists|reference: Seq<char>| #[trigger] resets(item, reference) && covers(reference, name)
}

/// Whether an entry of a `@theme` block sets the variable `name` to `value`:
/// to the source of the one component behind the colon, or to nothing where
/// there is none or more than one.
pub open spec fn sets_key(item: CssItem, name: Seq<char>, value: Seq<char>) -> bool {
    item matches CssItem::Declaration(Some(declaration)) && declaration.property matches Some(
        CssProperty::Generic(property),
    ) && property.name matches Some(DeclarationName::Dashed(Some(text))) && text@ == name && name
        != "--*"@ && {
        ||| value_laws::is_one_component(property, value)
        ||| value.len() == 0 && forall|source: Seq<char>|
            !#[trigger] value_laws::is_one_component(property, source)
    }
}

/// Whether `item` can register `entry`.
spec fn registers(
    item: CssItem,
    positions: Map<Seq<char>, u16>,
    entry: RegistrationModel,
) -> bool {
    exists|replies: Seq<Seq<PlacementModel>>| #[trigger]
        extract::registrations(item, positions, replies).contains(entry)
}

/// Whether one of `items` can register `entry`.
spec fn one_registers(
    items: Seq<CssItem>,
    positions: Map<Seq<char>, u16>,
    entry: RegistrationModel,
) -> bool {
    exists|m: int| 0 <= m < items.len() && registers(#[trigger] items[m], positions, entry)
}

/// What extraction adds is what one of the entries registers.
proof fn lemma_added<P: Fn(&str, &TailwindRegistry) -> Reply>(
    place: P,
    positions: Map<Seq<char>, u16>,
    items: Seq<CssItem>,
    before: Seq<RegistrationModel>,
    after: Seq<RegistrationModel>,
) -> (added: Seq<RegistrationModel>)
    requires
        extract::extracted(place, positions, items, before, after),
    ensures
        after == before + added,
        forall|i: int|
            0 <= i < added.len() ==> one_registers(items, positions, #[trigger] added[i]),
    decreases items.len(),
{
    if items.len() == 0 {
        let added = Seq::<RegistrationModel>::empty();
        assert(after == before + added);
        added
    } else {
        let (mid, replies) = choose|mid: Seq<RegistrationModel>, replies: Seq<Seq<PlacementModel>>|
            {
                &&& extract::extracted(place, positions, items.drop_last(), before, mid)
                &&& #[trigger] extract::all_replied(
                    place,
                    extract::asked_classes(items.last()),
                    mid,
                    replies,
                )
                &&& after == mid + extract::registrations(items.last(), positions, replies)
            };
        let first = lemma_added(place, positions, items.drop_last(), before, mid);
        let own = extract::registrations(items.last(), positions, replies);
        let added = first + own;
        assert forall|i: int| 0 <= i < added.len() implies one_registers(
            items,
            positions,
            #[trigger] added[i],
        ) by {
            if i < first.len() {
                assert(one_registers(items.drop_last(), positions, first[i]));
                let m = choose|m: int|
                    0 <= m < items.drop_last().len() && registers(
                        #[trigger] items.drop_last()[m],
                        positions,
                        first[i],
                    );
                assert(registers(items[m], positions, added[i]));
            } else {
                assert(own.contains(own[i - first.len()]));
                assert(registers(items[items.len() - 1], positions, added[i]));
            }
        }
        assert(after == before + added);
        added
    }
}

/// What stands above entry `k`, what `k` itself registers, and what the
/// entries behind it do.
proof fn lemma_extract_at<P: Fn(&str, &TailwindRegistry) -> Reply>(
    place: P,
    positions: Map<Seq<char>, u16>,
    items: Seq<CssItem>,
    before: Seq<RegistrationModel>,
    after: Seq<RegistrationModel>,
    k: int,
) -> (parts: (Seq<RegistrationModel>, Seq<Seq<PlacementModel>>, Seq<RegistrationModel>))
    requires
        extract::extracted(place, positions, items, before, after),
        0 <= k < items.len(),
    ensures
        extract::extracted(place, positions, items.take(k), before, parts.0),
        extract::all_replied(place, extract::asked_classes(items[k]), parts.0, parts.1),
        after == parts.0 + extract::registrations(items[k], positions, parts.1) + parts.2,
        forall|i: int|
            0 <= i < parts.2.len() ==> one_registers(
                items.skip(k + 1),
                positions,
                #[trigger] parts.2[i],
            ),
{
    let upto = items.take(k + 1);
    let behind = items.skip(k + 1);
    assert(items == upto + behind);
    extract::lemma_extract_splits(place, positions, upto, behind, before, after);
    let mid = choose|mid: Seq<RegistrationModel>| #[trigger]
        extract::extracted(place, positions, upto, before, mid) && extract::extracted(
            place,
            positions,
            behind,
            mid,
            after,
        );
    let later = lemma_added(place, positions, behind, mid, after);
    assert(upto.drop_last() == items.take(k));
    assert(upto.last() == items[k]);
    let (above, replies) = choose|
        above: Seq<RegistrationModel>,
        replies: Seq<Seq<PlacementModel>>,
    |
        {
            &&& extract::extracted(place, positions, upto.drop_last(), before, above)
            &&& #[trigger] extract::all_replied(
                place,
                extract::asked_classes(upto.last()),
                above,
                replies,
            )
            &&& mid == above + extract::registrations(upto.last(), positions, replies)
        };
    (above, replies, later)
}

/// A registration behind entry `k` comes from an entry behind it.
proof fn lemma_origin(
    items: Seq<CssItem>,
    positions: Map<Seq<char>, u16>,
    k: int,
    entry: RegistrationModel,
) -> (m: int)
    requires
        0 <= k < items.len(),
        one_registers(items.skip(k + 1), positions, entry),
    ensures
        k < m < items.len(),
        registers(items[m], positions, entry),
{
    let behind = items.skip(k + 1);
    let i = choose|i: int|
        0 <= i < behind.len() && registers(#[trigger] behind[i], positions, entry);
    assert(behind[i] == items[k + 1 + i]);
    k + 1 + i
}

proof fn lemma_static_stays(
    log: Seq<RegistrationModel>,
    later: Seq<RegistrationModel>,
    name: Seq<char>,
)
    requires
        forall|i: int|
            0 <= i < later.len() ==> !((
            #[trigger] later[i]) matches RegistrationModel::StaticUtility(n, _, _) && n == name),
    ensures
        registry::latest_static(log + later, name) == registry::latest_static(log, name),
    decreases later.len(),
{
    if later.len() == 0 {
        assert(log + later == log);
    } else {
        assert((log + later).drop_last() == log + later.drop_last());
        assert((log + later).last() == later[later.len() - 1]);
        lemma_static_stays(log, later.drop_last(), name);
    }
}

proof fn lemma_functional_stays(
    log: Seq<RegistrationModel>,
    later: Seq<RegistrationModel>,
    name: Seq<char>,
)
    requires
        forall|i: int|
            0 <= i < later.len() ==> !((
            #[trigger] later[i]) matches RegistrationModel::FunctionalUtility(n, _) && n == name),
    ensures
        registry::latest_functional(log + later, name) == registry::latest_functional(log, name),
    decreases later.len(),
{
    if later.len() == 0 {
        assert(log + later == log);
    } else {
        assert((log + later).drop_last() == log + later.drop_last());
        assert((log + later).last() == later[later.len() - 1]);
        lemma_functional_stays(log, later.drop_last(), name);
    }
}

proof fn lemma_variant_stays(
    log: Seq<RegistrationModel>,
    later: Seq<RegistrationModel>,
    name: Seq<char>,
)
    requires
        forall|i: int|
            0 <= i < later.len() ==> !((
            #[trigger] later[i]) matches RegistrationModel::CustomVariant(n, _) && n == name),
    ensures
        registry::latest_variant(log + later, name) == registry::latest_variant(log, name),
    decreases later.len(),
{
    if later.len() == 0 {
        assert(log + later == log);
    } else {
        assert((log + later).drop_last() == log + later.drop_last());
        assert((log + later).last() == later[later.len() - 1]);
        lemma_variant_stays(log, later.drop_last(), name);
    }
}

/// A theme variable stays as it is while nothing that concerns it is
/// registered.
pub proof fn law_theme_variable_stays(
    log: Seq<RegistrationModel>,
    later: Seq<RegistrationModel>,
    name: Seq<char>,
)
    requires
        forall|i: int| 0 <= i < later.len() ==> !concerns(#[trigger] later[i], name),
    ensures
        registry::theme_state(log + later, name) == registry::theme_state(log, name),
    decreases later.len(),
{
    if later.len() == 0 {
        assert(log + later == log);
    } else {
        assert((log + later).drop_last() == log + later.drop_last());
        assert((log + later).last() == later[later.len() - 1]);
        law_theme_variable_stays(log, later.drop_last(), name);
    }
}

/// Once a namespace is reset, its variables stay dropped until they are
/// declared again.
pub proof fn law_cleared_until_declared(
    log: Seq<RegistrationModel>,
    later: Seq<RegistrationModel>,
    name: Seq<char>,
)
    requires
        registry::theme_state(log, name) == ThemeState::Cleared,
        forall|i: int| 0 <= i < later.len() ==> !declares(#[trigger] later[i], name),
    ensures
        registry::theme_state(log + later, name) == ThemeState::Cleared,
    decreases later.len(),
{
    if later.len() == 0 {
        assert(log + later == log);
    } else {
        assert((log + later).drop_last() == log + later.drop_last());
        assert((log + later).last() == later[later.len() - 1]);
        law_cleared_until_declared(log, later.drop_last(), name);
    }
}

/// A static utility is found under its name, with the positions and the count
/// of its block, unless it is declared again further down. The classes that it
/// applies are placed while what stands above it is registered.
pub proof fn law_static_utility_is_found<P: Fn(&str, &TailwindRegistry) -> Reply>(
    place: P,
    positions: Map<Seq<char>, u16>,
    items: Seq<CssItem>,
    before: Seq<RegistrationModel>,
    after: Seq<RegistrationModel>,
    k: int,
    name: Seq<char>,
    block: Seq<CssItem>,
)
    requires
        extract::extracted(place, positions, items, before, after),
        0 <= k < items.len(),
        static_block(items[k], name) == Some(block),
        forall|m: int| k < m < items.len() ==> static_block(#[trigger] items[m], name) is None,
    ensures
        exists|above: Seq<RegistrationModel>, replies: Seq<Seq<PlacementModel>>|
            {
                &&& extract::extracted(place, positions, items.take(k), before, above)
                &&& #[trigger] extract::all_replied(
                    place,
                    property_sort::item_list_classes(walk::level_order(block)),
                    above,
                    replies,
                )
                &&& registry::latest_static(after, name) == Some(
                    (
                        property_sort::signature(walk::level_order(block), replies, positions),
                        property_sort::declaration_count(walk::level_order(block), replies),
                    ),
                )
            },
{
    let (above, replies, later) = lemma_extract_at(place, positions, items, before, after, k);
    let own = extract::registrations(items[k], positions, replies);
    assert forall|i: int| 0 <= i < later.len() implies !((
    #[trigger] later[i]) matches RegistrationModel::StaticUtility(n, _, _) && n == name) by {
        let m = lemma_origin(items, positions, k, later[i]);
        let r = choose|r: Seq<Seq<PlacementModel>>| #[trigger]
            extract::registrations(items[m], positions, r).contains(later[i]);
        lemma_kinds(items[m], positions, r, later[i]);
        assert(static_block(items[m], name) is None);
    }
    lemma_static_stays(above + own, later, name);
    assert((above + own).last() == own[0]);
    assert(extract::all_replied(
        place,
        property_sort::item_list_classes(walk::level_order(block)),
        above,
        replies,
    ));
}

/// A functional utility is found under its name, with the declarations of its
/// block, unless it is declared again further down.
pub proof fn law_functional_utility_is_found<P: Fn(&str, &TailwindRegistry) -> Reply>(
    place: P,
    positions: Map<Seq<char>, u16>,
    items: Seq<CssItem>,
    before: Seq<RegistrationModel>,
    after: Seq<RegistrationModel>,
    k: int,
    name: Seq<char>,
    block: Seq<CssItem>,
)
    requires
        extract::extracted(place, positions, items, before, after),
        0 <= k < items.len(),
        functional_block(items[k], name) == Some(block),
        forall|m: int|
            k < m < items.len() ==> functional_block(#[trigger] items[m], name) is None,
    ensures
        registry::latest_functional(after, name) == Some(
            declarations::functional_decls(walk::level_order(block), positions),
        ),
{
    let (above, replies, later) = lemma_extract_at(place, positions, items, before, after, k);
    let own = extract::registrations(items[k], positions, replies);
    assert forall|i: int| 0 <= i < later.len() implies !((
    #[trigger] later[i]) matches RegistrationModel::FunctionalUtility(n, _) && n == name) by {
        let m = lemma_origin(items, positions, k, later[i]);
        let r = choose|r: Seq<Seq<PlacementModel>>| #[trigger]
            extract::registrations(items[m], positions, r).contains(later[i]);
        lemma_kinds(items[m], positions, r, later[i]);
        assert(functional_block(items[m], name) is None);
    }
    lemma_functional_stays(above + own, later, name);
    assert((above + own).last() == own[0]);
}

/// A custom variant is found under its name, unless it is declared again
/// further down. It emits at-rules (`1`) where it stands for one, or for a
/// block in which each direct entry is one, whatever those hold; otherwise it
/// emits style rules (`2`).
pub proof fn law_custom_variant_is_found<P: Fn(&str, &TailwindRegistry) -> Reply>(
    place: P,
    positions: Map<Seq<char>, u16>,
    items: Seq<CssItem>,
    before: Seq<RegistrationModel>,
    after: Seq<RegistrationModel>,
    k: int,
    name: Seq<char>,
    selector: Option<CustomVariantSelector>,
)
    requires
        extract::extracted(place, positions, items, before, after),
        0 <= k < items.len(),
        variant_selector(items[k], name) == Some(selector),
        forall|m: int|
            k < m < items.len() ==> variant_selector(#[trigger] items[m], name) is None,
    ensures
        registry::latest_variant(after, name) == Some(1u8) || registry::latest_variant(after, name)
            == Some(2u8),
        selector matches Some(CustomVariantSelector::RuleBlock(rules)) ==> (
        registry::latest_variant(after, name) == Some(1u8) <==> forall|i: int|
            0 <= i < rules@.len() ==> (#[trigger] rules@[i]) is AtRule),
        selector matches Some(CustomVariantSelector::Shorthand(shorthand)) ==> (
        registry::latest_variant(after, name) == Some(1u8) <==> shorthand == Some(
            VariantShorthand::AtRule,
        )),
        selector matches Some(CustomVariantSelector::Other(_)) ==> registry::latest_variant(
            after,
            name,
        ) == Some(2u8),
        selector is None ==> registry::latest_variant(after, name) == Some(2u8),
{
    let (above, replies, later) = lemma_extract_at(place, positions, items, before, after, k);
    let own = extract::registrations(items[k], positions, replies);
    assert forall|i: int| 0 <= i < later.len() implies !((
    #[trigger] later[i]) matches RegistrationModel::CustomVariant(n, _) && n == name) by {
        let m = lemma_origin(items, positions, k, later[i]);
        let r = choose|r: Seq<Seq<PlacementModel>>| #[trigger]
            extract::registrations(items[m], positions, r).contains(later[i]);
        lemma_kinds(items[m], positions, r, later[i]);
        assert(variant_selector(items[m], name) is None);
    }
    lemma_variant_stays(above + own, later, name);
    assert((above + own).last() == own[0]);
}

/// Which entry can register what.
proof fn lemma_kinds(
    item: CssItem,
    positions: Map<Seq<char>, u16>,
    replies: Seq<Seq<PlacementModel>>,
    entry: RegistrationModel,
)
    requires
        extract::registrations(item, positions, replies).contains(entry),
    ensures
        entry matches RegistrationModel::StaticUtility(n, _, _) ==> static_block(item, n) is Some,
        entry matches RegistrationModel::FunctionalUtility(n, _) ==> functional_block(
            item,
            n,
        ) is Some,
        entry matches RegistrationModel::CustomVariant(n, _) ==> variant_selector(
            item,
            n,
        ) is Some,
        forall|n: Seq<char>| #[trigger]
            concerns(entry, n) ==> extract::theme_items_registrations(theme_entries(item)).contains(
                entry,
            ),
{
    if let CssItem::AtRule(Some(CssAtRule::Theme(rule))) = item {
        lemma_theme_kinds(theme_entries(item), entry);
    }
}

/// A `@theme` block registers nothing but theme variables and resets, each of
/// them on account of one of its entries.
proof fn lemma_theme_kinds(entries: Seq<CssItem>, entry: RegistrationModel)
    requires
        extract::theme_items_registrations(entries).contains(entry),
    ensures
        entry is ThemeKey || entry is ClearThemeNamespace || entry is ClearAllThemeNamespaces,
        exists|j: int|
            0 <= j < entries.len() && extract::theme_item_registrations(#[trigger] entries[j])
                == seq![entry],
    decreases entries.len(),
{
    let added = extract::theme_items_registrations(entries);
    let i = choose|i: int| 0 <= i < added.len() && added[i] == entry;
    let first = extract::theme_items_registrations(entries.drop_last());
    let own = extract::theme_item_registrations(entries.last());
    assert(added == first + own);
    if i < first.len() {
        assert(first[i] == entry);
        lemma_theme_kinds(entries.drop_last(), entry);
        let j = choose|j: int|
            0 <= j < entries.drop_last().len() && extract::theme_item_registrations(
                #[trigger] entries.drop_last()[j],
            ) == seq![entry];
        assert(entries[j] == entries.drop_last()[j]);
    } else {
        assert(own == seq![entry]);
        assert(entries[entries.len() - 1] == entries.last());
    }
}

proof fn lemma_theme_concat(a: Seq<CssItem>, b: Seq<CssItem>)
    ensures
        extract::theme_items_registrations(a + b) == extract::theme_items_registrations(a)
            + extract::theme_items_registrations(b),
    decreases b.len(),
{
    if b.len() == 0 {
        assert(a + b == a);
    } else {
        lemma_theme_concat(a, b.drop_last());
        assert((a + b).drop_last() == a + b.drop_last());
    }
}

/// Where entry `e` of the `@theme` at `k` registers one thing, the
/// registrations up to that one, and those behind it. The latter come from
/// entries further down.
proof fn lemma_theme_at<P: Fn(&str, &TailwindRegistry) -> Reply>(
    place: P,
    positions: Map<Seq<char>, u16>,
    items: Seq<CssItem>,
    before: Seq<RegistrationModel>,
    after: Seq<RegistrationModel>,
    k: int,
    e: int,
    entry: RegistrationModel,
    name: Seq<char>,
) -> (parts: (Seq<RegistrationModel>, Seq<RegistrationModel>))
    requires
        extract::extracted(place, positions, items, before, after),
        0 <= k < items.len(),
        0 <= e < theme_entries(items[k]).len(),
        extract::theme_item_registrations(theme_entries(items[k])[e]) == seq![entry],
    ensures
        after == parts.0 + parts.1,
        parts.0.len() > 0,
        parts.0.last() == entry,
        forall|i: int|
            0 <= i < parts.1.len() && concerns(#[trigger] parts.1[i], name) ==> further_down(
                items,
                k,
                e,
                parts.1[i],
            ),
{
    let (above, replies, later) = lemma_extract_at(place, positions, items, before, after, k);
    let entries = theme_entries(items[k]);
    let upto = entries.take(e + 1);
    let behind = entries.skip(e + 1);
    assert(entries == upto + behind);
    lemma_theme_concat(upto, behind);
    assert(upto.drop_last() == entries.take(e));
    assert(upto.last() == entries[e]);
    let own = extract::registrations(items[k], positions, replies);
    assert(own == extract::theme_items_registrations(entries));
    let front = above + extract::theme_items_registrations(upto);
    let rest = extract::theme_items_registrations(behind);
    let back = rest + later;
    assert forall|i: int| 0 <= i < back.len() && concerns(#[trigger] back[i], name) implies
        further_down(items, k, e, back[i]) by {
        if i < rest.len() {
            assert(rest.contains(rest[i]));
            lemma_theme_kinds(behind, rest[i]);
            let j = choose|j: int|
                0 <= j < behind.len() && extract::theme_item_registrations(#[trigger] behind[j])
                    == seq![rest[i]];
            assert(behind[j] == entries[e + 1 + j]);
            assert(registers_at(items, k, e + 1 + j, back[i]));
        } else {
            let r = later[i - rest.len()];
            let m = lemma_origin(items, positions, k, r);
            let answers = choose|answers: Seq<Seq<PlacementModel>>| #[trigger]
                extract::registrations(items[m], positions, answers).contains(r);
            lemma_kinds(items[m], positions, answers, r);
            assert(concerns(r, name));
            lemma_theme_kinds(theme_entries(items[m]), r);
            let j = choose|j: int|
                0 <= j < theme_entries(items[m]).len() && extract::theme_item_registrations(
                    #[trigger] theme_entries(items[m])[j],
                ) == seq![r];
            assert(registers_at(items, m, j, back[i]));
        }
    }
    assert(after == front + back);
    (front, back)
}

/// Whether entry `j` of the `@theme` at `m` registers `entry`.
spec fn registers_at(items: Seq<CssItem>, m: int, j: int, entry: RegistrationModel) -> bool {
    &&& 0 <= m < items.len()
    &&& 0 <= j < theme_entries(items[m]).len()
    &&& extract::theme_item_registrations(theme_entries(items[m])[j]) == seq![entry]
}

/// Whether a `@theme` entry behind entry `e` of the one at `k` registers
/// `entry`.
spec fn further_down(items: Seq<CssItem>, k: int, e: int, entry: RegistrationModel) -> bool {
    exists|m: int, j: int|
        (m > k || (m == k && j > e)) && #[trigger] registers_at(items, m, j, entry)
}

/// An entry that registers what concerns a variable says so itself.
proof fn lemma_entry(item: CssItem, entry: RegistrationModel, name: Seq<char>)
    requires
        extract::theme_item_registrations(item) == seq![entry],
    ensures
        declares(entry, name) ==> entry_declares(item, name),
        concerns(entry, name) ==> entry_concerns(item, name),
{
    assert(seq![entry][0] == entry);
    if concerns(entry, name) && !declares(entry, name) {
        if let CssItem::Declaration(Some(declaration)) = item {
            if let Some(CssProperty::Generic(property)) = declaration.property {
                if let Some(DeclarationName::ThemeReference(Some(reference))) = property.name {
                    assert(resets(item, reference@));
                    assert(covers(reference@, name));
                }
            }
        }
    }
}

/// An entry that sets a variable registers just that.
pub proof fn lemma_sets_key(item: CssItem, name: Seq<char>, value: Seq<char>)
    requires
        sets_key(item, name, value),
    ensures
        extract::theme_item_registrations(item) == seq![RegistrationModel::ThemeKey(name, value)],
{
    if let CssItem::Declaration(Some(declaration)) = item {
        if let Some(CssProperty::Generic(property)) = declaration.property {
            match declarations::single_value(property) {
                Some(source) => {
                    assert(value_laws::is_one_component(property, source));
                },
                None => {
                    assert(value == Seq::<char>::empty());
                },
            }
        }
    }
}

/// A later `--color-*: initial` clears an earlier `--color-x`, and a later
/// `--*: initial` clears everything: behind a reset no variable of the
/// namespace is declared, whatever was declared above, unless it is declared
/// again further down.
pub proof fn law_reset_clears_earlier_keys<P: Fn(&str, &TailwindRegistry) -> Reply>(
    place: P,
    positions: Map<Seq<char>, u16>,
    items: Seq<CssItem>,
    before: Seq<RegistrationModel>,
    after: Seq<RegistrationModel>,
    k: int,
    e: int,
    reference: Seq<char>,
    name: Seq<char>,
)
    requires
        extract::extracted(place, positions, items, before, after),
        0 <= k < items.len(),
        0 <= e < theme_entries(items[k]).len(),
        resets(theme_entries(items[k])[e], reference),
        covers(reference, name),
        forall|j: int|
            e < j < theme_entries(items[k]).len() ==> !entry_declares(
                #[trigger] theme_entries(items[k])[j],
                name,
            ),
        forall|m: int, j: int|
            k < m < items.len() && 0 <= j < theme_entries(items[m]).len() ==> !entry_declares(
                #[trigger] theme_entries(items[m])[j],
                name,
            ),
    ensures
        registry::theme_state(after, name) == ThemeState::Cleared,
{
    let added = extract::theme_item_registrations(theme_entries(items[k])[e]);
    let entry = added[0];
    assert(added == seq![entry]);
    let (front, back) = lemma_theme_at(
        place,
        positions,
        items,
        before,
        after,
        k,
        e,
        entry,
        name,
    );
    assert(registry::theme_state(front, name) == ThemeState::Cleared);
    assert forall|i: int| 0 <= i < back.len() implies !declares(#[trigger] back[i], name) by {
        if declares(back[i], name) {
            assert(concerns(back[i], name));
            let (m, j) = choose|m: int, j: int|
                (m > k || (m == k && j > e)) && #[trigger] registers_at(items, m, j, back[i]);
            lemma_entry(theme_entries(items[m])[j], back[i], name);
            assert(entry_declares(theme_entries(items[m])[j], name));
        }
    }
    law_cleared_until_declared(front, back, name);
}

/// A declared theme variable holds its value, whatever was reset above, unless
/// it is declared again or dropped further down.
pub proof fn law_later_key_stands<P: Fn(&str, &TailwindRegistry) -> Reply>(
    place: P,
    positions: Map<Seq<char>, u16>,
    items: Seq<CssItem>,
    before: Seq<RegistrationModel>,
    after: Seq<RegistrationModel>,
    k: int,
    e: int,
    name: Seq<char>,
    value: Seq<char>,
)
    requires
        extract::extracted(place, positions, items, before, after),
        0 <= k < items.len(),
        0 <= e < theme_entries(items[k]).len(),
        sets_key(theme_entries(items[k])[e], name, value),
        forall|j: int|
            e < j < theme_entries(items[k]).len() ==> !entry_concerns(
                #[trigger] theme_entries(items[k])[j],
                name,
            ),
        forall|m: int, j: int|
            k < m < items.len() && 0 <= j < theme_entries(items[m]).len() ==> !entry_concerns(
                #[trigger] theme_entries(items[m])[j],
                name,
            ),
    ensures
        registry::theme_state(after, name) == ThemeState::Declared(value),
{
    let entry = RegistrationModel::ThemeKey(name, value);
    lemma_sets_key(theme_entries(items[k])[e], name, value);
    let (front, back) = lemma_theme_at(
        place,
        positions,
        items,
        before,
        after,
        k,
        e,
        entry,
        name,
    );
    assert(registry::theme_state(front, name) == ThemeState::Declared(value));
    assert forall|i: int| 0 <= i < back.len() implies !concerns(#[trigger] back[i], name) by {
        if concerns(back[i], name) {
            let (m, j) = choose|m: int, j: int|
                (m > k || (m == k && j > e)) && #[trigger] registers_at(items, m, j, back[i]);
            lemma_entry(theme_entries(items[m])[j], back[i], name);
            assert(entry_concerns(theme_entries(items[m])[j], name));
        }
    }
    law_theme_variable_stays(front, back, name);
}

/// A reset of every namespace by `--*` as a dashed name clears every variable
/// that is not declared again further down.
pub proof fn law_dashed_star_clears_earlier_keys<P: Fn(&str, &TailwindRegistry) -> Reply>(
    place: P,
    positions: Map<Seq<char>, u16>,
    items: Seq<CssItem>,
    before: Seq<RegistrationModel>,
    after: Seq<RegistrationModel>,
    k: int,
    e: int,
    name: Seq<char>,
)
    requires
        extract::extracted(place, positions, items, before, after),
        0 <= k < items.len(),
        0 <= e < theme_entries(items[k]).len(),
        is_dashed(theme_entries(items[k])[e], "--*"@),
        forall|j: int|
            e < j < theme_entries(items[k]).len() ==> !entry_declares(
                #[trigger] theme_entries(items[k])[j],
                name,
            ),
        forall|m: int, j: int|
            k < m < items.len() && 0 <= j < theme_entries(items[m]).len() ==> !entry_declares(
                #[trigger] theme_entries(items[m])[j],
                name,
            ),
    ensures
        registry::theme_state(after, name) == ThemeState::Cleared,
{
    let entry = RegistrationModel::ClearAllThemeNamespaces;
    assert(extract::theme_item_registrations(theme_entries(items[k])[e]) == seq![entry]);
    let (front, back) = lemma_theme_at(
        place,
        positions,
        items,
        before,
        after,
        k,
        e,
        entry,
        name,
    );
    assert forall|i: int| 0 <= i < back.len() implies !declares(#[trigger] back[i], name) by {
        if declares(back[i], name) {
            assert(concerns(back[i], name));
            let (m, j) = choose|m: int, j: int|
                (m > k || (m == k && j > e)) && #[trigger] registers_at(items, m, j, back[i]);
            lemma_entry(theme_entries(items[m])[j], back[i], name);
        }
    }
    law_cleared_until_declared(front, back, name);
}

/// What no entry declares is found as before: extraction registers nothing
/// under another name, or of another kind.
pub proof fn law_undeclared_names_stay<P: Fn(&str, &TailwindRegistry) -> Reply>(
    place: P,
    positions: Map<Seq<char>, u16>,
    items: Seq<CssItem>,
    before: Seq<RegistrationModel>,
    after: Seq<RegistrationModel>,
    name: Seq<char>,
)
    requires
        extract::extracted(place, positions, items, before, after),
    ensures
        (forall|m: int| 0 <= m < items.len() ==> static_block(#[trigger] items[m], name) is None)
            ==> registry::latest_static(after, name) == registry::latest_static(before, name),
        (forall|m: int|
            0 <= m < items.len() ==> functional_block(#[trigger] items[m], name) is None)
            ==> registry::latest_functional(after, name) == registry::latest_functional(
            before,
            name,
        ),
        (forall|m: int|
            0 <= m < items.len() ==> variant_selector(#[trigger] items[m], name) is None)
            ==> registry::latest_variant(after, name) == registry::latest_variant(before, name),
        (forall|m: int, j: int|
            0 <= m < items.len() && 0 <= j < theme_entries(items[m]).len() ==> !entry_concerns(
                #[trigger] theme_entries(items[m])[j],
                name,
            )) ==> registry::theme_state(after, name) == registry::theme_state(before, name),
{
    let added = lemma_added(place, positions, items, before, after);
    if forall|m: int| 0 <= m < items.len() ==> static_block(#[trigger] items[m], name) is None {
        assert forall|i: int| 0 <= i < added.len() implies !((
        #[trigger] added[i]) matches RegistrationModel::StaticUtility(n, _, _) && n == name) by {
            lemma_added_kinds(items, positions, added[i]);
        }
        lemma_static_stays(before, added, name);
    }
    if forall|m: int|
        0 <= m < items.len() ==> functional_block(#[trigger] items[m], name) is None {
        assert forall|i: int| 0 <= i < added.len() implies !((
        #[trigger] added[i]) matches RegistrationModel::FunctionalUtility(n, _) && n == name) by {
            lemma_added_kinds(items, positions, added[i]);
        }
        lemma_functional_stays(before, added, name);
    }
    if forall|m: int|
        0 <= m < items.len() ==> variant_selector(#[trigger] items[m], name) is None {
        assert forall|i: int| 0 <= i < added.len() implies !((
        #[trigger] added[i]) matches RegistrationModel::CustomVariant(n, _) && n == name) by {
            lemma_added_kinds(items, positions, added[i]);
        }
        lemma_variant_stays(before, added, name);
    }
    if forall|m: int, j: int|
        0 <= m < items.len() && 0 <= j < theme_entries(items[m]).len() ==> !entry_concerns(
            #[trigger] theme_entries(items[m])[j],
            name,
        ) {
        assert forall|i: int| 0 <= i < added.len() implies !concerns(#[trigger] added[i], name) by {
            if concerns(added[i], name) {
                let m = lemma_added_kinds(items, positions, added[i]);
                assert(extract::theme_items_registrations(theme_entries(items[m])).contains(
                    added[i],
                ));
                lemma_theme_kinds(theme_entries(items[m]), added[i]);
                let j = choose|j: int|
                    0 <= j < theme_entries(items[m]).len() && extract::theme_item_registrations(
                        #[trigger] theme_entries(items[m])[j],
                    ) == seq![added[i]];
                lemma_entry(theme_entries(items[m])[j], added[i], name);
            }
        }
        law_theme_variable_stays(before, added, name);
    }
}

/// Which entry registered what.
proof fn lemma_added_kinds(
    items: Seq<CssItem>,
    positions: Map<Seq<char>, u16>,
    entry: RegistrationModel,
) -> (m: int)
    requires
        one_registers(items, positions, entry),
    ensures
        0 <= m < items.len(),
        entry matches RegistrationModel::StaticUtility(n, _, _) ==> static_block(
            items[m],
            n,
        ) is Some,
        entry matches RegistrationModel::FunctionalUtility(n, _) ==> functional_block(
            items[m],
            n,
        ) is Some,
        entry matches RegistrationModel::CustomVariant(n, _) ==> variant_selector(
            items[m],
            n,
        ) is Some,
        forall|n: Seq<char>| #[trigger]
            concerns(entry, n) ==> extract::theme_items_registrations(
                theme_entries(items[m]),
            ).contains(entry),
{
    let m = choose|m: int| 0 <= m < items.len() && registers(#[trigger] items[m], positions, entry);
    let replies = choose|replies: Seq<Seq<PlacementModel>>| #[trigger]
        extract::registrations(items[m], positions, replies).contains(entry);
    lemma_kinds(items[m], positions, replies, entry);
    m
}

} // verus!
