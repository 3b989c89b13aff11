//! What holds of registrations, one by one.

use crate::css::{
    BlockKind, CssAtRule, CssBlock, CssItem, CssProperty, CustomVariantSelector, DeclarationName,
    TwCustomVariantAtRule, TwThemeAtRule, TwUtilityAtRule, UtilityName, VariantShorthand,
};
use crate::declarations;
use crate::extract;
use crate::lookup_laws;
use crate::property_sort;
use crate::property_sort::{PlacementModel, Reply};
use crate::registry;
use crate::registry::{
    FunctionalDecl, Registration, RegistrationModel, ShapeModel, TailwindRegistry, ThemeLookup,
    ThemeState, ValueShape,
};
use crate::walk;
use vstd::prelude::*;
use vstd::utf8::*;

verus! {

/// A static utility is found where it is what was registered last under the
/// name; registering anything else changes nothing.
pub proof fn law_static_lookup(
    log: Seq<RegistrationModel>,
    entry: RegistrationModel,
    name: Seq<char>,
)
    ensures
        entry matches RegistrationModel::StaticUtility(n, sig, count) ==> (n == name
            ==> registry::latest_static(log.push(entry), name) == Some((sig, count))),
        !(entry matches RegistrationModel::StaticUtility(n, _, _) && n == name)
            ==> registry::latest_static(log.push(entry), name) == registry::latest_static(
            log,
            name,
        ),
        registry::latest_static(Seq::empty(), name) is None,
{
    assert(log.push(entry).drop_last() == log);
}

/// A functional utility is found where it is what was registered last under
/// the name; registering anything else changes nothing.
pub proof fn law_functional_lookup(
    log: Seq<RegistrationModel>,
    entry: RegistrationModel,
    name: Seq<char>,
)
    ensures
        entry matches RegistrationModel::FunctionalUtility(n, decls) ==> (n == name
            ==> registry::latest_functional(log.push(entry), name) == Some(decls)),
        !(entry matches RegistrationModel::FunctionalUtility(n, _) && n == name)
            ==> registry::latest_functional(log.push(entry), name) == registry::latest_functional(
            log,
            name,
        ),
        registry::latest_functional(Seq::empty(), name) is None,
{
    assert(log.push(entry).drop_last() == log);
}

/// A custom variant is found where it is what was registered last under the
/// name; registering anything else changes nothing.
pub proof fn law_variant_lookup(
    log: Seq<RegistrationModel>,
    entry: RegistrationModel,
    name: Seq<char>,
)
    ensures
        entry matches RegistrationModel::CustomVariant(n, compounds) ==> (n == name
            ==> registry::latest_variant(log.push(entry), name) == Some(compounds)),
        !(entry matches RegistrationModel::CustomVariant(n, _) && n == name)
            ==> registry::latest_variant(log.push(entry), name) == registry::latest_variant(
            log,
            name,
        ),
        registry::latest_variant(Seq::empty(), name) is None,
{
    assert(log.push(entry).drop_last() == log);
}

/// A theme variable holds the value last declared, unless it was dropped since,
/// alone, with its namespace or with all of them; registering anything else
/// changes nothing.
pub proof fn law_theme_lookup(
    log: Seq<RegistrationModel>,
    entry: RegistrationModel,
    name: Seq<char>,
    prefix: Seq<char>,
    rest: Seq<char>,
)
    ensures
        entry matches RegistrationModel::ThemeKey(n, value) ==> (n == name
            ==> registry::theme_state(log.push(entry), name) == ThemeState::Declared(value)),
        name == prefix + rest ==> registry::theme_state(
            log.push(RegistrationModel::ClearThemeNamespace(prefix)),
            name,
        ) == ThemeState::Cleared,
        registry::theme_state(log.push(RegistrationModel::ClearAllThemeNamespaces), name)
            == ThemeState::Cleared,
        !lookup_laws::concerns(entry, name) ==> registry::theme_state(log.push(entry), name)
            == registry::theme_state(log, name),
        registry::theme_state(Seq::empty(), name) == ThemeState::Untouched,
{
    assert(log.push(entry).drop_last() == log);
    if name == prefix + rest {
        assert(name.subrange(0, prefix.len() as int) == prefix);
        assert(prefix.is_prefix_of(name));
    }
}

/// Nothing of a declaration or of a shape is lost in what they say.
pub proof fn law_shapes_are_kept(decl: FunctionalDecl, shape: ValueShape, k: int)
    ensures
        decl@.property == decl.property,
        decl@.sort_hint == decl.sort_hint,
        decl@.value is Some == decl.value is Some,
        decl@.modifier is Some == decl.modifier is Some,
        decl.value matches Some(list) ==> (0 <= k < list@.len() ==> decl@.value->0.len()
            == list@.len() && decl@.value->0[k] == list@[k]@),
        decl.modifier matches Some(list) ==> (0 <= k < list@.len() ==> decl@.modifier->0.len()
            == list@.len() && decl@.modifier->0[k] == list@[k]@),
        shape matches ValueShape::Theme(text) ==> shape@ == ShapeModel::Theme(text@),
        shape matches ValueShape::Bare(bare) ==> shape@ == ShapeModel::Bare(bare),
        shape matches ValueShape::Arbitrary(named) ==> shape@ == ShapeModel::Arbitrary(named),
        shape matches ValueShape::Literal(text) ==> shape@ == ShapeModel::Literal(text@),
{
}

/// Nothing of a registration is lost in what it says.
pub proof fn law_registrations_are_kept(entry: Registration, k: int)
    ensures
        entry matches Registration::StaticUtility(name, utility) ==> entry@
            == RegistrationModel::StaticUtility(name@, utility.sig@, utility.count),
        entry matches Registration::FunctionalUtility(name, utility) ==> (
        entry@ matches RegistrationModel::FunctionalUtility(n, decls) && n == name@ && decls.len()
            == utility.decls@.len() && (0 <= k < decls.len() ==> decls[k] == utility.decls@[k]@)),
        entry matches Registration::CustomVariant(name, variant) ==> entry@
            == RegistrationModel::CustomVariant(name@, variant.compounds),
        entry matches Registration::ThemeKey(name, value) ==> entry@
            == RegistrationModel::ThemeKey(name@, value@),
        entry matches Registration::ClearThemeNamespace(prefix) ==> entry@
            == RegistrationModel::ClearThemeNamespace(prefix@),
        entry is ClearAllThemeNamespaces ==> entry@ is ClearAllThemeNamespaces,
{
}

/// Nothing of what is found of a theme variable is lost in what that says.
pub proof fn law_theme_lookups_are_kept(found: ThemeLookup<'_>)
    ensures
        found matches ThemeLookup::Declared(value) ==> found@ == ThemeState::Declared(value@),
        found is Cleared ==> found@ is Cleared,
        found is Untouched ==> found@ is Untouched,
{
}

/// Entries register what they declare one after the other: one more entry adds
/// what it registers to what those before it left, given the replies to its
/// classes while that is registered.
pub proof fn law_one_more_entry_registers<P: Fn(&str, &TailwindRegistry) -> Reply>(
    place: P,
    positions: Map<Seq<char>, u16>,
    items: Seq<CssItem>,
    item: CssItem,
    before: Seq<RegistrationModel>,
    after: Seq<RegistrationModel>,
)
    ensures
        extract::extracted(place, positions, items.push(item), before, after) <==> exists|
            mid: Seq<RegistrationModel>,
            replies: Seq<Seq<PlacementModel>>,
        |
            {
                &&& extract::extracted(place, positions, items, before, mid)
                &&& #[trigger] extract::all_replied(
                    place,
                    extract::asked_classes(item),
                    mid,
                    replies,
                )
                &&& after == mid + extract::registrations(item, positions, replies)
            },
        extract::extracted(place, positions, Seq::empty(), before, after) <==> after == before,
{
    assert(items.push(item).drop_last() == items);
    assert(items.push(item).last() == item);
}

/// The reply to a class is what `place` returns on the text of the class and a
/// registry in which just `log` is registered, candidate by candidate.
pub proof fn law_replies_are_what_place_returns<P: Fn(&str, &TailwindRegistry) -> Reply>(
    place: P,
    classes: Seq<Seq<char>>,
    log: Seq<RegistrationModel>,
    replies: Seq<Seq<PlacementModel>>,
    k: int,
)
    requires
        extract::all_replied(place, classes, log, replies),
        0 <= k < classes.len(),
    ensures
        replies.len() == classes.len(),
        exists|class: &str, registry: &TailwindRegistry, out: Reply|
            {
                &&& #[trigger] call_ensures(place, (class, registry), out)
                &&& class@ == classes[k]
                &&& registry@ == log
                &&& replies[k].len() == out@.len()
                &&& forall|d: int|
                    0 <= d < out@.len() ==> #[trigger] replies[k][d] == match out@[d] {
                        Some(placement) => Some((placement.signature@, placement.count)),
                        None => None,
                    }
            },
{
    assert(extract::replied(place, classes[k], log, replies[k]));
    let (class, registry, out) = choose|class: &str, registry: &TailwindRegistry, out: Reply|
        {
            &&& #[trigger] call_ensures(place, (class, registry), out)
            &&& class@ == classes[k]
            &&& registry@ == log
            &&& property_sort::reply_view(out@) == replies[k]
        };
    assert(call_ensures(place, (class, registry), out));
}

/// A static utility asks for the classes that the walk through its block
/// meets; nothing else asks for any.
pub proof fn law_asked_classes(item: CssItem, rule: TwUtilityAtRule, name: String, block: CssBlock)
    ensures
        item == CssItem::AtRule(Some(CssAtRule::Utility(rule))) && rule.name == Some(
            UtilityName::Static(Some(name)),
        ) && rule.block == Some(block) && block.kind == BlockKind::DeclarationOrRule
            ==> extract::asked_classes(item) == property_sort::item_list_classes(
            walk::level_order(block.items@),
        ),
        (forall|n: Seq<char>| (#[trigger] lookup_laws::static_block(item, n)) is None)
            ==> extract::asked_classes(item).len() == 0,
{
    if let CssItem::AtRule(Some(CssAtRule::Utility(r))) = item {
        if let Some(UtilityName::Static(Some(n))) = r.name {
            assert(lookup_laws::static_block(item, n@) == lookup_laws::entries_of(r.block));
        }
    }
}

/// A utility with a name and a block of declarations and rules registers one
/// utility: a static one with the positions and the count of its block, or a
/// functional one with the declarations of its block.
pub proof fn law_utility_registers_one(
    rule: TwUtilityAtRule,
    name: String,
    block: CssBlock,
    positions: Map<Seq<char>, u16>,
    replies: Seq<Seq<PlacementModel>>,
)
    requires
        rule.block == Some(block),
        block.kind == BlockKind::DeclarationOrRule,
    ensures
        rule.name == Some(UtilityName::Static(Some(name))) ==> extract::registrations(
            CssItem::AtRule(Some(CssAtRule::Utility(rule))),
            positions,
            replies,
        ) == seq![
            RegistrationModel::StaticUtility(
                name@,
                property_sort::signature(walk::level_order(block.items@), replies, positions),
                property_sort::declaration_count(walk::level_order(block.items@), replies),
            ),
        ],
        rule.name == Some(UtilityName::Functional(Some(name))) ==> extract::registrations(
            CssItem::AtRule(Some(CssAtRule::Utility(rule))),
            positions,
            replies,
        ) == seq![
            RegistrationModel::FunctionalUtility(
                name@,
                declarations::functional_decls(walk::level_order(block.items@), positions),
            ),
        ],
{
}

/// A custom variant with a name registers one variant.
pub proof fn law_variant_registers_one(
    rule: TwCustomVariantAtRule,
    name: String,
    positions: Map<Seq<char>, u16>,
    replies: Seq<Seq<PlacementModel>>,
)
    requires
        rule.name == Some(name),
    ensures
        ({
            let added = extract::registrations(
                CssItem::AtRule(Some(CssAtRule::CustomVariant(rule))),
                positions,
                replies,
            );
            let at_rules = RegistrationModel::CustomVariant(name@, 1);
            let style_rules = RegistrationModel::CustomVariant(name@, 2);
            &&& added == seq![at_rules] || added == seq![style_rules]
            &&& rule.selector matches Some(CustomVariantSelector::RuleBlock(rules)) ==> (added
                == seq![at_rules] <==> forall|i: int|
                0 <= i < rules@.len() ==> (#[trigger] rules@[i]) is AtRule)
            &&& rule.selector matches Some(CustomVariantSelector::Shorthand(inside)) ==> (added
                == seq![at_rules] <==> inside == Some(VariantShorthand::AtRule))
            &&& !(rule.selector matches Some(CustomVariantSelector::RuleBlock(_))) && !(
            rule.selector matches Some(CustomVariantSelector::Shorthand(_))) ==> added == seq![
                style_rules,
            ]
        }),
{
    let added = extract::registrations(
        CssItem::AtRule(Some(CssAtRule::CustomVariant(rule))),
        positions,
        replies,
    );
    assert(added.len() == 1);
    assert(seq![RegistrationModel::CustomVariant(name@, 1)][0] == RegistrationModel::CustomVariant(
        name@,
        1,
    ));
    assert(seq![RegistrationModel::CustomVariant(name@, 2)][0] == RegistrationModel::CustomVariant(
        name@,
        2,
    ));
}

/// A `@theme` with a block of declarations and rules registers what the
/// entries of the block register, one after the other.
pub proof fn law_theme_registers_its_entries(
    rule: TwThemeAtRule,
    block: CssBlock,
    positions: Map<Seq<char>, u16>,
    replies: Seq<Seq<PlacementModel>>,
)
    requires
        rule.block == Some(block),
        block.kind == BlockKind::DeclarationOrRule,
    ensures
        extract::registrations(CssItem::AtRule(Some(CssAtRule::Theme(rule))), positions, replies)
            == extract::theme_items_registrations(block.items@),
{
}

/// The entries of a `@theme` block register one after the other.
pub proof fn law_theme_entries_join(first: Seq<CssItem>, second: Seq<CssItem>)
    ensures
        extract::theme_items_registrations(first + second) == extract::theme_items_registrations(
            first,
        ) + extract::theme_items_registrations(second),
        extract::theme_items_registrations(Seq::empty()).len() == 0,
    decreases second.len(),
{
    if second.len() == 0 {
        assert(first + second == first);
        assert(extract::theme_items_registrations(second) == Seq::<RegistrationModel>::empty());
    } else {
        law_theme_entries_join(first, second.drop_last());
        assert((first + second).drop_last() == first + second.drop_last());
        assert(extract::theme_items_registrations(first + second)
            == extract::theme_items_registrations(first) + extract::theme_items_registrations(
            second,
        ));
    }
}

/// An entry of a `@theme` block registers a variable with its value, a reset of
/// every namespace, a reset of the namespace of a reference, or nothing.
pub proof fn law_theme_entry(
    entry: CssItem,
    name: Seq<char>,
    value: Seq<char>,
    reference: Seq<char>,
)
    ensures
        lookup_laws::sets_key(entry, name, value) ==> extract::theme_items_registrations(
            seq![entry],
        ) == seq![RegistrationModel::ThemeKey(name, value)],
        lookup_laws::is_dashed(entry, "--*"@) || lookup_laws::resets(entry, "--"@)
            ==> extract::theme_items_registrations(seq![entry]) == seq![
            RegistrationModel::ClearAllThemeNamespaces,
        ],
        lookup_laws::resets(entry, reference) && reference != "--"@ && encode_utf8(reference).len()
            < 64 ==> extract::theme_items_registrations(seq![entry]) == seq![
            RegistrationModel::ClearThemeNamespace(reference.push('-')),
        ],
        lookup_laws::resets(entry, reference) && reference != "--"@ && encode_utf8(reference).len()
            >= 64 ==> extract::theme_items_registrations(seq![entry]).len() == 0,
        (forall|n: Seq<char>| !#[trigger] lookup_laws::is_dashed(entry, n)) && (forall|r: Seq<char>|
            !#[trigger] lookup_laws::resets(entry, r)) ==> extract::theme_items_registrations(
            seq![entry],
        ).len() == 0,
{
    assert(seq![entry].drop_last() == Seq::<CssItem>::empty());
    assert(extract::theme_items_registrations(seq![entry].drop_last()) == Seq::<
        RegistrationModel,
    >::empty());
    assert(seq![entry].last() == entry);
    assert(extract::theme_items_registrations(seq![entry]) == extract::theme_item_registrations(
        entry,
    ));
    if lookup_laws::sets_key(entry, name, value) {
        lookup_laws::lemma_sets_key(entry, name, value);
    }
    if let CssItem::Declaration(Some(declaration)) = entry {
        if let Some(CssProperty::Generic(property)) = declaration.property {
            if let Some(DeclarationName::Dashed(Some(text))) = property.name {
                assert(lookup_laws::is_dashed(entry, text@));
            }
            if let Some(DeclarationName::ThemeReference(Some(text))) = property.name {
                assert(lookup_laws::resets(entry, text@));
            }
        }
    }
}

/// An entry that declares no utility, no variant and no theme registers
/// nothing.
pub proof fn law_others_register_nothing(
    item: CssItem,
    positions: Map<Seq<char>, u16>,
    replies: Seq<Seq<PlacementModel>>,
)
    requires
        forall|n: Seq<char>| (#[trigger] lookup_laws::static_block(item, n)) is None,
        forall|n: Seq<char>| (#[trigger] lookup_laws::functional_block(item, n)) is None,
        forall|n: Seq<char>| (#[trigger] lookup_laws::variant_selector(item, n)) is None,
        lookup_laws::theme_entries(item).len() == 0,
    ensures
        extract::registrations(item, positions, replies).len() == 0,
{
    match item {
        CssItem::AtRule(Some(CssAtRule::Utility(rule))) => match rule.name {
            Some(UtilityName::Static(Some(name))) => {
                assert(lookup_laws::static_block(item, name@) is None);
            },
            Some(UtilityName::Functional(Some(name))) => {
                assert(lookup_laws::functional_block(item, name@) is None);
            },
            _ => {},
        },
        CssItem::AtRule(Some(CssAtRule::CustomVariant(rule))) => {
            if let Some(name) = rule.name {
                assert(lookup_laws::variant_selector(item, name@) is None);
            }
        },
        CssItem::AtRule(Some(CssAtRule::Theme(rule))) => {
            law_theme_entries_join(Seq::empty(), Seq::empty());
            assert(lookup_laws::theme_entries(item) == Seq::<CssItem>::empty());
        },
        _ => {},
    }
}

} // verus!
