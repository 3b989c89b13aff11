//! Lowers a stylesheet's `@utility`, `@custom-variant`, and `@theme` at-rules
//! into a [TailwindRegistry].

use crate::css;
use crate::css::{
    BlockKind, CssAtRule, CssBlock, CssItem, CssProperty, CssRoot, CustomVariantSelector,
    DeclarationName, TwCustomVariantAtRule, TwThemeAtRule, TwUtilityAtRule, UtilityName,
    VariantShorthand,
};
use crate::declarations;
use crate::properties::PropertyIndex;
use crate::property_sort;
use crate::property_sort::{PlacementModel, Reply};
use crate::registry;
use crate::registry::{RegistrationModel, TailwindRegistry};
use crate::text;
use crate::walk;
use vstd::prelude::*;
use vstd::string::*;
use vstd::utf8::*;

verus! {

/// The number of bytes that the prefix of a theme namespace can have.
pub const NAMESPACE_CAPACITY: usize = 64;

/// The classes whose placement a utility depends on.
pub open spec fn utility_classes(rule: TwUtilityAtRule) -> Seq<Seq<char>> {
    match (rule.name, css::block_items(rule.block)) {
        (Some(UtilityName::Static(Some(_))), Some(items)) => property_sort::item_list_classes(
            walk::level_order(items),
        ),
        _ => Seq::empty(),
    }
}

/// What an `@utility` registers.
pub open spec fn utility_registrations(
    rule: TwUtilityAtRule,
    positions: Map<Seq<char>, u16>,
    replies: Seq<Seq<PlacementModel>>,
) -> Seq<RegistrationModel> {
    match (rule.name, css::block_items(rule.block)) {
        (Some(UtilityName::Static(Some(name))), Some(items)) => {
            let order = walk::level_order(items);
            seq![
                RegistrationModel::StaticUtility(
                    name@,
                    property_sort::signature(order, replies, positions),
                    property_sort::declaration_count(order, replies),
                ),
            ]
        },
        (Some(UtilityName::Functional(Some(name))), Some(items)) => seq![
            RegistrationModel::FunctionalUtility(
                name@,
                declarations::functional_decls(walk::level_order(items), positions),
            ),
        ],
        _ => Seq::empty(),
    }
}

/// What a variant emits: `1` for at-rules (`@media …`), `2` for style rules
/// (selectors).
pub open spec fn compounds_of(selector: Option<CustomVariantSelector>) -> u8 {
    match selector {
        Some(CustomVariantSelector::Shorthand(Some(VariantShorthand::AtRule))) => 1,
        Some(CustomVariantSelector::RuleBlock(rules)) => if forall|i: int|
            0 <= i < rules@.len() ==> (#[trigger] rules@[i]) is AtRule {
            1
        } else {
            2
        },
        _ => 2,
    }
}

/// What a `@custom-variant` registers.
pub open spec fn variant_registrations(rule: TwCustomVariantAtRule) -> Seq<RegistrationModel> {
    match rule.name {
        Some(name) => seq![
            RegistrationModel::CustomVariant(name@, compounds_of(rule.selector)),
        ],
        None => Seq::empty(),
    }
}

/// The prefix of the namespace that a theme reference names, where it is not
/// too long.
pub open spec fn namespace_of(reference: Seq<char>) -> Option<Seq<char>> {
    if encode_utf8(reference).len() + 1 <= NAMESPACE_CAPACITY {
        Some(reference.push('-'))
    } else {
        None
    }
}

/// What one entry of a `@theme` block registers.
pub open spec fn theme_item_registrations(item: CssItem) -> Seq<RegistrationModel> {
    match item {
        CssItem::Declaration(Some(declaration)) => match declaration.property {
            Some(CssProperty::Generic(property)) => match property.name {
                // `--color-*: initial` / `--*: initial` reset a namespace.
                Some(DeclarationName::ThemeReference(Some(reference))) => {
                    if reference@ == "--"@ {
                        seq![RegistrationModel::ClearAllThemeNamespaces]
                    } else {
                        match namespace_of(reference@) {
                            Some(prefix) => seq![RegistrationModel::ClearThemeNamespace(prefix)],
                            None => Seq::empty(),
                        }
                    }
                },
                Some(DeclarationName::Dashed(Some(name))) => {
                    if name@ == "--*"@ {
                        seq![RegistrationModel::ClearAllThemeNamespaces]
                    } else {
                        let value = match declarations::single_value(property) {
                            Some(value) => value,
                            None => Seq::empty(),
                        };
                        seq![RegistrationModel::ThemeKey(name@, value)]
                    }
                },
                _ => Seq::empty(),
            },
            _ => Seq::empty(),
        },
        _ => Seq::empty(),
    }
}

/// What the entries of a `@theme` block register, in their order.
pub open spec fn theme_items_registrations(items: Seq<CssItem>) -> Seq<RegistrationModel>
    decreases items.len(),
{
    if items.len() == 0 {
        Seq::empty()
    } else {
        theme_items_registrations(items.drop_last()) + theme_item_registrations(items.last())
    }
}

/// What a `@theme` registers.
pub open spec fn theme_registrations(rule: TwThemeAtRule) -> Seq<RegistrationModel> {
    match css::block_items(rule.block) {
        Some(items) => theme_items_registrations(items),
        None => Seq::empty(),
    }
}

/// The classes whose placement an entry of a stylesheet depends on.
pub open spec fn asked_classes(item: CssItem) -> Seq<Seq<char>> {
    match item {
        CssItem::AtRule(Some(CssAtRule::Utility(rule))) => utility_classes(rule),
        _ => Seq::empty(),
    }
}

/// What an entry of a stylesheet registers itself, given the replies to the
/// classes that it depends on.
pub open spec fn registrations(
    item: CssItem,
    positions: Map<Seq<char>, u16>,
    replies: Seq<Seq<PlacementModel>>,
) -> Seq<RegistrationModel> {
    match item {
        CssItem::AtRule(Some(CssAtRule::Utility(rule))) => utility_registrations(
            rule,
            positions,
            replies,
        ),
        CssItem::AtRule(Some(CssAtRule::CustomVariant(rule))) => variant_registrations(rule),
        CssItem::AtRule(Some(CssAtRule::Theme(rule))) => theme_registrations(rule),
        _ => Seq::empty(),
    }
}

/// Whether `place` can reply `reply` to a class while `log` is registered.
pub open spec fn replied<P: Fn(&str, &TailwindRegistry) -> Reply>(
    place: P,
    class: Seq<char>,
    log: Seq<RegistrationModel>,
    reply: Seq<PlacementModel>,
) -> bool {
    exists|c: &str, r: &TailwindRegistry, out: Reply|
        {
            &&& #[trigger] call_ensures(place, (c, r), out)
            &&& c@ == class
            &&& r@ == log
            &&& property_sort::reply_view(out@) == reply
        }
}

/// Whether `place` can reply `replies` to `classes` while `log` is registered.
pub open spec fn all_replied<P: Fn(&str, &TailwindRegistry) -> Reply>(
    place: P,
    classes: Seq<Seq<char>>,
    log: Seq<RegistrationModel>,
    replies: Seq<Seq<PlacementModel>>,
) -> bool {
    &&& replies.len() == classes.len()
    &&& forall|k: int|
        0 <= k < classes.len() ==> replied(place, #[trigger] classes[k], log, replies[k])
}

/// Whether `after` is what `before` becomes when the entries `items` register
/// what they declare, one after the other, each with the replies of `place` to
/// its classes while what the entries before it registered is registered.
pub open spec fn extracted<P: Fn(&str, &TailwindRegistry) -> Reply>(
    place: P,
    positions: Map<Seq<char>, u16>,
    items: Seq<CssItem>,
    before: Seq<RegistrationModel>,
    after: Seq<RegistrationModel>,
) -> bool
    decreases items.len(),
{
    if items.len() == 0 {
        after == before
    } else {
        exists|mid: Seq<RegistrationModel>, replies: Seq<Seq<PlacementModel>>|
            {
                &&& extracted(place, positions, items.drop_last(), before, mid)
                &&& #[trigger] all_replied(place, asked_classes(items.last()), mid, replies)
                &&& after == mid + registrations(items.last(), positions, replies)
            }
    }
}

/// The entries of a block of declarations and rules.
fn declaration_block(block: &Option<CssBlock>) -> (items: Option<&Vec<CssItem>>)
    ensures
        css::block_items(*block) == match items {
            Some(i) => Some(i@),
            None => None,
        },
{
    match block {
        Some(block) => if block.kind == BlockKind::DeclarationOrRule {
            Some(&block.items)
        } else {
            None
        },
        None => None,
    }
}

/// Register the utility that an `@utility` declares. `replies` holds the
/// replies to the classes that it applies.
pub fn visit_utility(
    rule: &TwUtilityAtRule,
    properties: &PropertyIndex,
    replies: &Vec<Reply>,
    registry: &mut TailwindRegistry,
)
    requires
        replies@.len() == utility_classes(*rule).len(),
    ensures
        final(registry)@ == old(registry)@ + utility_registrations(
            *rule,
            properties@,
            property_sort::replies_view(replies@),
        ),
{
    if let Some(items) = declaration_block(&rule.block) {
        match &rule.name {
            Some(UtilityName::Static(Some(name))) => {
                let (indices, count) = property_sort::static_property_sort(
                    items,
                    properties,
                    replies,
                );
                registry.register_static_utility(name.as_str(), indices, count);
            },
            Some(UtilityName::Functional(Some(name))) => {
                let decls = declarations::functional_declarations(items, properties);
                registry.register_functional_utility(name.as_str(), decls);
            },
            _ => {},
        }
    }
}

/// Register the variant that a `@custom-variant` declares.
pub fn visit_custom_variant(rule: &TwCustomVariantAtRule, registry: &mut TailwindRegistry)
    ensures
        final(registry)@ == old(registry)@ + variant_registrations(*rule),
{
    if let Some(name) = &rule.name {
        let compounds: u8 = match &rule.selector {
            Some(CustomVariantSelector::Shorthand(Some(VariantShorthand::AtRule))) => 1,
            Some(CustomVariantSelector::RuleBlock(rules)) => if only_at_rules(rules) {
                1
            } else {
                2
            },
            _ => 2,
        };
        registry.register_custom_variant(name.as_str(), compounds);
    }
}

fn only_at_rules(rules: &Vec<CssItem>) -> (only: bool)
    ensures
        only == forall|i: int| 0 <= i < rules@.len() ==> (#[trigger] rules@[i]) is AtRule,
{
    let mut i: usize = 0;
    while i < rules.len()
        invariant
            i <= rules@.len(),
            forall|j: int| 0 <= j < i ==> (#[trigger] rules@[j]) is AtRule,
        decreases rules@.len() - i,
    {
        match &rules[i] {
            CssItem::AtRule(_) => {},
            _ => {
                return false;
            },
        }
        i += 1;
    }
    true
}

/// The prefix of the namespace that a theme reference names.
fn namespace_prefix(reference: &str) -> (prefix: Option<String>)
    ensures
        namespace_of(reference@) == match prefix {
            Some(p) => Some(p@),
            None => None,
        },
{
    if reference.as_bytes().len() < NAMESPACE_CAPACITY {
        let mut prefix = reference.to_owned();
        prefix.append("-");
        proof {
            reveal_strlit("-");
            assert(prefix@ == reference@.push('-'));
        }
        Some(prefix)
    } else {
        None
    }
}

/// Register what a `@theme` declares and drops.
pub fn visit_theme(rule: &TwThemeAtRule, registry: &mut TailwindRegistry)
    ensures
        final(registry)@ == old(registry)@ + theme_registrations(*rule),
{
    if let Some(items) = declaration_block(&rule.block) {
        let mut i: usize = 0;
        while i < items.len()
            invariant
                i <= items@.len(),
                registry@ == old(registry)@ + theme_items_registrations(items@.take(i as int)),
            decreases items@.len() - i,
        {
            assert(items@.take(i + 1).drop_last() == items@.take(i as int));
            visit_theme_item(&items[i], registry);
            i += 1;
        }
        assert(items@.take(i as int) == items@);
    }
}

fn visit_theme_item(item: &CssItem, registry: &mut TailwindRegistry)
    ensures
        final(registry)@ == old(registry)@ + theme_item_registrations(*item),
{
    let CssItem::Declaration(Some(declaration)) = item else {
        return;
    };
    let Some(CssProperty::Generic(property)) = &declaration.property else {
        return;
    };
    match &property.name {
        Some(DeclarationName::ThemeReference(Some(reference))) => {
            if text::same_text(reference.as_str(), "--") {
                registry.clear_all_theme_namespaces();
            } else if let Some(prefix) = namespace_prefix(reference.as_str()) {
                registry.clear_theme_namespace(prefix.as_str());
            }
        },
        Some(DeclarationName::Dashed(Some(name))) => {
            if text::same_text(name.as_str(), "--*") {
                registry.clear_all_theme_namespaces();
            } else {
                match declarations::property_value_text(property) {
                    Some(value) => registry.register_theme_key(name.as_str(), value.as_str()),
                    None => {
                        proof {
                            reveal_strlit("");
                            assert(""@ == Seq::<char>::empty());
                        }
                        registry.register_theme_key(name.as_str(), "");
                    },
                }
            }
        },
        _ => {},
    }
}

/// The replies of `place` to the classes that a utility depends on.
fn ask<P: Fn(&str, &TailwindRegistry) -> Reply>(
    rule: &TwUtilityAtRule,
    place: &P,
    registry: &TailwindRegistry,
) -> (replies: Vec<Reply>)
    requires
        forall|c: &str, r: &TailwindRegistry| call_requires(*place, (c, r)),
    ensures
        all_replied(
            *place,
            utility_classes(*rule),
            registry@,
            property_sort::replies_view(replies@),
        ),
{
    let mut replies: Vec<Reply> = Vec::new();
    if let Some(UtilityName::Static(Some(_))) = &rule.name {
        if let Some(items) = declaration_block(&rule.block) {
            let classes = property_sort::applied_classes(items);
            let ghost texts = utility_classes(*rule);
            let mut i: usize = 0;
            while i < classes.len()
                invariant
                    i <= classes@.len(),
                    texts == classes@.map_values(|class: &String| class@),
                    replies@.len() == i,
                    forall|c: &str, r: &TailwindRegistry| call_requires(*place, (c, r)),
                    forall|k: int|
                        0 <= k < i ==> replied(
                            *place,
                            #[trigger] texts[k],
                            registry@,
                            property_sort::replies_view(replies@)[k],
                        ),
                decreases classes@.len() - i,
            {
                let ghost before = property_sort::replies_view(replies@);
                let class = classes[i].as_str();
                let reply = place(class, registry);
                replies.push(reply);
                proof {
                    let after = property_sort::replies_view(replies@);
                    assert(after == before.push(property_sort::reply_view(reply@)));
                    assert(call_ensures(*place, (class, registry), reply));
                    assert(replied(
                        *place,
                        texts[i as int],
                        registry@,
                        property_sort::reply_view(reply@),
                    ));
                }
                i += 1;
            }
        }
    }
    replies
}

/// Register everything `root` declares into `registry`, in document order, so
/// a later `--color-*: initial` clears an earlier `--color-x` and an `@apply`
/// inside `@utility` sees utilities defined above it.
///
/// `place` parses an applied class and places its candidates.
pub fn extract_tailwind_registry<P: Fn(&str, &TailwindRegistry) -> Reply>(
    root: &CssRoot,
    properties: &PropertyIndex,
    place: &P,
    registry: &mut TailwindRegistry,
)
    requires
        forall|c: &str, r: &TailwindRegistry| call_requires(*place, (c, r)),
    ensures
        extracted(
            *place,
            properties@,
            walk::document_order(root.items@),
            old(registry)@,
            final(registry)@,
        ),
{
    let order = walk::preorder(&root.items);
    let ghost entries = order@.unref();
    let mut i: usize = 0;
    while i < order.len()
        invariant
            i <= order@.len(),
            entries == order@.unref(),
            forall|c: &str, r: &TailwindRegistry| call_requires(*place, (c, r)),
            extracted(
                *place,
                properties@,
                entries.take(i as int),
                old(registry)@,
                registry@,
            ),
        decreases order@.len() - i,
    {
        let item = order[i];
        let ghost mid = registry@;
        let ghost mut answers: Seq<Seq<PlacementModel>> = Seq::empty();
        if let CssItem::AtRule(Some(rule)) = item {
            match rule {
                CssAtRule::Utility(rule) => {
                    let replies = ask(rule, place, registry);
                    proof {
                        answers = property_sort::replies_view(replies@);
                    }
                    visit_utility(rule, properties, &replies, registry);
                },
                CssAtRule::CustomVariant(rule) => visit_custom_variant(rule, registry),
                CssAtRule::Theme(rule) => visit_theme(rule, registry),
                _ => {},
            }
        }
        proof {
            let upto = entries.take(i + 1);
            assert(upto.drop_last() == entries.take(i as int));
            assert(upto.last() == *item);
            assert(registry@ == mid + registrations(*item, properties@, answers));
            assert(extracted(*place, properties@, upto.drop_last(), old(registry)@, mid));
            assert(all_replied(*place, asked_classes(upto.last()), mid, answers));
        }
        i += 1;
    }
    assert(entries.take(i as int) == entries);
}

/// Extraction goes on where it stopped: what `a` and then `b` register, `a`
/// and `b` one behind the other register.
pub proof fn lemma_extract_in_sequence<P: Fn(&str, &TailwindRegistry) -> Reply>(
    place: P,
    positions: Map<Seq<char>, u16>,
    a: Seq<CssItem>,
    b: Seq<CssItem>,
    before: Seq<RegistrationModel>,
    mid: Seq<RegistrationModel>,
    after: Seq<RegistrationModel>,
)
    requires
        extracted(place, positions, a, before, mid),
        extracted(place, positions, b, mid, after),
    ensures
        extracted(place, positions, a + b, before, after),
    decreases b.len(),
{
    if b.len() == 0 {
        assert(a + b == a);
    } else {
        let (upto, replies) = choose|upto: Seq<RegistrationModel>, replies: Seq<Seq<PlacementModel>>|
            {
                &&& extracted(place, positions, b.drop_last(), mid, upto)
                &&& #[trigger] all_replied(place, asked_classes(b.last()), upto, replies)
                &&& after == upto + registrations(b.last(), positions, replies)
            };
        lemma_extract_in_sequence(place, positions, a, b.drop_last(), before, mid, upto);
        let both = a + b;
        assert(both.drop_last() == a + b.drop_last());
        assert(both.last() == b.last());
        assert(all_replied(place, asked_classes(both.last()), upto, replies));
    }
}

/// Document order: what entries register can be told apart at any place. The
/// entries behind it register theirs while what those before it registered is
/// registered.
pub proof fn lemma_extract_splits<P: Fn(&str, &TailwindRegistry) -> Reply>(
    place: P,
    positions: Map<Seq<char>, u16>,
    a: Seq<CssItem>,
    b: Seq<CssItem>,
    before: Seq<RegistrationModel>,
    after: Seq<RegistrationModel>,
)
    requires
        extracted(place, positions, a + b, before, after),
    ensures
        exists|mid: Seq<RegistrationModel>| #[trigger]
            extracted(place, positions, a, before, mid) && extracted(
                place,
                positions,
                b,
                mid,
                after,
            ),
    decreases b.len(),
{
    if b.len() == 0 {
        assert(a + b == a);
        assert(extracted(place, positions, b, after, after));
    } else {
        let both = a + b;
        assert(both.drop_last() == a + b.drop_last());
        assert(both.last() == b.last());
        let (upto, replies) = choose|upto: Seq<RegistrationModel>, replies: Seq<Seq<PlacementModel>>|
            {
                &&& extracted(place, positions, both.drop_last(), before, upto)
                &&& #[trigger] all_replied(place, asked_classes(both.last()), upto, replies)
                &&& after == upto + registrations(both.last(), positions, replies)
            };
        lemma_extract_splits(place, positions, a, b.drop_last(), before, upto);
        let mid = choose|mid: Seq<RegistrationModel>| #[trigger]
            extracted(place, positions, a, before, mid) && extracted(
                place,
                positions,
                b.drop_last(),
                mid,
                upto,
            );
        assert(all_replied(place, asked_classes(b.last()), upto, replies));
        assert(extracted(place, positions, b, mid, after));
    }
}

/// Extraction only adds: what was registered before stays, in front.
pub proof fn lemma_extract_adds<P: Fn(&str, &TailwindRegistry) -> Reply>(
    place: P,
    positions: Map<Seq<char>, u16>,
    items: Seq<CssItem>,
    before: Seq<RegistrationModel>,
    after: Seq<RegistrationModel>,
)
    requires
        extracted(place, positions, items, before, after),
    ensures
        before.is_prefix_of(after),
    decreases items.len(),
{
    if items.len() > 0 {
        let (mid, replies) = choose|mid: Seq<RegistrationModel>, replies: Seq<Seq<PlacementModel>>|
            {
                &&& extracted(place, positions, items.drop_last(), before, mid)
                &&& #[trigger] all_replied(place, asked_classes(items.last()), mid, replies)
                &&& after == mid + registrations(items.last(), positions, replies)
            };
        lemma_extract_adds(place, positions, items.drop_last(), before, mid);
    }
}

} // verus!
