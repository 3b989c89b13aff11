use tailwind_extract::css::{
    BlockKind, CssAtRule, CssBlock, CssDeclaration, CssGenericProperty, CssItem, CssProperty,
    CssRoot, CustomVariantSelector, DeclarationName, PropertyValue, TwApplyAtRule,
    TwCustomVariantAtRule, TwThemeAtRule, TwUtilityAtRule, UtilityName, ValueKind, ValueNode,
    VariantShorthand,
};
use tailwind_extract::registry::{
    BareValueType, CssDataType, FunctionalDecl, Registration, ThemeLookup, ValueShape,
};
use tailwind_extract::{
    extract_tailwind_registry, PropertyIndex, Reply, TailwindRegistry, UtilityPlacement,
};

const ORDERED: [&str; 15] = [
    "display",
    "tab-size",
    "column-gap",
    "border-radius",
    "background-color",
    "padding",
    "padding-inline",
    "padding-block",
    "line-height",
    "color",
    "opacity",
    "cursor",
    "align-items",
    "justify-content",
    "margin",
];

fn property_index() -> PropertyIndex {
    let mut index = PropertyIndex::new();
    for (position, name) in ORDERED.iter().enumerate() {
        index.insert(name, 10 * position as u16 + 7);
    }
    index
}

fn position(name: &str) -> u16 {
    property_index().get(name).unwrap()
}

fn placement(name: &str, count: u8) -> Option<UtilityPlacement> {
    Some(UtilityPlacement { signature: vec![position(name)], count })
}

/// Places the utilities of the registry, and a few of a preset.
fn place(class: &str, registry: &TailwindRegistry) -> Reply {
    if let Some(utility) = registry.custom_static(class) {
        let signature = utility.sig.to_vec();
        return vec![Some(UtilityPlacement { signature, count: utility.count })];
    }
    vec![match class {
        "px-4" => placement("padding-inline", 1),
        "py-2" => placement("padding-block", 1),
        "rounded" => placement("border-radius", 1),
        "huge" => placement("margin", 200),
        _ => None,
    }]
}

fn registry_from(items: Vec<CssItem>) -> TailwindRegistry {
    let mut registry = TailwindRegistry::new();
    extract_tailwind_registry(&CssRoot { items }, &property_index(), &place, &mut registry);
    registry
}

fn node(kind: ValueKind, text: &str, children: Vec<ValueNode>) -> ValueNode {
    let first_token = Some(text.to_string());
    ValueNode { kind, text: text.to_string(), first_token, inner_text: None, children }
}

fn other(text: &str) -> ValueNode {
    node(ValueKind::Other, text, vec![])
}

fn ident(text: &str) -> ValueNode {
    node(ValueKind::Identifier, text, vec![])
}

fn dashed(text: &str) -> ValueNode {
    node(ValueKind::DashedIdentifier, text, vec![])
}

fn theme_reference(text: &str) -> ValueNode {
    node(ValueKind::ThemeReference, text, vec![dashed(text)])
}

fn bracketed(item: ValueNode) -> ValueNode {
    node(ValueKind::BracketedValue, "[", vec![item])
}

fn string(inner: &str) -> ValueNode {
    let mut literal = node(ValueKind::StringLiteral, "\"", vec![]);
    literal.inner_text = Some(inner.to_string());
    literal
}

fn function(name: &str, parameters: Vec<ValueNode>) -> ValueNode {
    let list = node(ValueKind::Other, "", parameters);
    node(ValueKind::Function, name, vec![ident(name), list])
}

fn declaration(name: DeclarationName, value: Vec<ValueNode>) -> CssItem {
    let value = Some(PropertyValue::Components(value));
    let property = CssGenericProperty { name: Some(name), value };
    CssItem::Declaration(Some(CssDeclaration { property: Some(CssProperty::Generic(property)) }))
}

fn set(name: &str, value: Vec<ValueNode>) -> CssItem {
    let text = Some(name.to_string());
    if name.starts_with("--") {
        declaration(DeclarationName::Dashed(text), value)
    } else {
        declaration(DeclarationName::Identifier(text), value)
    }
}

fn set_to(name: &str, value: &str) -> CssItem {
    set(name, vec![other(value)])
}

fn reset(reference: &str) -> CssItem {
    declaration(DeclarationName::ThemeReference(Some(reference.to_string())), vec![ident("initial")])
}

fn block(items: Vec<CssItem>) -> Option<CssBlock> {
    Some(CssBlock { kind: BlockKind::DeclarationOrRule, items })
}

fn rule(items: Vec<CssItem>) -> CssItem {
    CssItem::Rule(block(items))
}

fn at_rule(rule: CssAtRule) -> CssItem {
    CssItem::AtRule(Some(rule))
}

fn media(items: Vec<CssItem>) -> CssItem {
    at_rule(CssAtRule::Other(block(items)))
}

fn apply(classes: Vec<&str>) -> CssItem {
    let classes = classes.iter().map(|class| Some(class.to_string())).collect();
    at_rule(CssAtRule::Apply(TwApplyAtRule { classes }))
}

fn utility(name: &str, items: Vec<CssItem>) -> CssItem {
    let name = match name.strip_suffix("-*") {
        Some(name) => UtilityName::Functional(Some(name.to_string())),
        None => UtilityName::Static(Some(name.to_string())),
    };
    at_rule(CssAtRule::Utility(TwUtilityAtRule { name: Some(name), block: block(items) }))
}

fn theme(items: Vec<CssItem>) -> CssItem {
    at_rule(CssAtRule::Theme(TwThemeAtRule { block: block(items) }))
}

fn custom_variant(name: &str, selector: CustomVariantSelector) -> CssItem {
    at_rule(CssAtRule::CustomVariant(TwCustomVariantAtRule {
        name: Some(name.to_string()),
        selector: Some(selector),
    }))
}

fn shorthand(shorthand: VariantShorthand) -> CustomVariantSelector {
    CustomVariantSelector::Shorthand(Some(shorthand))
}

#[test]
fn static_utility_signature_and_count() {
    // @utility card { --card-pad: 1rem; padding: var(--card-pad);
    //   background-color: white; padding: 2rem; }
    let reg = registry_from(vec![utility(
        "card",
        vec![
            set_to("--card-pad", "1rem"),
            set("padding", vec![function("var", vec![dashed("--card-pad")])]),
            set_to("background-color", "white"),
            set_to("padding", "2rem"),
        ],
    )]);
    let entry = reg.custom_static("card").expect("card registered");
    // Every declaration counts, including the custom property and the
    // duplicate; only ordered properties contribute positions.
    assert_eq!(entry.count, 4);
    let mut expected = [position("padding"), position("background-color")];
    expected.sort_unstable();
    assert_eq!(entry.sig.as_slice(), &expected[..]);
}

#[test]
fn tw_sort_hint_replaces_later_positions() {
    // @utility grid-thing { --tw-sort: display; padding: 1rem; }
    let reg = registry_from(vec![utility(
        "grid-thing",
        vec![set("--tw-sort", vec![ident("display")]), set_to("padding", "1rem")],
    )]);
    let entry = reg.custom_static("grid-thing").expect("grid-thing registered");
    assert_eq!(entry.count, 2);
    assert_eq!(entry.sig.as_slice(), &[position("display")]);
}

#[test]
fn nested_rule_declarations_count() {
    // @utility hoverable { color: red; &:hover { color: blue; opacity: 0.5; } }
    let reg = registry_from(vec![utility(
        "hoverable",
        vec![
            set_to("color", "red"),
            rule(vec![set_to("color", "blue"), set_to("opacity", "0.5")]),
        ],
    )]);
    let entry = reg.custom_static("hoverable").expect("hoverable registered");
    assert_eq!(entry.count, 3);
    assert_eq!(entry.sig.len(), 2);
}

#[test]
fn apply_folds_the_applied_utilities() {
    // @utility btn { @apply px-4 py-2 rounded; cursor: pointer; }
    let reg = registry_from(vec![utility(
        "btn",
        vec![apply(vec!["px-4", "py-2", "rounded"]), set_to("cursor", "pointer")],
    )]);
    let entry = reg.custom_static("btn").expect("btn registered");
    // px-4 (padding-inline) + py-2 (padding-block) + rounded + cursor
    assert_eq!(entry.count, 4);
    assert!(entry.sig.contains(&position("padding-inline")));
    assert!(entry.sig.contains(&position("border-radius")));
    assert!(entry.sig.contains(&position("cursor")));
}

#[test]
fn functional_utility_shapes() {
    // @utility tab-* {
    //   tab-size: --value(--tab-size-*, integer, [integer], "inherit");
    //   line-height: --modifier(--leading-*, [length]);
    // }
    let reg = registry_from(vec![utility(
        "tab-*",
        vec![
            set(
                "tab-size",
                vec![function(
                    "--value",
                    vec![
                        theme_reference("--tab-size"),
                        ident("integer"),
                        bracketed(ident("integer")),
                        string("inherit"),
                    ],
                )],
            ),
            set(
                "line-height",
                vec![function(
                    "--modifier",
                    vec![theme_reference("--leading"), bracketed(ident("length"))],
                )],
            ),
        ],
    )]);
    let entry = reg.custom_functional("tab").expect("tab-* registered");
    assert_eq!(entry.decls.len(), 2);
    let tab_size = &entry.decls[0];
    assert_eq!(tab_size.property, property_index().get("tab-size"));
    assert_eq!(
        tab_size.value.as_deref(),
        Some(
            &[
                ValueShape::Theme("--tab-size-".into()),
                ValueShape::Bare(BareValueType::Integer),
                ValueShape::Arbitrary(Some(CssDataType::Integer)),
                ValueShape::Literal("inherit".into()),
            ][..]
        )
    );
    assert!(tab_size.modifier.is_none());
    let line_height = &entry.decls[1];
    assert!(line_height.value.is_none());
    assert_eq!(
        line_height.modifier.as_deref(),
        Some(
            &[
                ValueShape::Theme("--leading-".into()),
                ValueShape::Arbitrary(Some(CssDataType::Length)),
            ][..]
        )
    );
}

#[test]
fn functional_value_inside_spacing_function() {
    // @utility gap-x-* { column-gap: --spacing(--value(number)); }
    let reg = registry_from(vec![utility(
        "gap-x-*",
        vec![set(
            "column-gap",
            vec![function("--spacing", vec![function("--value", vec![ident("number")])])],
        )],
    )]);
    let entry = reg.custom_functional("gap-x").unwrap();
    assert_eq!(
        entry.decls[0].value.as_deref(),
        Some(&[ValueShape::Bare(BareValueType::Number)][..])
    );
}

#[test]
fn custom_variant_shapes() {
    // @custom-variant dark (&:is(.dark *));
    // @custom-variant hocus (&:hover, &:focus);
    // @custom-variant any-hover (@media (any-hover: hover));
    // @custom-variant theme-midnight { &:where([data-theme="midnight"] *) { @slot; } }
    let reg = registry_from(vec![
        custom_variant("dark", shorthand(VariantShorthand::Other)),
        custom_variant("hocus", shorthand(VariantShorthand::Other)),
        custom_variant("any-hover", shorthand(VariantShorthand::AtRule)),
        custom_variant(
            "theme-midnight",
            CustomVariantSelector::RuleBlock(vec![rule(vec![at_rule(CssAtRule::Other(None))])]),
        ),
    ]);
    assert!(reg.get_variant_entry("dark").is_some());
    assert_eq!(reg.get_variant_entry("hocus").unwrap().compounds, 2);
    assert_eq!(reg.get_variant_entry("any-hover").unwrap().compounds, 1);
    assert_eq!(reg.get_variant_entry("theme-midnight").unwrap().compounds, 2);
}

#[test]
fn theme_keys_breakpoints_and_resets() {
    // @theme {
    //   --color-brand: #abc;
    //   --breakpoint-3xl: 120rem;
    //   --container-8xl: 96rem;
    //   --tab-size-github: 8;
    //   --text-xs--line-height: 1rem;
    // }
    let reg = registry_from(vec![theme(vec![
        set_to("--color-brand", "#abc"),
        set_to("--breakpoint-3xl", "120rem"),
        set_to("--container-8xl", "96rem"),
        set_to("--tab-size-github", "8"),
        set_to("--text-xs--line-height", "1rem"),
    ])]);
    assert_eq!(reg.theme_lookup("--color-brand"), ThemeLookup::Declared("#abc"));
    assert_eq!(reg.theme_lookup("--breakpoint-3xl"), ThemeLookup::Declared("120rem"));
    assert_eq!(reg.theme_lookup("--container-8xl"), ThemeLookup::Declared("96rem"));
    assert_eq!(reg.theme_lookup("--tab-size-github"), ThemeLookup::Declared("8"));
    assert_eq!(reg.theme_lookup("--text-xs--line-height"), ThemeLookup::Declared("1rem"));
    assert_eq!(reg.theme_lookup("--color-red-500"), ThemeLookup::Untouched);

    // @theme { --color-*: initial; --color-brand: #abc; }
    let reg = registry_from(vec![theme(vec![reset("--color"), set_to("--color-brand", "#abc")])]);
    assert_eq!(reg.theme_lookup("--color-red-500"), ThemeLookup::Cleared);
    assert_eq!(reg.theme_lookup("--color-brand"), ThemeLookup::Declared("#abc"));

    // @theme { --*: initial; }
    let reg = registry_from(vec![theme(vec![reset("--")])]);
    assert_eq!(reg.theme_lookup("--color-red-500"), ThemeLookup::Cleared);
    assert_eq!(reg.theme_lookup("--text-lg"), ThemeLookup::Cleared);
}

#[test]
fn theme_inline_and_static_forms() {
    // @theme inline { --color-brand: #abc; } @theme static { --color-mint: #0f0; }
    let reg = registry_from(vec![
        theme(vec![set_to("--color-brand", "#abc")]),
        theme(vec![set_to("--color-mint", "#0f0")]),
    ]);
    assert_eq!(reg.theme_lookup("--color-brand"), ThemeLookup::Declared("#abc"));
    assert_eq!(reg.theme_lookup("--color-mint"), ThemeLookup::Declared("#0f0"));
}

#[test]
fn later_reset_clears_earlier_key() {
    let reg = registry_from(vec![
        theme(vec![set_to("--color-x", "#123"), set_to("--spacing-x", "1px")]),
        theme(vec![reset("--color")]),
    ]);
    assert_eq!(reg.theme_lookup("--color-x"), ThemeLookup::Cleared);
    assert_eq!(reg.theme_lookup("--spacing-x"), ThemeLookup::Declared("1px"));
    // The namespace ends in a dash.
    assert_eq!(reg.theme_lookup("--colorful"), ThemeLookup::Untouched);
    assert_eq!(
        reg.registrations()[2],
        Registration::ClearThemeNamespace("--color-".to_string())
    );
}

#[test]
fn reset_in_the_middle_of_a_theme() {
    let reg = registry_from(vec![
        theme(vec![
            set_to("--color-a", "1"),
            set_to("--color-b", "2"),
            reset("--color"),
            set_to("--color-a", "3"),
            set_to("--text-a", "4"),
        ]),
        utility("card", vec![]),
        theme(vec![set_to("--text-b", "5")]),
    ]);
    assert_eq!(reg.theme_lookup("--color-a"), ThemeLookup::Declared("3"));
    assert_eq!(reg.theme_lookup("--color-b"), ThemeLookup::Cleared);
    assert_eq!(reg.theme_lookup("--text-a"), ThemeLookup::Declared("4"));
}

#[test]
fn two_stylesheets_extract_as_one() {
    let first = || utility("card", vec![set_to("padding", "1rem")]);
    let second = || utility("late", vec![apply(vec!["card"]), set_to("margin", "0")]);
    let mut registry = TailwindRegistry::new();
    for item in [first(), second()] {
        let root = CssRoot { items: vec![item] };
        extract_tailwind_registry(&root, &property_index(), &place, &mut registry);
    }
    assert_eq!(registry, registry_from(vec![first(), second()]));
    assert_eq!(registry.custom_static("late").unwrap().count, 2);
}

#[test]
fn dashed_star_resets_everything() {
    let reg = registry_from(vec![theme(vec![set_to("--color-x", "#123"), set_to("--*", "initial")])]);
    assert_eq!(reg.registrations()[1], Registration::ClearAllThemeNamespaces);
    assert_eq!(reg.theme_lookup("--color-x"), ThemeLookup::Cleared);
}

#[test]
fn namespace_prefix_has_a_capacity() {
    // 63 bytes and the dash fit; 64 bytes do not.
    let fits = format!("--{}", "a".repeat(61));
    let reg = registry_from(vec![theme(vec![reset(&fits)])]);
    assert_eq!(
        reg.registrations().as_slice(),
        &[Registration::ClearThemeNamespace(format!("{fits}-"))]
    );
    let long = format!("--{}", "a".repeat(62));
    let reg = registry_from(vec![theme(vec![reset(&long)])]);
    assert!(reg.registrations().is_empty());
    // Two bytes for each of the 31 letters.
    let wide = format!("--{}", "é".repeat(31));
    let reg = registry_from(vec![theme(vec![reset(&wide)])]);
    assert!(reg.registrations().is_empty());
}

#[test]
fn theme_value_of_several_components_is_empty() {
    let reg = registry_from(vec![theme(vec![
        set("--font-sans", vec![ident("Inter"), ident("serif")]),
        set("--font-none", vec![]),
    ])]);
    assert_eq!(reg.theme_lookup("--font-sans"), ThemeLookup::Declared(""));
    assert_eq!(reg.theme_lookup("--font-none"), ThemeLookup::Declared(""));
}

#[test]
fn theme_skips_what_declares_no_variable() {
    let reg = registry_from(vec![theme(vec![
        set_to("color", "red"),
        declaration(DeclarationName::Dashed(None), vec![]),
        declaration(DeclarationName::ThemeReference(None), vec![]),
        declaration(DeclarationName::Other, vec![]),
        CssItem::Declaration(None),
        CssItem::Declaration(Some(CssDeclaration { property: None })),
        CssItem::Declaration(Some(CssDeclaration { property: Some(CssProperty::Other) })),
        rule(vec![set_to("--color-x", "red")]),
    ])]);
    assert!(reg.registrations().is_empty());
}

#[test]
fn apply_sees_utilities_above() {
    let reg = registry_from(vec![
        utility("early", vec![apply(vec!["late", "card"]), set_to("color", "red")]),
        utility("card", vec![set_to("padding", "1rem"), set_to("margin", "0")]),
        utility("late", vec![apply(vec!["card", "unknown"]), set_to("opacity", "1")]),
    ]);
    let early = reg.custom_static("early").unwrap();
    assert_eq!(early.count, 1);
    assert_eq!(early.sig, vec![position("color")]);
    let late = reg.custom_static("late").unwrap();
    assert_eq!(late.count, 3);
    let mut expected = vec![position("padding"), position("margin"), position("opacity")];
    expected.sort_unstable();
    assert_eq!(late.sig, expected);
}

#[test]
fn hint_ends_positions_and_not_the_count() {
    let reg = registry_from(vec![utility(
        "hinted",
        vec![
            set_to("padding", "1rem"),
            set("--tw-sort", vec![ident("unknown")]),
            set_to("margin", "0"),
            set("--tw-sort", vec![ident("display")]),
            set("--tw-sort", vec![ident("cursor")]),
            apply(vec!["px-4", "py-2"]),
            set_to("opacity", "1"),
        ],
    )]);
    let entry = reg.custom_static("hinted").unwrap();
    assert_eq!(entry.count, 8);
    let mut expected = vec![position("padding"), position("margin"), position("display")];
    expected.sort_unstable();
    assert_eq!(entry.sig, expected);
}

#[test]
fn hint_in_a_nested_rule_comes_behind_the_level_above() {
    let reg = registry_from(vec![utility(
        "levels",
        vec![
            rule(vec![set("--tw-sort", vec![ident("display")]), set_to("color", "red")]),
            set_to("padding", "1rem"),
            media(vec![set_to("margin", "0")]),
        ],
    )]);
    let entry = reg.custom_static("levels").unwrap();
    assert_eq!(entry.count, 4);
    let mut expected = vec![position("display"), position("padding")];
    expected.sort_unstable();
    assert_eq!(entry.sig, expected);
}

#[test]
fn block_order_does_not_matter_without_a_hint() {
    let nested = || rule(vec![set_to("color", "red"), apply(vec!["rounded"])]);
    let applied = || apply(vec!["px-4", "py-2"]);
    let plain = || set_to("margin", "0");
    let reg = registry_from(vec![
        utility("one", vec![nested(), applied(), plain()]),
        utility("two", vec![plain(), nested(), applied()]),
    ]);
    assert_eq!(reg.custom_static("one").unwrap().count, 5);
    assert_eq!(reg.custom_static("one"), reg.custom_static("two"));
}

#[test]
fn count_stops_at_the_largest_byte() {
    let reg = registry_from(vec![
        utility("below", vec![apply(vec!["huge"]), set_to("color", "red")]),
        utility("above", vec![apply(vec!["huge", "huge"])]),
    ]);
    assert_eq!(reg.custom_static("below").unwrap().count, 201);
    assert_eq!(reg.custom_static("above").unwrap().count, 255);
}

#[test]
fn missing_pieces_of_a_static_utility() {
    let reg = registry_from(vec![utility(
        "pieces",
        vec![
            CssItem::Declaration(None),
            CssItem::Declaration(Some(CssDeclaration { property: Some(CssProperty::Other) })),
            CssItem::AtRule(None),
            CssItem::Other(vec![set_to("color", "red")]),
            at_rule(CssAtRule::Apply(TwApplyAtRule {
                classes: vec![None, Some("px-4".to_string()), None],
            })),
            CssItem::Rule(Some(CssBlock {
                kind: BlockKind::Other,
                items: vec![set_to("margin", "0")],
            })),
        ],
    )]);
    let entry = reg.custom_static("pieces").unwrap();
    // The declaration that sets no property, and px-4.
    assert_eq!(entry.count, 2);
    assert_eq!(entry.sig, vec![position("padding-inline")]);
}

#[test]
fn directives_without_name_or_block_register_nothing() {
    let nameless = |name| at_rule(CssAtRule::Utility(TwUtilityAtRule { name, block: block(vec![]) }));
    let blockless = TwUtilityAtRule {
        name: Some(UtilityName::Static(Some("card".to_string()))),
        block: None,
    };
    let misplaced = TwUtilityAtRule {
        name: Some(UtilityName::Functional(Some("card".to_string()))),
        block: Some(CssBlock { kind: BlockKind::Other, items: vec![] }),
    };
    let reg = registry_from(vec![
        nameless(None),
        nameless(Some(UtilityName::Static(None))),
        nameless(Some(UtilityName::Functional(None))),
        nameless(Some(UtilityName::Other)),
        at_rule(CssAtRule::Utility(blockless)),
        at_rule(CssAtRule::Utility(misplaced)),
        at_rule(CssAtRule::CustomVariant(TwCustomVariantAtRule { name: None, selector: None })),
        at_rule(CssAtRule::Theme(TwThemeAtRule { block: None })),
        CssItem::AtRule(None),
    ]);
    assert!(reg.registrations().is_empty());
}

#[test]
fn directives_are_found_at_any_depth_in_document_order() {
    let reg = registry_from(vec![
        media(vec![
            theme(vec![set_to("--a", "1")]),
            CssItem::Other(vec![rule(vec![theme(vec![set_to("--b", "2")])])]),
        ]),
        utility("card", vec![theme(vec![set_to("--c", "3")])]),
        theme(vec![set_to("--d", "4")]),
    ]);
    let key = |name: &str, value: &str| Registration::ThemeKey(name.into(), value.into());
    let entries = reg.registrations();
    assert_eq!(entries.len(), 5);
    assert_eq!(entries[0], key("--a", "1"));
    assert_eq!(entries[1], key("--b", "2"));
    assert!(matches!(&entries[2], Registration::StaticUtility(name, _) if name == "card"));
    assert_eq!(entries[3], key("--c", "3"));
    assert_eq!(entries[4], key("--d", "4"));
}

#[test]
fn custom_variant_blocks() {
    let reg = registry_from(vec![
        custom_variant("empty", CustomVariantSelector::RuleBlock(vec![])),
        custom_variant(
            "media",
            CustomVariantSelector::RuleBlock(vec![media(vec![]), CssItem::AtRule(None)]),
        ),
        custom_variant(
            "mixed",
            CustomVariantSelector::RuleBlock(vec![media(vec![]), rule(vec![])]),
        ),
        custom_variant("bogus", CustomVariantSelector::Other(vec![])),
        custom_variant("unfinished", CustomVariantSelector::Shorthand(None)),
    ]);
    assert_eq!(reg.get_variant_entry("empty").unwrap().compounds, 1);
    assert_eq!(reg.get_variant_entry("media").unwrap().compounds, 1);
    assert_eq!(reg.get_variant_entry("mixed").unwrap().compounds, 2);
    assert_eq!(reg.get_variant_entry("bogus").unwrap().compounds, 2);
    assert_eq!(reg.get_variant_entry("unfinished").unwrap().compounds, 2);
    assert!(reg.get_variant_entry("missing").is_none());
}

#[test]
fn functional_declarations_at_any_depth() {
    let reg = registry_from(vec![utility(
        "deep-*",
        vec![
            rule(vec![set("color", vec![function("--value", vec![dashed("--color-*")])])]),
            media(vec![set("margin", vec![function("--value", vec![])])]),
            set("--tw-sort", vec![ident("cursor")]),
            CssItem::Declaration(Some(CssDeclaration { property: None })),
            CssItem::Declaration(None),
        ],
    )]);
    let decls = &reg.custom_functional("deep").unwrap().decls;
    let plain = FunctionalDecl { property: None, sort_hint: None, value: None, modifier: None };
    assert_eq!(decls.len(), 4);
    assert_eq!(
        decls[0],
        FunctionalDecl {
            property: None,
            sort_hint: Some(position("cursor")),
            value: None,
            modifier: None,
        }
    );
    assert_eq!(decls[1], plain);
    assert_eq!(
        decls[2],
        FunctionalDecl {
            property: Some(position("color")),
            sort_hint: None,
            value: Some(vec![ValueShape::Theme("--color-".into())]),
            modifier: None,
        }
    );
    assert_eq!(
        decls[3],
        FunctionalDecl {
            property: Some(position("margin")),
            sort_hint: None,
            value: Some(vec![]),
            modifier: None,
        }
    );
}

#[test]
fn calls_in_one_value_add_up() {
    let reg = registry_from(vec![utility(
        "both-*",
        vec![set(
            "padding",
            vec![
                function("--value", vec![ident("integer")]),
                function("--modifier", vec![ident("ratio")]),
                function("calc", vec![function("--value", vec![ident("percentage")])]),
            ],
        )],
    )]);
    let decl = &reg.custom_functional("both").unwrap().decls[0];
    assert_eq!(
        decl.value.as_deref(),
        Some(
            &[
                ValueShape::Bare(BareValueType::Integer),
                ValueShape::Bare(BareValueType::Percentage),
            ][..]
        )
    );
    assert_eq!(decl.modifier.as_deref(), Some(&[ValueShape::Bare(BareValueType::Ratio)][..]));
}

#[test]
fn last_registration_under_a_name_is_found() {
    let reg = registry_from(vec![
        utility("card", vec![set_to("color", "red")]),
        utility("card", vec![set_to("margin", "0"), set_to("padding", "0")]),
    ]);
    assert_eq!(reg.registrations().len(), 2);
    assert_eq!(reg.custom_static("card").unwrap().count, 2);
    assert!(reg.custom_static("car").is_none());
    assert!(reg.custom_functional("card").is_none());
}
