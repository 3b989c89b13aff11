use tailwind_extract::css::{
    BlockKind, CssAtRule, CssBlock, CssDeclaration, CssGenericProperty, CssItem, CssProperty,
    CssRoot, DeclarationName, PropertyValue, TwThemeAtRule, ValueKind, ValueNode,
};
use tailwind_extract::imports::import_order;
use tailwind_extract::registry::{Registration, ThemeLookup};
use tailwind_extract::stylesheet::{
    has_tailwind_directives, is_tailwind_package, needs_reparse, parsed_stylesheet, CssImport,
    CssModuleInfo, ParsedStylesheet, Stylesheet, StylesheetIndex, StylesheetSource,
};
use tailwind_extract::{
    tailwind_registry_for_stylesheet, PropertyIndex, Reply, TailwindRegistry,
};

fn import(specifier: &str, resolved: Option<usize>) -> CssImport {
    CssImport { specifier: specifier.to_string(), resolved }
}

fn importing(targets: &[usize]) -> Stylesheet {
    let imports = targets.iter().map(|target| import("./partial.css", Some(*target))).collect();
    Stylesheet { css: Some(CssModuleInfo { imports }), source: None }
}

fn index(imports: &[&[usize]]) -> StylesheetIndex {
    StylesheetIndex { files: imports.iter().map(|targets| importing(targets)).collect() }
}

fn theme_item(name: &str, value: &str) -> CssItem {
    let node = ValueNode {
        kind: ValueKind::Other,
        text: value.to_string(),
        first_token: Some(value.to_string()),
        inner_text: None,
        children: vec![],
    };
    let property = CssGenericProperty {
        name: Some(DeclarationName::Dashed(Some(name.to_string()))),
        value: Some(PropertyValue::Components(vec![node])),
    };
    let declaration = CssDeclaration { property: Some(CssProperty::Generic(property)) };
    let items = vec![CssItem::Declaration(Some(declaration))];
    let block = Some(CssBlock { kind: BlockKind::DeclarationOrRule, items });
    CssItem::AtRule(Some(CssAtRule::Theme(TwThemeAtRule { block })))
}

fn theme_root(name: &str, value: &str) -> CssRoot {
    CssRoot { items: vec![theme_item(name, value)] }
}

fn reset_root(reference: &str) -> CssRoot {
    let property = CssGenericProperty {
        name: Some(DeclarationName::ThemeReference(Some(reference.to_string()))),
        value: None,
    };
    let declaration = CssDeclaration { property: Some(CssProperty::Generic(property)) };
    let items = vec![CssItem::Declaration(Some(declaration))];
    let block = Some(CssBlock { kind: BlockKind::DeclarationOrRule, items });
    let theme = CssAtRule::Theme(TwThemeAtRule { block });
    CssRoot { items: vec![CssItem::AtRule(Some(theme))] }
}

fn empty_root() -> CssRoot {
    CssRoot { items: vec![CssItem::Rule(None)] }
}

fn source(root: CssRoot, text: &str) -> Option<StylesheetSource> {
    Some(StylesheetSource { root, text: text.to_string() })
}

/// Finds one key in any text, which is its value.
fn reparse(text: &str) -> CssRoot {
    theme_root("--reparsed", text)
}

fn place_nothing(_class: &str, _registry: &TailwindRegistry) -> Reply {
    vec![]
}

#[test]
fn package_specifiers() {
    assert!(is_tailwind_package("tailwindcss"));
    assert!(is_tailwind_package("tailwindcss/preflight"));
    assert!(is_tailwind_package("tailwindcss/"));
    assert!(!is_tailwind_package("tailwindcss-animate"));
    assert!(!is_tailwind_package("./tailwindcss"));
    assert!(!is_tailwind_package("tailwind"));
    assert!(!is_tailwind_package(""));
}

#[test]
fn imports_come_before_the_importing_file() {
    // 0 imports 1 and 2, both import 3.
    let files = index(&[&[1, 2], &[3], &[3], &[]]);
    assert_eq!(import_order(&files, 0), vec![3, 1, 3, 2, 0]);
    assert_eq!(import_order(&files, 2), vec![3, 2]);
    assert_eq!(import_order(&files, 3), vec![3]);
}

#[test]
fn each_import_expands_in_place() {
    // 0 imports 1, 2 and 1 again; 1 imports 3 twice.
    let files = index(&[&[1, 2, 1], &[3, 3], &[], &[]]);
    assert_eq!(import_order(&files, 0), vec![3, 3, 1, 2, 3, 3, 1, 0]);
}

#[test]
fn repeated_import_is_seen_again() {
    // 0 imports 1, 2 and 1 again; 1 declares a key that 2 resets.
    let mut files = index(&[&[1, 2, 1], &[], &[]]);
    files.files[1].source = source(theme_root("--color-brand", "#abc"), "@theme {}");
    files.files[2].source = source(reset_root("--color"), "@theme {}");
    let registry = tailwind_registry_for_stylesheet(
        &files,
        0,
        &PropertyIndex::new(),
        &place_nothing,
        &reparse,
    );
    assert_eq!(registry.registrations().len(), 3);
    assert_eq!(registry.theme_lookup("--color-brand"), ThemeLookup::Declared("#abc"));
    assert_eq!(registry.theme_lookup("--color-red"), ThemeLookup::Cleared);
}

#[test]
fn first_import_comes_first() {
    let files = index(&[&[3, 1, 2], &[], &[], &[]]);
    assert_eq!(import_order(&files, 0), vec![3, 1, 2, 0]);
}

#[test]
fn cycles_end() {
    let files = index(&[&[1], &[2, 0], &[0, 2]]);
    assert_eq!(import_order(&files, 0), vec![2, 1, 0]);
    assert_eq!(import_order(&files, 1), vec![0, 2, 0, 1]);
    let alone = index(&[&[0, 0]]);
    assert_eq!(import_order(&alone, 0), vec![0]);
}

#[test]
fn package_unresolved_and_foreign_imports_are_skipped() {
    let mut files = index(&[&[], &[], &[]]);
    files.files[0].css = Some(CssModuleInfo {
        imports: vec![
            import("tailwindcss", Some(1)),
            import("tailwindcss/utilities", Some(1)),
            import("./missing.css", None),
            import("./outside.css", Some(9)),
            import("./script.css", Some(2)),
        ],
    });
    files.files[2].css = None;
    assert_eq!(import_order(&files, 0), vec![0]);
    assert!(import_order(&files, 2).is_empty());
    assert!(import_order(&files, 9).is_empty());
}

#[test]
fn directives_at_any_depth() {
    assert!(!has_tailwind_directives(&empty_root()));
    assert!(has_tailwind_directives(&theme_root("--a", "1")));
    let nested = CssItem::Other(vec![CssItem::Rule(Some(CssBlock {
        kind: BlockKind::Other,
        items: vec![theme_item("--a", "1")],
    }))]);
    assert!(has_tailwind_directives(&CssRoot { items: vec![CssItem::Rule(None), nested] }));
}

#[test]
fn reparse_where_the_text_mentions_a_directive() {
    for text in ["@utility x {}", "a {} @theme", "@custom-variant x (y);"] {
        assert!(needs_reparse(&empty_root(), text));
        assert!(!needs_reparse(&theme_root("--a", "1"), text));
    }
    assert!(!needs_reparse(&empty_root(), "a { color: red }"));
    assert!(!needs_reparse(&empty_root(), "@them @utilit"));
    assert!(!needs_reparse(&empty_root(), ""));
}

#[test]
fn parse_of_a_file() {
    let mut files = index(&[&[], &[], &[]]);
    files.files[0].source = source(empty_root(), "@theme {}");
    files.files[1].source = source(empty_root(), "b {}");
    let reparsed = parsed_stylesheet(&files, 0, &reparse).unwrap();
    assert!(matches!(reparsed, ParsedStylesheet::Reparsed(_)));
    assert!(has_tailwind_directives(reparsed.root()));
    let indexed = parsed_stylesheet(&files, 1, &reparse).unwrap();
    assert!(matches!(indexed, ParsedStylesheet::Indexed(_)));
    assert!(!has_tailwind_directives(indexed.root()));
    assert!(parsed_stylesheet(&files, 2, &reparse).is_none());
    assert!(parsed_stylesheet(&files, 3, &reparse).is_none());
}

#[test]
fn registry_of_a_stylesheet_and_its_imports() {
    let mut files = index(&[&[1, 2], &[2], &[], &[]]);
    let mentions = "@theme {}";
    files.files[0].source = source(theme_root("--c", "main"), mentions);
    files.files[1].source = source(empty_root(), mentions);
    files.files[2].source = source(theme_root("--d", "base"), mentions);
    files.files[3].source = source(theme_root("--e", "stray"), mentions);
    let registry = tailwind_registry_for_stylesheet(
        &files,
        0,
        &PropertyIndex::new(),
        &place_nothing,
        &reparse,
    );
    let key = |name: &str, value: &str| Registration::ThemeKey(name.into(), value.into());
    assert_eq!(
        registry.registrations().as_slice(),
        &[
            key("--d", "base"),
            key("--reparsed", mentions),
            key("--d", "base"),
            key("--c", "main"),
        ]
    );
    assert_eq!(registry.theme_lookup("--c"), ThemeLookup::Declared("main"));
    assert_eq!(registry.theme_lookup("--e"), ThemeLookup::Untouched);
}

#[test]
fn property_positions() {
    let mut properties = PropertyIndex::new();
    assert_eq!(properties.get("color"), None);
    properties.insert("color", 3);
    properties.insert("margin", 1);
    properties.insert("color", 4);
    assert_eq!(properties.get("color"), Some(4));
    assert_eq!(properties.get("margin"), Some(1));
    assert_eq!(properties.get("colo"), None);
}

#[test]
fn own_imports_come_first_in_a_cycle() {
    // 0 and 1 import each other, and 1 imports 2.
    let files = index(&[&[1], &[0, 2], &[]]);
    assert_eq!(import_order(&files, 0), vec![2, 1, 0]);
    assert_eq!(import_order(&files, 1), vec![0, 2, 1]);
}
