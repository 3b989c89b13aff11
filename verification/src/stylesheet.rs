//! Which stylesheets contribute to a registry, and in which order.

use crate::css::{CssAtRule, CssItem, CssRoot};
use crate::extract;
use crate::imports;
use crate::properties::PropertyIndex;
use crate::property_sort::Reply;
use crate::registry::{RegistrationModel, TailwindRegistry};
use crate::text;
use crate::walk;
use vstd::prelude::*;

verus! {

/// The stylesheets of a project. A file is named by its place in the list.
pub struct StylesheetIndex {
    /// The files.
    pub files: Vec<Stylesheet>,
}

/// What is known of one file.
pub struct Stylesheet {
    /// Its imports, where it is a stylesheet.
    pub css: Option<CssModuleInfo>,
    /// Its source, where it has been parsed.
    pub source: Option<StylesheetSource>,
}

/// The imports of a stylesheet.
pub struct CssModuleInfo {
    /// The `@import`s, in document order.
    pub imports: Vec<CssImport>,
}

/// One `@import`.
pub struct CssImport {
    /// What the import names.
    pub specifier: String,
    /// The file that this stands for, where there is one.
    pub resolved: Option<usize>,
}

/// The source of a stylesheet.
pub struct StylesheetSource {
    /// The parse with the settings of the project.
    pub root: CssRoot,
    /// The text.
    pub text: String,
}

/// The parse of a stylesheet that its registrations are read from.
pub enum ParsedStylesheet<'a> {
    /// The parse with the settings of the project.
    Indexed(&'a CssRoot),
    /// The parse with Tailwind directives enabled.
    Reparsed(CssRoot),
}

impl<'a> View for ParsedStylesheet<'a> {
    type V = CssRoot;

    open spec fn view(&self) -> CssRoot {
        match self {
            ParsedStylesheet::Indexed(root) => **root,
            ParsedStylesheet::Reparsed(root) => *root,
        }
    }
}

impl<'a> ParsedStylesheet<'a> {
    /// The parse, whichever it is.
    pub fn root(&self) -> (root: &CssRoot)
        ensures
            *root == self@,
    {
        match self {
            ParsedStylesheet::Indexed(root) => root,
            ParsedStylesheet::Reparsed(root) => root,
        }
    }
}

/// Whether a specifier names the `tailwindcss` package.
pub open spec fn names_tailwind_package(specifier: Seq<char>) -> bool {
    specifier == "tailwindcss"@ || "tailwindcss/"@.is_prefix_of(specifier)
}

/// Whether a specifier names the `tailwindcss` package or a part of it.
pub fn is_tailwind_package(specifier: &str) -> (named: bool)
    ensures
        named == names_tailwind_package(specifier@),
{
    text::same_text(specifier, "tailwindcss") || text::has_prefix(specifier, "tailwindcss/")
}

/// Whether an entry is a Tailwind directive that registers something.
pub open spec fn is_directive(item: CssItem) -> bool {
    match item {
        CssItem::AtRule(Some(rule)) => rule is Utility || rule is Theme || rule is CustomVariant,
        _ => false,
    }
}

/// Whether a stylesheet holds a Tailwind directive at any depth.
pub open spec fn holds_directive(root: CssRoot) -> bool {
    exists|i: int|
        0 <= i < walk::document_order(root.items@).len() && is_directive(
            #[trigger] walk::document_order(root.items@)[i],
        )
}

/// Whether a stylesheet holds a Tailwind directive at any depth.
pub fn has_tailwind_directives(root: &CssRoot) -> (found: bool)
    ensures
        found == holds_directive(*root),
{
    let order = walk::preorder(&root.items);
    let ghost entries = walk::document_order(root.items@);
    let mut i: usize = 0;
    while i < order.len()
        invariant
            i <= order@.len(),
            entries == walk::document_order(root.items@),
            order@.unref() == entries,
            forall|j: int| 0 <= j < i ==> !is_directive(#[trigger] entries[j]),
        decreases order@.len() - i,
    {
        let item = order[i];
        assert(entries[i as int] == *item);
        if let CssItem::AtRule(Some(rule)) = item {
            match rule {
                CssAtRule::Utility(_) => {
                    return true;
                },
                CssAtRule::Theme(_) => {
                    return true;
                },
                CssAtRule::CustomVariant(_) => {
                    return true;
                },
                _ => {},
            }
        }
        i += 1;
    }
    false
}

/// Whether a text mentions a Tailwind directive.
pub open spec fn mentions_directive(source: Seq<char>) -> bool {
    ||| text::occurs_in("@utility"@, source)
    ||| text::occurs_in("@theme"@, source)
    ||| text::occurs_in("@custom-variant"@, source)
}

/// Whether a stylesheet is to be parsed again with Tailwind directives
/// enabled: it mentions one, and its parse holds none.
pub open spec fn reparse_needed(root: CssRoot, source: Seq<char>) -> bool {
    !holds_directive(root) && mentions_directive(source)
}

/// Whether a stylesheet is to be parsed again with Tailwind directives
/// enabled: it mentions one, and its parse holds none.
pub fn needs_reparse(root: &CssRoot, source: &str) -> (needed: bool)
    ensures
        needed == reparse_needed(*root, source@),
{
    if has_tailwind_directives(root) {
        return false;
    }
    text::contains_text(source, "@utility") || text::contains_text(source, "@theme")
        || text::contains_text(source, "@custom-variant")
}

/// Whether `reparse` can return `root` on a text.
pub open spec fn reparsed_to<R: Fn(&str) -> CssRoot>(
    reparse: R,
    source: Seq<char>,
    root: CssRoot,
) -> bool {
    exists|t: &str| #[trigger] call_ensures(reparse, (t,), root) && t@ == source
}

/// Whether the registrations of a file can be read from `root`: from the parse
/// with the settings of the project, or, where that one is to be parsed again,
/// from what `reparse` returns on its text; from nothing, where the file has
/// not been parsed.
pub open spec fn parsed_to<R: Fn(&str) -> CssRoot>(
    reparse: R,
    files: Seq<Stylesheet>,
    file: usize,
    root: Option<CssRoot>,
) -> bool {
    if file < files.len() {
        match files[file as int].source {
            Some(source) => if reparse_needed(source.root, source.text@) {
                root matches Some(r) && reparsed_to(reparse, source.text@, r)
            } else {
                root == Some(source.root)
            },
            None => root is None,
        }
    } else {
        root is None
    }
}

/// The indexed parse of a CSS file, or its parse with Tailwind directives
/// enabled when the project parsed it without them: the stylesheet is meant
/// to be read as a Tailwind stylesheet whatever the project's settings say.
///
/// `reparse` parses a text with Tailwind directives enabled.
pub fn parsed_stylesheet<'a, R: Fn(&str) -> CssRoot>(
    index: &'a StylesheetIndex,
    file: usize,
    reparse: &R,
) -> (parsed: Option<ParsedStylesheet<'a>>)
    requires
        forall|t: &str| call_requires(*reparse, (t,)),
    ensures
        parsed_to(
            *reparse,
            index.files@,
            file,
            match parsed {
                Some(p) => Some(p@),
                None => None,
            },
        ),
{
    if file >= index.files.len() {
        return None;
    }
    match &index.files[file].source {
        Some(source) => if needs_reparse(&source.root, source.text.as_str()) {
            Some(ParsedStylesheet::Reparsed(reparse(source.text.as_str())))
        } else {
            Some(ParsedStylesheet::Indexed(&source.root))
        },
        None => None,
    }
}

/// The entries of the parse of a file, in document order.
pub open spec fn root_entries(root: Option<CssRoot>) -> Seq<CssItem> {
    match root {
        Some(root) => walk::document_order(root.items@),
        None => Seq::empty(),
    }
}

/// The entries of a list of parses, one parse after the other.
pub open spec fn all_entries(roots: Seq<Option<CssRoot>>) -> Seq<CssItem>
    decreases roots.len(),
{
    if roots.len() == 0 {
        Seq::empty()
    } else {
        all_entries(roots.drop_last()) + root_entries(roots.last())
    }
}

/// Whether the registrations of the files of `list` can be read from `roots`,
/// file by file.
pub open spec fn all_parsed_to<R: Fn(&str) -> CssRoot>(
    reparse: R,
    files: Seq<Stylesheet>,
    list: Seq<usize>,
    roots: Seq<Option<CssRoot>>,
) -> bool {
    &&& roots.len() == list.len()
    &&& forall|k: int|
        0 <= k < list.len() ==> parsed_to(reparse, files, list[k], #[trigger] roots[k])
}

/// Whether `log` is what the stylesheet `module` and the stylesheets it
/// imports register, each one in its place in the reading order.
pub open spec fn registered<
    P: Fn(&str, &TailwindRegistry) -> Reply,
    R: Fn(&str) -> CssRoot,
>(
    place: P,
    reparse: R,
    positions: Map<Seq<char>, u16>,
    files: Seq<Stylesheet>,
    module: usize,
    log: Seq<RegistrationModel>,
) -> bool {
    exists|roots: Seq<Option<CssRoot>>|
        {
            &&& #[trigger] all_parsed_to(
                reparse,
                files,
                imports::reading_order(files, module),
                roots,
            )
            &&& extract::extracted(place, positions, all_entries(roots), Seq::empty(), log)
        }
}

/// Everything `@utility`, `@custom-variant`, and `@theme` register in the
/// stylesheet `module` and the stylesheets it imports, in the order Tailwind
/// sees them: each `@import` expands in place, so an imported partial's
/// directives land before the importing file's own.
///
/// `@import "tailwindcss"` (and `tailwindcss/…`) is skipped: it is the preset
/// the sorter already carries.
///
/// `place` parses an applied class and places its candidates; `reparse` parses
/// a text with Tailwind directives enabled.
pub fn tailwind_registry_for_stylesheet<
    P: Fn(&str, &TailwindRegistry) -> Reply,
    R: Fn(&str) -> CssRoot,
>(
    index: &StylesheetIndex,
    module: usize,
    properties: &PropertyIndex,
    place: &P,
    reparse: &R,
) -> (registry: TailwindRegistry)
    requires
        forall|c: &str, r: &TailwindRegistry| call_requires(*place, (c, r)),
        forall|t: &str| call_requires(*reparse, (t,)),
    ensures
        registered(*place, *reparse, properties@, index.files@, module, registry@),
{
    let order = imports::import_order(index, module);
    let mut registry = TailwindRegistry::new();
    let ghost mut roots: Seq<Option<CssRoot>> = Seq::empty();
    let mut i: usize = 0;
    while i < order.len()
        invariant
            i <= order@.len(),
            forall|c: &str, r: &TailwindRegistry| call_requires(*place, (c, r)),
            forall|t: &str| call_requires(*reparse, (t,)),
            all_parsed_to(*reparse, index.files@, order@.take(i as int), roots),
            extract::extracted(
                *place,
                properties@,
                all_entries(roots),
                Seq::empty(),
                registry@,
            ),
        decreases order@.len() - i,
    {
        let file = order[i];
        let ghost mid = registry@;
        let ghost mut root: Option<CssRoot> = None;
        if let Some(parsed) = parsed_stylesheet(index, file, reparse) {
            proof {
                root = Some(parsed@);
            }
            extract::extract_tailwind_registry(parsed.root(), properties, place, &mut registry);
        }
        proof {
            extract::lemma_extract_in_sequence(
                *place,
                properties@,
                all_entries(roots),
                root_entries(root),
                Seq::empty(),
                mid,
                registry@,
            );
            let more = roots.push(root);
            assert(more.drop_last() == roots);
            assert forall|k: int| 0 <= k < i + 1 implies parsed_to(
                *reparse,
                index.files@,
                order@.take(i + 1)[k],
                #[trigger] more[k],
            ) by {
                if k < i {
                    assert(order@.take(i + 1)[k] == order@.take(i as int)[k]);
                    assert(more[k] == roots[k]);
                }
            }
            roots = more;
        }
        i += 1;
    }
    assert(order@.take(i as int) == order@);
    registry
}

} // verus!
