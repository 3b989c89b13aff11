//! What holds of the parse that a stylesheet is read from.

use crate::css::{CssAtRule, CssItem, CssRoot};
use crate::extract;
use crate::imports;
use crate::property_sort::Reply;
use crate::registry::{RegistrationModel, TailwindRegistry};
use crate::stylesheet;
use crate::stylesheet::{ParsedStylesheet, Stylesheet, StylesheetSource};
use crate::text;
use crate::walk;
use vstd::prelude::*;

verus! {

/// Whether an entry is a `@utility`, a `@theme` or a `@custom-variant`.
pub open spec fn is_tailwind(item: CssItem) -> bool {
    ||| item matches CssItem::AtRule(Some(CssAtRule::Utility(_)))
    ||| item matches CssItem::AtRule(Some(CssAtRule::Theme(_)))
    ||| item matches CssItem::AtRule(Some(CssAtRule::CustomVariant(_)))
}

/// A parse holds a directive just where the walk in document order meets one.
pub proof fn law_directive_at_any_depth(root: CssRoot)
    ensures
        stylesheet::holds_directive(root) <==> exists|i: int|
            0 <= i < walk::document_order(root.items@).len() && is_tailwind(
                #[trigger] walk::document_order(root.items@)[i],
            ),
{
    let entries = walk::document_order(root.items@);
    assert forall|i: int| 0 <= i < entries.len() implies stylesheet::is_directive(
        #[trigger] entries[i],
    ) == is_tailwind(entries[i]) by {}
    if stylesheet::holds_directive(root) {
        let i = choose|i: int|
            0 <= i < entries.len() && stylesheet::is_directive(#[trigger] entries[i]);
        assert(is_tailwind(entries[i]));
    }
    if exists|i: int| 0 <= i < entries.len() && is_tailwind(#[trigger] entries[i]) {
        let i = choose|i: int| 0 <= i < entries.len() && is_tailwind(#[trigger] entries[i]);
        assert(stylesheet::is_directive(entries[i]));
    }
}

/// Whether a text has `part` somewhere in it.
pub open spec fn has_part(source: Seq<char>, part: Seq<char>) -> bool {
    exists|front: Seq<char>, back: Seq<char>| #[trigger] (front + part + back) == source
}

proof fn lemma_has_part(source: Seq<char>, part: Seq<char>)
    ensures
        text::occurs_in(part, source) <==> has_part(source, part),
{
    if text::occurs_in(part, source) {
        let i = choose|i: int| #[trigger] text::occurs_at(part, source, i);
        let front = source.take(i);
        let back = source.skip(i + part.len());
        assert(source.subrange(i, i + part.len()) == part);
        assert(front + part + back == source);
    }
    if has_part(source, part) {
        let (front, back) = choose|front: Seq<char>, back: Seq<char>| #[trigger]
            (front + part + back) == source;
        let i = front.len() as int;
        assert(source.subrange(i, i + part.len()) == part);
        assert(text::occurs_at(part, source, i));
    }
}

/// A stylesheet is parsed again just where its parse holds no directive and
/// its text has `@utility`, `@theme` or `@custom-variant` somewhere in it.
pub proof fn law_when_to_parse_again(root: CssRoot, source: Seq<char>)
    ensures
        stylesheet::reparse_needed(root, source) <==> (forall|i: int|
            0 <= i < walk::document_order(root.items@).len() ==> !is_tailwind(
                #[trigger] walk::document_order(root.items@)[i],
            )) && (has_part(source, "@utility"@) || has_part(source, "@theme"@) || has_part(
            source,
            "@custom-variant"@,
        )),
{
    law_directive_at_any_depth(root);
    lemma_has_part(source, "@utility"@);
    lemma_has_part(source, "@theme"@);
    lemma_has_part(source, "@custom-variant"@);
}

/// A file is read from its parse, or from what `reparse` returns on its whole
/// text where it is to be parsed again; from nothing, where it has no source or
/// is not there.
pub proof fn law_what_a_file_is_read_from<R: Fn(&str) -> CssRoot>(
    reparse: R,
    files: Seq<Stylesheet>,
    file: usize,
    source: StylesheetSource,
    root: Option<CssRoot>,
)
    ensures
        file < files.len() && files[file as int].source == Some(source)
            && !stylesheet::reparse_needed(source.root, source.text@) ==> (stylesheet::parsed_to(
            reparse,
            files,
            file,
            root,
        ) <==> root == Some(source.root)),
        file < files.len() && files[file as int].source == Some(source)
            && stylesheet::reparse_needed(source.root, source.text@) ==> (stylesheet::parsed_to(
            reparse,
            files,
            file,
            root,
        ) <==> root is Some && exists|t: &str| #[trigger]
            call_ensures(reparse, (t,), root->0) && t@ == source.text@),
        file >= files.len() || files[file as int].source is None ==> (stylesheet::parsed_to(
            reparse,
            files,
            file,
            root,
        ) <==> root is None),
{
}

/// Nothing of a parse is lost in what it says.
pub proof fn law_parses_are_kept(parsed: ParsedStylesheet<'_>)
    ensures
        parsed matches ParsedStylesheet::Indexed(root) ==> parsed@ == *root,
        parsed matches ParsedStylesheet::Reparsed(root) ==> parsed@ == root,
{
}

/// The entries of several parses are those of each in document order, one
/// parse after the other.
pub proof fn law_entries_of_parses(roots: Seq<Option<CssRoot>>, root: Option<CssRoot>)
    ensures
        root matches Some(r) ==> stylesheet::all_entries(roots.push(root))
            == stylesheet::all_entries(roots) + walk::document_order(r.items@),
        root is None ==> stylesheet::all_entries(roots.push(root)) == stylesheet::all_entries(
            roots,
        ),
        stylesheet::all_entries(Seq::empty()).len() == 0,
{
    assert(roots.push(root).drop_last() == roots);
    assert(roots.push(root).last() == root);
    if root is None {
        assert(stylesheet::all_entries(roots) + Seq::<CssItem>::empty() == stylesheet::all_entries(
            roots,
        ));
    }
}

/// The registry of a stylesheet is what the parses of the files it reads
/// register, file by file in the order in which they are read, and nothing
/// more.
pub proof fn law_registry_of_a_stylesheet<
    P: Fn(&str, &TailwindRegistry) -> Reply,
    R: Fn(&str) -> CssRoot,
>(
    place: P,
    reparse: R,
    positions: Map<Seq<char>, u16>,
    files: Seq<Stylesheet>,
    module: usize,
    log: Seq<RegistrationModel>,
)
    requires
        stylesheet::registered(place, reparse, positions, files, module, log),
    ensures
        exists|roots: Seq<Option<CssRoot>>|
            {
                &&& roots.len() == imports::reading_order(files, module).len()
                &&& forall|k: int|
                    0 <= k < roots.len() ==> stylesheet::parsed_to(
                        reparse,
                        files,
                        imports::reading_order(files, module)[k],
                        #[trigger] roots[k],
                    )
                &&& #[trigger] extract::extracted(
                    place,
                    positions,
                    stylesheet::all_entries(roots),
                    Seq::empty(),
                    log,
                )
            },
{
    let order = imports::reading_order(files, module);
    let roots = choose|roots: Seq<Option<CssRoot>>|
        {
            &&& #[trigger] stylesheet::all_parsed_to(reparse, files, order, roots)
            &&& extract::extracted(
                place,
                positions,
                stylesheet::all_entries(roots),
                Seq::empty(),
                log,
            )
        };
    assert(extract::extracted(
        place,
        positions,
        stylesheet::all_entries(roots),
        Seq::empty(),
        log,
    ));
}

} // verus!
