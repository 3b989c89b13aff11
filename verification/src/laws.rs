//! What holds of extraction as a whole.

use crate::ascending;
use crate::css;
use crate::css::{CssAtRule, CssItem, CssRoot};
use crate::declarations;
use crate::extract;
use crate::imports;
use crate::property_sort;
use crate::property_sort::{PlacementModel, Reply};
use crate::registry::{RegistrationModel, TailwindRegistry};
use crate::stylesheet;
use crate::stylesheet::Stylesheet;
use crate::values;
use crate::walk;
use vstd::prelude::*;

verus! {

/// A key joined to `--color-*` is joined to `--color`: both references stand
/// for the same prefix.
pub proof fn law_star_is_implied(reference: Seq<char>)
    ensures
        values::key_prefix(reference + seq!['-', '*']) == values::key_prefix(reference),
{
    let starred = reference + seq!['-', '*'];
    assert(starred.take(starred.len() - 2) == reference);
}

/// An `@apply` inside `@utility` sees what the directives above it
/// registered, and nothing else: its classes are placed while just that is
/// registered, and the utility is registered behind it.
pub proof fn law_apply_sees_what_stands_above<P: Fn(&str, &TailwindRegistry) -> Reply>(
    place: P,
    positions: Map<Seq<char>, u16>,
    items: Seq<CssItem>,
    before: Seq<RegistrationModel>,
    after: Seq<RegistrationModel>,
    k: int,
)
    requires
        extract::extracted(place, positions, items, before, after),
        0 <= k < items.len(),
    ensures
        exists|above: Seq<RegistrationModel>, replies: Seq<Seq<PlacementModel>>|
            {
                &&& extract::extracted(place, positions, items.take(k), before, above)
                &&& #[trigger] extract::all_replied(
                    place,
                    extract::asked_classes(items[k]),
                    above,
                    replies,
                )
                &&& (above + extract::registrations(items[k], positions, replies)).is_prefix_of(
                    after,
                )
            },
{
    let upto = items.take(k + 1);
    assert(items == upto + items.skip(k + 1));
    extract::lemma_extract_splits(place, positions, upto, items.skip(k + 1), before, after);
    let mid = choose|mid: Seq<RegistrationModel>| #[trigger]
        extract::extracted(place, positions, upto, before, mid) && extract::extracted(
            place,
            positions,
            items.skip(k + 1),
            mid,
            after,
        );
    extract::lemma_extract_adds(place, positions, items.skip(k + 1), mid, after);
    assert(upto.drop_last() == items.take(k));
    assert(upto.last() == items[k]);
}

/// A stylesheet without directives registers nothing.
pub proof fn law_no_directive_no_registration<P: Fn(&str, &TailwindRegistry) -> Reply>(
    place: P,
    positions: Map<Seq<char>, u16>,
    root: CssRoot,
    before: Seq<RegistrationModel>,
    after: Seq<RegistrationModel>,
)
    requires
        !stylesheet::holds_directive(root),
        extract::extracted(place, positions, walk::document_order(root.items@), before, after),
    ensures
        after == before,
{
    let entries = walk::document_order(root.items@);
    assert forall|i: int| 0 <= i < entries.len() implies !stylesheet::is_directive(
        #[trigger] entries[i],
    ) by {}
    lemma_nothing_registered(place, positions, entries, before, after);
}

proof fn lemma_nothing_registered<P: Fn(&str, &TailwindRegistry) -> Reply>(
    place: P,
    positions: Map<Seq<char>, u16>,
    items: Seq<CssItem>,
    before: Seq<RegistrationModel>,
    after: Seq<RegistrationModel>,
)
    requires
        forall|i: int| 0 <= i < items.len() ==> !stylesheet::is_directive(#[trigger] items[i]),
        extract::extracted(place, positions, items, before, after),
    ensures
        after == before,
    decreases items.len(),
{
    if items.len() > 0 {
        let (mid, replies) = choose|mid: Seq<RegistrationModel>, replies: Seq<Seq<PlacementModel>>|
            {
                &&& extract::extracted(place, positions, items.drop_last(), before, mid)
                &&& #[trigger] extract::all_replied(
                    place,
                    extract::asked_classes(items.last()),
                    mid,
                    replies,
                )
                &&& after == mid + extract::registrations(items.last(), positions, replies)
            };
        lemma_nothing_registered(place, positions, items.drop_last(), before, mid);
        assert(!stylesheet::is_directive(items[items.len() - 1]));
        assert(after == mid);
    }
}

/// What `items` register one after the other, where none of them applies a
/// class.
pub open spec fn plain_registrations(
    items: Seq<CssItem>,
    positions: Map<Seq<char>, u16>,
) -> Seq<RegistrationModel>
    decreases items.len(),
{
    if items.len() == 0 {
        Seq::empty()
    } else {
        plain_registrations(items.drop_last(), positions) + extract::registrations(
            items.last(),
            positions,
            Seq::empty(),
        )
    }
}

/// Where no utility applies a class, what is registered does not depend on
/// how classes are placed, nor on what was registered before.
pub proof fn law_placement_matters_to_apply_alone<P: Fn(&str, &TailwindRegistry) -> Reply>(
    place: P,
    positions: Map<Seq<char>, u16>,
    items: Seq<CssItem>,
    before: Seq<RegistrationModel>,
    after: Seq<RegistrationModel>,
)
    requires
        forall|i: int|
            0 <= i < items.len() ==> (#[trigger] extract::asked_classes(items[i])).len() == 0,
        extract::extracted(place, positions, items, before, after),
    ensures
        after == before + plain_registrations(items, positions),
    decreases items.len(),
{
    if items.len() == 0 {
        assert(after == before + plain_registrations(items, positions));
    } else {
        let (mid, replies) = choose|mid: Seq<RegistrationModel>, replies: Seq<Seq<PlacementModel>>|
            {
                &&& extract::extracted(place, positions, items.drop_last(), before, mid)
                &&& #[trigger] extract::all_replied(
                    place,
                    extract::asked_classes(items.last()),
                    mid,
                    replies,
                )
                &&& after == mid + extract::registrations(items.last(), positions, replies)
            };
        assert forall|i: int| 0 <= i < items.drop_last().len() implies (
        #[trigger] extract::asked_classes(items.drop_last()[i])).len() == 0 by {
            assert(extract::asked_classes(items[i]).len() == 0);
        }
        law_placement_matters_to_apply_alone(place, positions, items.drop_last(), before, mid);
        assert(extract::asked_classes(items[items.len() - 1]).len() == 0);
        assert(replies == Seq::<Seq<PlacementModel>>::empty());
        assert(after == before + plain_registrations(items, positions));
    }
}

/// An import expands in place: extracting one stylesheet and then another is
/// extracting the two as one, the second behind the first.
pub proof fn law_stylesheets_join<P: Fn(&str, &TailwindRegistry) -> Reply>(
    place: P,
    positions: Map<Seq<char>, u16>,
    first: Seq<CssItem>,
    second: Seq<CssItem>,
    before: Seq<RegistrationModel>,
    after: Seq<RegistrationModel>,
)
    ensures
        extract::extracted(
            place,
            positions,
            walk::document_order(first + second),
            before,
            after,
        ) <==> exists|mid: Seq<RegistrationModel>| #[trigger]
            extract::extracted(place, positions, walk::document_order(first), before, mid)
                && extract::extracted(
                place,
                positions,
                walk::document_order(second),
                mid,
                after,
            ),
{
    let a = walk::document_order(first);
    let b = walk::document_order(second);
    walk::lemma_document_order_concat(first, second);
    if extract::extracted(place, positions, a + b, before, after) {
        extract::lemma_extract_splits(place, positions, a, b, before, after);
    }
    if exists|mid: Seq<RegistrationModel>| #[trigger]
        extract::extracted(place, positions, a, before, mid) && extract::extracted(
            place,
            positions,
            b,
            mid,
            after,
        ) {
        let mid = choose|mid: Seq<RegistrationModel>| #[trigger]
            extract::extracted(place, positions, a, before, mid) && extract::extracted(
                place,
                positions,
                b,
                mid,
                after,
            );
        extract::lemma_extract_in_sequence(place, positions, a, b, before, mid, after);
    }
}

/// The directives of a stylesheet land behind those of everything it imports:
/// they are extracted from its own parse, once what its imports expand to is
/// registered.
pub proof fn law_imported_directives_land_first<
    P: Fn(&str, &TailwindRegistry) -> Reply,
    R: Fn(&str) -> CssRoot,
>(
    place: P,
    reparse: R,
    positions: Map<Seq<char>, u16>,
    files: Seq<Stylesheet>,
    file: usize,
    after: Seq<RegistrationModel>,
)
    requires
        imports::is_stylesheet(files, file),
        stylesheet::registered(place, reparse, positions, files, file, after),
    ensures
        exists|
            roots: Seq<Option<CssRoot>>,
            imported: Seq<RegistrationModel>,
            own: Option<CssRoot>,
        |
            {
                &&& #[trigger] stylesheet::all_parsed_to(
                    reparse,
                    files,
                    imports::expansions(
                        files,
                        imports::imported(files, file),
                        Set::empty().insert(file),
                    ),
                    roots,
                )
                &&& extract::extracted(
                    place,
                    positions,
                    stylesheet::all_entries(roots),
                    Seq::empty(),
                    imported,
                )
                &&& stylesheet::parsed_to(reparse, files, file, own)
                &&& #[trigger] extract::extracted(
                    place,
                    positions,
                    stylesheet::root_entries(own),
                    imported,
                    after,
                )
            },
{
    let order = imports::reading_order(files, file);
    let inside = imports::expansions(
        files,
        imports::imported(files, file),
        Set::empty().insert(file),
    );
    assert(order == inside.push(file));
    let all = choose|all: Seq<Option<CssRoot>>|
        {
            &&& #[trigger] stylesheet::all_parsed_to(reparse, files, order, all)
            &&& extract::extracted(
                place,
                positions,
                stylesheet::all_entries(all),
                Seq::empty(),
                after,
            )
        };
    let roots = all.drop_last();
    let own = all.last();
    assert(all[all.len() - 1] == own);
    assert forall|k: int| 0 <= k < inside.len() implies stylesheet::parsed_to(
        reparse,
        files,
        inside[k],
        #[trigger] roots[k],
    ) by {
        assert(roots[k] == all[k]);
        assert(order[k] == inside[k]);
    }
    assert(stylesheet::all_parsed_to(reparse, files, inside, roots));
    extract::lemma_extract_splits(
        place,
        positions,
        stylesheet::all_entries(roots),
        stylesheet::root_entries(own),
        Seq::empty(),
        after,
    );
}

/// The positions of a static utility are in ascending order, and none is there
/// twice.
pub proof fn law_signature_is_ascending(
    items: Seq<CssItem>,
    replies: Seq<Seq<PlacementModel>>,
    positions: Map<Seq<char>, u16>,
)
    ensures
        ascending::is_ascending(property_sort::signature(items, replies, positions)),
        forall|p: u16| #[trigger]
            property_sort::signature(items, replies, positions).contains(p)
                <==> property_sort::sorts_at(items, replies, positions, p),
{
    ascending::lemma_ascending(|p: u16| property_sort::sorts_at(items, replies, positions, p));
    let wanted = |p: u16| property_sort::sorts_at(items, replies, positions, p);
    assert forall|p: u16| #[trigger]
        property_sort::signature(items, replies, positions).contains(p)
            <==> property_sort::sorts_at(items, replies, positions, p) by {
        assert(wanted(p) == property_sort::sorts_at(items, replies, positions, p));
    }
}

/// A `--tw-sort:` hint ends the positions: what stands behind it changes none
/// of them.
pub proof fn law_hint_ends_positions(
    items: Seq<CssItem>,
    more: Seq<CssItem>,
    replies: Seq<Seq<PlacementModel>>,
    more_replies: Seq<Seq<PlacementModel>>,
    positions: Map<Seq<char>, u16>,
    hint: int,
)
    requires
        replies.len() == property_sort::item_list_classes(items).len(),
        0 <= hint < items.len(),
        property_sort::is_hint(items[hint], positions),
    ensures
        property_sort::signature(items + more, replies + more_replies, positions)
            == property_sort::signature(items, replies, positions),
{
    let all = items + more;
    let all_replies = replies + more_replies;
    assert forall|j: int| 0 <= j < items.len() implies property_sort::item_positions(
        all,
        all_replies,
        positions,
        j,
    ) == #[trigger] property_sort::item_positions(items, replies, positions, j) by {
        property_sort::lemma_class_texts_len(items, j);
        assert(all.take(j) == items.take(j));
        assert(all.take(j + 1) == items.take(j + 1));
        assert(property_sort::item_replies(all, all_replies, j) == property_sort::item_replies(
            items,
            replies,
            j,
        ));
    }
    let wanted = |p: u16| property_sort::sorts_at(items, replies, positions, p);
    law_signature_is_ascending(all, all_replies, positions);
    assert forall|p: u16| #[trigger]
        property_sort::signature(all, all_replies, positions).contains(p) <==> wanted(p) by {
        if property_sort::sorts_at(all, all_replies, positions, p) {
            let j = choose|j: int|
                0 <= j < all.len() && #[trigger] property_sort::brings(
                    all,
                    all_replies,
                    positions,
                    p,
                    j,
                );
            assert(all[hint] == items[hint]);
            assert(j <= hint);
            assert forall|i: int| 0 <= i < j implies !property_sort::is_hint(
                #[trigger] items[i],
                positions,
            ) by {
                assert(all[i] == items[i]);
            }
            assert(property_sort::item_positions(items, replies, positions, j).contains(p));
            assert(property_sort::brings(items, replies, positions, p, j));
        }
        if property_sort::sorts_at(items, replies, positions, p) {
            let j = choose|j: int|
                0 <= j < items.len() && #[trigger] property_sort::brings(
                    items,
                    replies,
                    positions,
                    p,
                    j,
                );
            assert forall|i: int| 0 <= i < j implies !property_sort::is_hint(
                #[trigger] all[i],
                positions,
            ) by {
                assert(all[i] == items[i]);
            }
            assert(property_sort::item_positions(items, replies, positions, j).contains(p));
            assert(property_sort::brings(all, all_replies, positions, p, j));
        }
    }
    ascending::lemma_is_ascending_list(
        property_sort::signature(all, all_replies, positions),
        wanted,
    );
}

/// `1` for a declaration, `0` for anything else.
pub open spec fn own_count(item: CssItem) -> nat {
    if item matches CssItem::Declaration(Some(_)) {
        1
    } else {
        0
    }
}

/// The number of declarations among `items`.
pub open spec fn declarations_among(items: Seq<CssItem>) -> nat
    decreases items.len(),
{
    if items.len() == 0 {
        0
    } else {
        declarations_among(items.drop_last()) + own_count(items.last())
    }
}

/// The number of declarations among `items` and in the blocks nested in them.
pub open spec fn declarations_within(items: Seq<CssItem>) -> nat
    decreases items,
{
    if items.len() == 0 {
        0
    } else {
        proof {
            css::lemma_children_are_smaller(items.last());
        }
        let below = css::nested_items(items.last());
        declarations_within(items.drop_last()) + own_count(items.last()) + if below.len() == 0 {
            0
        } else {
            declarations_within(below)
        }
    }
}

proof fn lemma_among_concat(a: Seq<CssItem>, b: Seq<CssItem>)
    ensures
        declarations_among(a + b) == declarations_among(a) + declarations_among(b),
    decreases b.len(),
{
    if b.len() == 0 {
        assert(a + b == a);
    } else {
        lemma_among_concat(a, b.drop_last());
        assert((a + b).drop_last() == a + b.drop_last());
    }
}

proof fn lemma_within_concat(a: Seq<CssItem>, b: Seq<CssItem>)
    ensures
        declarations_within(a + b) == declarations_within(a) + declarations_within(b),
    decreases b.len(),
{
    if b.len() == 0 {
        assert(a + b == a);
    } else {
        lemma_within_concat(a, b.drop_last());
        assert((a + b).drop_last() == a + b.drop_last());
    }
}

proof fn lemma_within_by_level(items: Seq<CssItem>)
    ensures
        declarations_within(items) == declarations_among(items) + declarations_within(
            walk::next_level(items),
        ),
    decreases items.len(),
{
    if items.len() > 0 {
        lemma_within_by_level(items.drop_last());
        lemma_within_concat(
            walk::next_level(items.drop_last()),
            css::nested_items(items.last()),
        );
    }
}

proof fn lemma_level_order_declarations(items: Seq<CssItem>)
    ensures
        declarations_among(walk::level_order(items)) == declarations_within(items),
    decreases walk::depth(items),
{
    if items.len() > 0 {
        walk::lemma_next_level_is_shallower(items);
        lemma_level_order_declarations(walk::next_level(items));
        lemma_among_concat(items, walk::level_order(walk::next_level(items)));
        lemma_within_by_level(items);
    }
}

proof fn lemma_applied_count_concat(a: Seq<Seq<PlacementModel>>, b: Seq<Seq<PlacementModel>>)
    ensures
        property_sort::applied_count(a + b) == property_sort::applied_count(a)
            + property_sort::applied_count(b),
    decreases b.len(),
{
    if b.len() == 0 {
        assert(a + b == a);
    } else {
        lemma_applied_count_concat(a, b.drop_last());
        assert((a + b).drop_last() == a + b.drop_last());
    }
}

proof fn lemma_count_of_first(
    items: Seq<CssItem>,
    replies: Seq<Seq<PlacementModel>>,
    n: int,
)
    requires
        0 <= n <= items.len(),
        replies.len() == property_sort::item_list_classes(items).len(),
    ensures
        property_sort::item_list_classes(items.take(n)).len() <= replies.len(),
        property_sort::count_of_first(items, replies, n) == declarations_among(items.take(n))
            + property_sort::applied_count(
            replies.take(property_sort::item_list_classes(items.take(n)).len() as int),
        ),
    decreases n,
{
    if n > 0 {
        lemma_count_of_first(items, replies, n - 1);
        property_sort::lemma_class_texts_len(items, n - 1);
        assert(items.take(n).drop_last() == items.take(n - 1));
        let from = property_sort::item_list_classes(items.take(n - 1)).len() as int;
        let to = property_sort::item_list_classes(items.take(n)).len() as int;
        let here = property_sort::item_replies(items, replies, n - 1);
        assert(replies.take(to) == replies.take(from) + here);
        lemma_applied_count_concat(replies.take(from), here);
        if !(items[n - 1] matches CssItem::AtRule(Some(CssAtRule::Apply(_)))) {
            assert(here == Seq::<Seq<PlacementModel>>::empty());
        }
    } else {
        assert(replies.take(0) == Seq::<Seq<PlacementModel>>::empty());
    }
}

/// Every declaration of a static utility counts once, in whatever block it is
/// nested and whether or not a hint stands before it, and so does every
/// declaration of the classes that it applies.
pub proof fn law_every_declaration_counts(
    items: Seq<CssItem>,
    replies: Seq<Seq<PlacementModel>>,
)
    requires
        replies.len() == property_sort::item_list_classes(walk::level_order(items)).len(),
    ensures
        property_sort::declaration_count(walk::level_order(items), replies) == {
            let count = declarations_within(items) + property_sort::applied_count(replies);
            if count > u8::MAX {
                u8::MAX
            } else {
                count as u8
            }
        },
{
    let order = walk::level_order(items);
    lemma_count_of_first(order, replies, order.len() as int);
    assert(order.take(order.len() as int) == order);
    assert(replies.take(replies.len() as int) == replies);
    lemma_level_order_declarations(items);
}

proof fn lemma_functional_decls_len(items: Seq<CssItem>, positions: Map<Seq<char>, u16>)
    ensures
        declarations::functional_decls(items, positions).len() == declarations_among(items),
    decreases items.len(),
{
    if items.len() > 0 {
        lemma_functional_decls_len(items.drop_last(), positions);
    }
}

/// Every declaration of a functional utility is there, in whatever block it is
/// nested.
pub proof fn law_every_functional_declaration(
    items: Seq<CssItem>,
    positions: Map<Seq<char>, u16>,
)
    ensures
        declarations::functional_decls(walk::level_order(items), positions).len()
            == declarations_within(items),
{
    lemma_functional_decls_len(walk::level_order(items), positions);
    lemma_level_order_declarations(items);
}

/// The walk meets each entry once.
pub proof fn law_walk_meets_each_entry_once(items: Seq<CssItem>)
    ensures
        walk::level_order(items).len() == walk::total(items),
    decreases walk::depth(items),
{
    if items.len() > 0 {
        walk::lemma_next_level_is_shallower(items);
        law_walk_meets_each_entry_once(walk::next_level(items));
        lemma_total_by_level(items);
    }
}

proof fn lemma_total_by_level(items: Seq<CssItem>)
    ensures
        walk::total(items) == items.len() + walk::total(walk::next_level(items)),
    decreases items.len(),
{
    if items.len() > 0 {
        lemma_total_by_level(items.drop_last());
        walk::lemma_total_concat(
            walk::next_level(items.drop_last()),
            css::nested_items(items.last()),
        );
    }
}

} // verus!
