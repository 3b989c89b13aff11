//! What the order of the entries of a block means.

use crate::ascending;
use crate::css;
use crate::css::{CssAtRule, CssItem};
use crate::property_sort;
use crate::property_sort::PlacementModel;
use crate::walk;
use vstd::prelude::*;

verus! {

/// The replies to the classes that `items` apply, where `reply` gives the
/// reply to each class.
pub open spec fn replies_by(
    items: Seq<CssItem>,
    reply: spec_fn(Seq<char>) -> Seq<PlacementModel>,
) -> Seq<Seq<PlacementModel>> {
    property_sort::item_list_classes(items).map_values(reply)
}

/// The positions that an entry brings.
spec fn positions_of(
    item: CssItem,
    reply: spec_fn(Seq<char>) -> Seq<PlacementModel>,
    positions: Map<Seq<char>, u16>,
) -> Seq<u16> {
    match item {
        CssItem::Declaration(Some(declaration)) => match property_sort::declared_position(
            declaration,
            positions,
        ) {
            Some(position) => seq![position],
            None => Seq::empty(),
        },
        CssItem::AtRule(Some(CssAtRule::Apply(_))) => property_sort::applied_positions(
            property_sort::item_classes(item).map_values(reply),
        ),
        _ => Seq::empty(),
    }
}

/// The number of declarations that an entry brings.
spec fn count_of(item: CssItem, reply: spec_fn(Seq<char>) -> Seq<PlacementModel>) -> nat {
    match item {
        CssItem::Declaration(Some(_)) => 1,
        CssItem::AtRule(Some(CssAtRule::Apply(_))) => property_sort::applied_count(
            property_sort::item_classes(item).map_values(reply),
        ),
        _ => 0,
    }
}

/// The number of declarations that `items` bring.
spec fn total_count(
    items: Seq<CssItem>,
    reply: spec_fn(Seq<char>) -> Seq<PlacementModel>,
) -> nat
    decreases items.len(),
{
    if items.len() == 0 {
        0
    } else {
        total_count(items.drop_last(), reply) + count_of(items.last(), reply)
    }
}

proof fn lemma_classes_concat(a: Seq<CssItem>, b: Seq<CssItem>)
    ensures
        property_sort::item_list_classes(a + b) == property_sort::item_list_classes(a)
            + property_sort::item_list_classes(b),
    decreases b.len(),
{
    if b.len() == 0 {
        assert(a + b == a);
    } else {
        lemma_classes_concat(a, b.drop_last());
        assert((a + b).drop_last() == a + b.drop_last());
    }
}

/// Where one function gives the replies, what an entry brings is up to the
/// entry alone.
proof fn lemma_entry_alone(
    items: Seq<CssItem>,
    reply: spec_fn(Seq<char>) -> Seq<PlacementModel>,
    positions: Map<Seq<char>, u16>,
    j: int,
)
    requires
        0 <= j < items.len(),
    ensures
        property_sort::item_positions(items, replies_by(items, reply), positions, j)
            == positions_of(items[j], reply, positions),
        property_sort::item_count(items, replies_by(items, reply), j) == count_of(items[j], reply),
{
    let upto = items.take(j + 1);
    assert(items == upto + items.skip(j + 1));
    lemma_classes_concat(upto, items.skip(j + 1));
    property_sort::lemma_class_texts_len(items, j);
    assert(property_sort::item_replies(items, replies_by(items, reply), j)
        == property_sort::item_classes(items[j]).map_values(reply));
}

proof fn lemma_count_by_entry(
    items: Seq<CssItem>,
    reply: spec_fn(Seq<char>) -> Seq<PlacementModel>,
    n: int,
)
    requires
        0 <= n <= items.len(),
    ensures
        property_sort::count_of_first(items, replies_by(items, reply), n) == total_count(
            items.take(n),
            reply,
        ),
    decreases n,
{
    if n > 0 {
        lemma_count_by_entry(items, reply, n - 1);
        lemma_entry_alone(items, reply, Map::empty(), n - 1);
        assert(items.take(n).drop_last() == items.take(n - 1));
    }
}

proof fn lemma_count_concat(
    a: Seq<CssItem>,
    b: Seq<CssItem>,
    reply: spec_fn(Seq<char>) -> Seq<PlacementModel>,
)
    ensures
        total_count(a + b, reply) == total_count(a, reply) + total_count(b, reply),
    decreases b.len(),
{
    if b.len() == 0 {
        assert(a + b == a);
    } else {
        lemma_count_concat(a, b.drop_last(), reply);
        assert((a + b).drop_last() == a + b.drop_last());
    }
}

/// Where the last entry of `a` stands in `b`, if the two hold the same
/// entries; without it they still do.
proof fn lemma_find_last(a: Seq<CssItem>, b: Seq<CssItem>) -> (i: int)
    requires
        a.to_multiset() == b.to_multiset(),
        a.len() > 0,
    ensures
        0 <= i < b.len(),
        b == b.take(i).push(a.last()) + b.skip(i + 1),
        a.drop_last().to_multiset() == (b.take(i) + b.skip(i + 1)).to_multiset(),
{
    broadcast use vstd::seq_lib::group_to_multiset_ensures;

    assert(a[a.len() - 1] == a.last());
    assert(a.contains(a.last()));
    assert(b.to_multiset().count(a.last()) > 0);
    let i = choose|i: int| 0 <= i < b.len() && b[i] == a.last();
    assert(b == b.take(i).push(a.last()) + b.skip(i + 1));
    assert(a.drop_last() == a.remove(a.len() - 1));
    assert(b.remove(i) == b.take(i) + b.skip(i + 1));
    i
}

proof fn lemma_same_count(
    a: Seq<CssItem>,
    b: Seq<CssItem>,
    reply: spec_fn(Seq<char>) -> Seq<PlacementModel>,
)
    requires
        a.to_multiset() == b.to_multiset(),
    ensures
        total_count(a, reply) == total_count(b, reply),
    decreases a.len(),
{
    a.to_multiset_ensures();
    b.to_multiset_ensures();
    if a.len() > 0 {
        let i = lemma_find_last(a, b);
        let front = b.take(i);
        let back = b.skip(i + 1);
        lemma_same_count(a.drop_last(), front + back, reply);
        lemma_count_concat(front, back, reply);
        lemma_count_concat(front.push(a.last()), back, reply);
        assert(front.push(a.last()).drop_last() == front);
    }
}

proof fn lemma_same_next_level(a: Seq<CssItem>, b: Seq<CssItem>)
    requires
        a.to_multiset() == b.to_multiset(),
    ensures
        walk::next_level(a).to_multiset() == walk::next_level(b).to_multiset(),
    decreases a.len(),
{
    a.to_multiset_ensures();
    b.to_multiset_ensures();
    if a.len() > 0 {
        let i = lemma_find_last(a, b);
        let front = b.take(i);
        let back = b.skip(i + 1);
        let below = css::nested_items(a.last());
        lemma_same_next_level(a.drop_last(), front + back);
        walk::lemma_next_level_concat(front, back);
        walk::lemma_next_level_concat(front.push(a.last()), back);
        assert(front.push(a.last()).drop_last() == front);
        let first = walk::next_level(front);
        let last = walk::next_level(back);
        vstd::seq_lib::lemma_multiset_commutative(walk::next_level(a.drop_last()), below);
        vstd::seq_lib::lemma_multiset_commutative(first, last);
        vstd::seq_lib::lemma_multiset_commutative(first, below);
        vstd::seq_lib::lemma_multiset_commutative(first + below, last);
        assert(walk::next_level(a).to_multiset() =~= walk::next_level(b).to_multiset());
    } else {
        assert(a == b);
    }
}

/// Two blocks with the same entries hold the same entries at every depth.
proof fn lemma_same_walk(a: Seq<CssItem>, b: Seq<CssItem>)
    requires
        a.to_multiset() == b.to_multiset(),
    ensures
        walk::level_order(a).to_multiset() == walk::level_order(b).to_multiset(),
    decreases walk::depth(a),
{
    a.to_multiset_ensures();
    b.to_multiset_ensures();
    if a.len() > 0 {
        walk::lemma_next_level_is_shallower(a);
        lemma_same_next_level(a, b);
        lemma_same_walk(walk::next_level(a), walk::next_level(b));
        vstd::seq_lib::lemma_multiset_commutative(a, walk::level_order(walk::next_level(a)));
        vstd::seq_lib::lemma_multiset_commutative(b, walk::level_order(walk::next_level(b)));
    } else {
        assert(a == b);
    }
}

/// Where no hint stands among `items`, the utility sorts at what any of them
/// brings.
proof fn lemma_sorts_without_hint(
    items: Seq<CssItem>,
    reply: spec_fn(Seq<char>) -> Seq<PlacementModel>,
    positions: Map<Seq<char>, u16>,
    p: u16,
)
    requires
        forall|i: int|
            0 <= i < items.len() ==> !property_sort::is_hint(#[trigger] items[i], positions),
    ensures
        property_sort::sorts_at(items, replies_by(items, reply), positions, p) <==> exists|
            item: CssItem,
        | #[trigger]
            items.contains(item) && positions_of(item, reply, positions).contains(p),
{
    let replies = replies_by(items, reply);
    if property_sort::sorts_at(items, replies, positions, p) {
        let j = choose|j: int|
            0 <= j < items.len() && #[trigger] property_sort::brings(
                items,
                replies,
                positions,
                p,
                j,
            );
        lemma_entry_alone(items, reply, positions, j);
        assert(items.contains(items[j]));
    }
    if exists|item: CssItem| #[trigger]
        items.contains(item) && positions_of(item, reply, positions).contains(p) {
        let item = choose|item: CssItem| #[trigger]
            items.contains(item) && positions_of(item, reply, positions).contains(p);
        let j = choose|j: int| 0 <= j < items.len() && items[j] == item;
        lemma_entry_alone(items, reply, positions, j);
        assert(property_sort::brings(items, replies, positions, p, j));
    }
}

/// In a static `@utility` block without a `--tw-sort:` hint the order of the
/// entries does not matter: two blocks with the same entries sort at the same
/// positions and count the same, where each class gets the same reply.
pub proof fn law_block_order_does_not_matter(
    items: Seq<CssItem>,
    other: Seq<CssItem>,
    reply: spec_fn(Seq<char>) -> Seq<PlacementModel>,
    positions: Map<Seq<char>, u16>,
)
    requires
        items.to_multiset() == other.to_multiset(),
        forall|i: int|
            0 <= i < walk::level_order(items).len() ==> !property_sort::is_hint(
                #[trigger] walk::level_order(items)[i],
                positions,
            ),
    ensures
        property_sort::signature(
            walk::level_order(items),
            replies_by(walk::level_order(items), reply),
            positions,
        ) == property_sort::signature(
            walk::level_order(other),
            replies_by(walk::level_order(other), reply),
            positions,
        ),
        property_sort::declaration_count(
            walk::level_order(items),
            replies_by(walk::level_order(items), reply),
        ) == property_sort::declaration_count(
            walk::level_order(other),
            replies_by(walk::level_order(other), reply),
        ),
{
    broadcast use vstd::seq_lib::group_to_multiset_ensures;

    let a = walk::level_order(items);
    let b = walk::level_order(other);
    lemma_same_walk(items, other);
    lemma_count_by_entry(a, reply, a.len() as int);
    lemma_count_by_entry(b, reply, b.len() as int);
    assert(a.take(a.len() as int) == a);
    assert(b.take(b.len() as int) == b);
    lemma_same_count(a, b, reply);
    assert forall|item: CssItem| #[trigger] a.contains(item) <==> b.contains(item) by {
        assert(a.to_multiset().count(item) == b.to_multiset().count(item));
    }
    assert forall|i: int| 0 <= i < b.len() implies !property_sort::is_hint(
        #[trigger] b[i],
        positions,
    ) by {
        assert(b.contains(b[i]));
        assert(a.contains(b[i]));
        let k = choose|k: int| 0 <= k < a.len() && a[k] == b[i];
        assert(!property_sort::is_hint(a[k], positions));
    }
    let in_a = |p: u16| property_sort::sorts_at(a, replies_by(a, reply), positions, p);
    let in_b = |p: u16| property_sort::sorts_at(b, replies_by(b, reply), positions, p);
    ascending::lemma_ascending(in_a);
    assert forall|p: u16| #[trigger] ascending::ascending(in_a).contains(p) <==> in_b(p) by {
        lemma_sorts_without_hint(a, reply, positions, p);
        lemma_sorts_without_hint(b, reply, positions, p);
        if in_a(p) {
            let item = choose|item: CssItem| #[trigger]
                a.contains(item) && positions_of(item, reply, positions).contains(p);
            assert(b.contains(item));
        }
        if in_b(p) {
            let item = choose|item: CssItem| #[trigger]
                b.contains(item) && positions_of(item, reply, positions).contains(p);
            assert(a.contains(item));
        }
    }
    ascending::lemma_is_ascending_list(ascending::ascending(in_a), in_b);
}

} // verus!
