//! What holds of where a static utility sorts, entry by entry.

use crate::ascending;
use crate::css::{
    CssAtRule, CssDeclaration, CssGenericProperty, CssItem, CssProperty,
};
use crate::declarations;
use crate::property_sort;
use crate::property_sort::{PlacementModel, Reply};
use crate::value_laws;
use vstd::prelude::*;

verus! {

/// Whether an entry is a `--tw-sort:` whose one component is the name of an
/// ordered property.
pub open spec fn hints(item: CssItem, positions: Map<Seq<char>, u16>) -> bool {
    item matches CssItem::Declaration(Some(declaration)) && declaration.property matches Some(
        CssProperty::Generic(property),
    ) && value_laws::is_named(property, "--tw-sort"@) && exists|text: Seq<char>| #[trigger]
        value_laws::is_one_component(property, text) && positions.contains_key(text)
}

/// Whether an entry is a declaration of an ordered property at `p`, or a hint
/// that names one.
pub open spec fn declares_position(
    item: CssItem,
    positions: Map<Seq<char>, u16>,
    p: u16,
) -> bool {
    item matches CssItem::Declaration(Some(declaration)) && declaration.property matches Some(
        CssProperty::Generic(property),
    ) && {
        ||| exists|name: Seq<char>| #[trigger]
            value_laws::is_named(property, name) && name != "--tw-sort"@
                && positions.contains_pair(name, p)
        ||| value_laws::is_named(property, "--tw-sort"@) && exists|text: Seq<char>| #[trigger]
            value_laws::is_one_component(property, text) && positions.contains_pair(text, p)
    }
}

/// Whether candidate `d` of class `c` is placed, with `p` among its positions.
pub open spec fn placed_at(replies: Seq<Seq<PlacementModel>>, c: int, d: int, p: u16) -> bool {
    &&& 0 <= c < replies.len()
    &&& 0 <= d < replies[c].len()
    &&& replies[c][d] matches Some((signature, _)) && signature.contains(p)
}

/// Whether a placed candidate of the classes that an `@apply` names has `p`
/// among its positions.
pub open spec fn applies_position(
    item: CssItem,
    replies: Seq<Seq<PlacementModel>>,
    p: u16,
) -> bool {
    (item matches CssItem::AtRule(Some(CssAtRule::Apply(_)))) && exists|c: int, d: int| #[trigger]
        placed_at(replies, c, d, p)
}

/// The classes of two lists of entries stand one behind the other; an `@apply`
/// names its classes, and no other entry names one.
pub proof fn law_classes(first: Seq<CssItem>, second: Seq<CssItem>, item: CssItem)
    ensures
        property_sort::item_list_classes(first + second) == property_sort::item_list_classes(first)
            + property_sort::item_list_classes(second),
        item matches CssItem::AtRule(Some(CssAtRule::Apply(apply)))
            ==> property_sort::item_list_classes(seq![item]) == property_sort::class_texts(
            apply.classes@,
        ),
        !(item matches CssItem::AtRule(Some(CssAtRule::Apply(_))))
            ==> property_sort::item_list_classes(seq![item]).len() == 0,
        property_sort::item_list_classes(Seq::empty()).len() == 0,
    decreases second.len(),
{
    if second.len() == 0 {
        assert(first + second == first);
        assert(property_sort::item_list_classes(second) == Seq::<Seq<char>>::empty());
    } else {
        law_classes(first, second.drop_last(), item);
        assert((first + second).drop_last() == first + second.drop_last());
        assert(property_sort::item_list_classes(first + second)
            == property_sort::item_list_classes(first) + property_sort::item_list_classes(second));
    }
    lemma_classes_of_one(item);
}

proof fn lemma_classes_of_one(item: CssItem)
    ensures
        property_sort::item_list_classes(seq![item]) == property_sort::item_classes(item),
{
    assert(seq![item].drop_last() == Seq::<CssItem>::empty());
    assert(property_sort::item_list_classes(seq![item].drop_last()) == Seq::<Seq<char>>::empty());
    assert(seq![item].last() == item);
    assert(property_sort::item_list_classes(seq![item]) == property_sort::item_classes(item));
}

/// Each class of an `@apply` that has a text is named by it, in order.
pub proof fn law_class_texts(first: Seq<Option<String>>, class: Option<String>)
    ensures
        class matches Some(text) ==> property_sort::class_texts(first.push(class))
            == property_sort::class_texts(first).push(text@),
        class is None ==> property_sort::class_texts(first.push(class))
            == property_sort::class_texts(first),
        property_sort::class_texts(Seq::empty()).len() == 0,
{
    assert(first.push(class).drop_last() == first);
}

/// What is known of a reply is all of it: each candidate, whether it is
/// placed, its positions and its count.
pub proof fn law_reply_is_kept(replies: Seq<Reply>, c: int, d: int)
    requires
        0 <= c < replies.len(),
        0 <= d < replies[c]@.len(),
    ensures
        property_sort::replies_view(replies).len() == replies.len(),
        property_sort::replies_view(replies)[c].len() == replies[c]@.len(),
        replies[c]@[d] matches Some(placement) ==> property_sort::replies_view(replies)[c][d]
            == Some((placement.signature@, placement.count)),
        replies[c]@[d] is None ==> property_sort::replies_view(replies)[c][d] is None,
{
}

/// The positions and the counts of several classes add up, and so do those of
/// the candidates of one class. A candidate that is not placed adds nothing.
pub proof fn law_placements_add_up(
    first: Seq<Seq<PlacementModel>>,
    second: Seq<Seq<PlacementModel>>,
    reply: Seq<PlacementModel>,
    candidate: PlacementModel,
)
    ensures
        property_sort::applied_positions(first + second) == property_sort::applied_positions(first)
            + property_sort::applied_positions(second),
        property_sort::applied_count(first + second) == property_sort::applied_count(first)
            + property_sort::applied_count(second),
        property_sort::applied_positions(seq![reply.push(candidate)])
            == property_sort::applied_positions(seq![reply]) + match candidate {
            Some((signature, _)) => signature,
            None => Seq::empty(),
        },
        property_sort::applied_count(seq![reply.push(candidate)]) == property_sort::applied_count(
            seq![reply],
        ) + match candidate {
            Some((_, count)) => count as nat,
            None => 0,
        },
        property_sort::applied_positions(Seq::empty()).len() == 0,
        property_sort::applied_positions(seq![Seq::empty()]).len() == 0,
        property_sort::applied_count(Seq::empty()) == 0,
        property_sort::applied_count(seq![Seq::empty()]) == 0,
    decreases second.len(),
{
    if second.len() == 0 {
        assert(first + second == first);
        assert(property_sort::applied_positions(second) == Seq::<u16>::empty());
    } else {
        law_placements_add_up(first, second.drop_last(), reply, candidate);
        assert((first + second).drop_last() == first + second.drop_last());
        assert(property_sort::applied_positions(first + second)
            == property_sort::applied_positions(first) + property_sort::applied_positions(second));
    }
    lemma_one_reply(reply);
    lemma_one_reply(reply.push(candidate));
    lemma_one_reply(Seq::empty());
    assert(reply.push(candidate).drop_last() == reply);
    if candidate is None {
        assert(property_sort::reply_positions(reply) + Seq::<u16>::empty()
            == property_sort::reply_positions(reply));
    }
}

proof fn lemma_one_reply(reply: Seq<PlacementModel>)
    ensures
        property_sort::applied_positions(seq![reply]) == property_sort::reply_positions(reply),
        property_sort::applied_count(seq![reply]) == property_sort::reply_count(reply),
{
    let one = seq![reply];
    assert(one.drop_last() == Seq::<Seq<PlacementModel>>::empty());
    assert(property_sort::applied_positions(one.drop_last()) == Seq::<u16>::empty());
    assert(property_sort::applied_count(one.drop_last()) == 0);
    assert(one.last() == reply);
    assert(property_sort::applied_positions(one) == property_sort::reply_positions(reply));
}

proof fn lemma_reply_positions(reply: Seq<PlacementModel>, p: u16)
    ensures
        property_sort::reply_positions(reply).contains(p) <==> exists|d: int|
            0 <= d < reply.len() && (#[trigger] reply[d] matches Some((signature, _))
                && signature.contains(p)),
    decreases reply.len(),
{
    if reply.len() > 0 {
        let front = reply.drop_last();
        lemma_reply_positions(front, p);
        let before = property_sort::reply_positions(front);
        let all = property_sort::reply_positions(reply);
        if all.contains(p) {
            let k = choose|k: int| 0 <= k < all.len() && all[k] == p;
            if k < before.len() {
                assert(before[k] == p);
                assert(before.contains(p));
                let d = choose|d: int|
                    0 <= d < front.len() && (#[trigger] front[d] matches Some((signature, _))
                        && signature.contains(p));
                assert(reply[d] == front[d]);
            } else {
                let last = reply[reply.len() - 1];
                if let Some((signature, _)) = last {
                    assert(signature[k - before.len()] == p);
                    assert(signature.contains(p));
                }
            }
        }
        if exists|d: int|
            0 <= d < reply.len() && (#[trigger] reply[d] matches Some((signature, _))
                && signature.contains(p)) {
            let d = choose|d: int|
                0 <= d < reply.len() && (#[trigger] reply[d] matches Some((signature, _))
                    && signature.contains(p));
            if d < front.len() {
                assert(front[d] == reply[d]);
                let k = choose|k: int| 0 <= k < before.len() && before[k] == p;
                assert(all[k] == p);
            } else if let Some((signature, _)) = reply.last() {
                let k = choose|k: int| 0 <= k < signature.len() && signature[k] == p;
                assert(all[before.len() + k] == p);
            }
        }
    }
}

proof fn lemma_applied_positions(replies: Seq<Seq<PlacementModel>>, p: u16)
    ensures
        property_sort::applied_positions(replies).contains(p) <==> exists|c: int, d: int| #[trigger]
            placed_at(replies, c, d, p),
    decreases replies.len(),
{
    if replies.len() > 0 {
        let front = replies.drop_last();
        let last = replies.last();
        lemma_applied_positions(front, p);
        lemma_reply_positions(last, p);
        let before = property_sort::applied_positions(front);
        let here = property_sort::reply_positions(last);
        let all = property_sort::applied_positions(replies);
        assert(all == before + here);
        if all.contains(p) {
            let k = choose|k: int| 0 <= k < all.len() && all[k] == p;
            if k < before.len() {
                assert(before[k] == p);
                let (c, d) = choose|c: int, d: int| #[trigger] placed_at(front, c, d, p);
                assert(front[c] == replies[c]);
                assert(placed_at(replies, c, d, p));
            } else {
                assert(here[k - before.len()] == p);
                assert(here.contains(p));
                let d = choose|d: int|
                    0 <= d < last.len() && (#[trigger] last[d] matches Some((signature, _))
                        && signature.contains(p));
                assert(placed_at(replies, replies.len() - 1, d, p));
            }
        }
        if exists|c: int, d: int| #[trigger] placed_at(replies, c, d, p) {
            let (c, d) = choose|c: int, d: int| #[trigger] placed_at(replies, c, d, p);
            if c < front.len() {
                assert(front[c] == replies[c]);
                assert(placed_at(front, c, d, p));
                let k = choose|k: int| 0 <= k < before.len() && before[k] == p;
                assert(all[k] == p);
            } else {
                assert(last[d] == replies[c][d]);
                let k = choose|k: int| 0 <= k < here.len() && here[k] == p;
                assert(all[before.len() + k] == p);
            }
        }
    }
}

proof fn lemma_declared(item: CssItem, positions: Map<Seq<char>, u16>, p: u16)
    ensures
        property_sort::is_hint(item, positions) == hints(item, positions),
        item matches CssItem::Declaration(Some(declaration)) ==> (
        property_sort::declared_position(declaration, positions) == Some(p) <==> declares_position(
            item,
            positions,
            p,
        )),
{
    if let CssItem::Declaration(Some(declaration)) = item {
        if let Some(CssProperty::Generic(property)) = declaration.property {
            if let Some((name, _)) = declarations::named_property(declaration) {
                assert(value_laws::is_named(property, name));
            }
            if let Some(text) = declarations::single_value(property) {
                assert(value_laws::is_one_component(property, text));
            }
        }
    }
}

/// What the first entries bring is up to them and to the replies to their
/// classes.
proof fn lemma_front(
    items: Seq<CssItem>,
    item: CssItem,
    replies: Seq<Seq<PlacementModel>>,
    mine: Seq<Seq<PlacementModel>>,
    positions: Map<Seq<char>, u16>,
    j: int,
)
    requires
        replies.len() == property_sort::item_list_classes(items).len(),
        0 <= j < items.len(),
    ensures
        property_sort::item_positions(items.push(item), replies + mine, positions, j)
            == property_sort::item_positions(items, replies, positions, j),
        property_sort::item_count(items.push(item), replies + mine, j)
            == property_sort::item_count(items, replies, j),
{
    let all = items.push(item);
    property_sort::lemma_class_texts_len(items, j);
    assert(all.take(j) == items.take(j));
    assert(all.take(j + 1) == items.take(j + 1));
    assert(property_sort::item_replies(all, replies + mine, j) == property_sort::item_replies(
        items,
        replies,
        j,
    ));
}

proof fn lemma_front_count(
    items: Seq<CssItem>,
    item: CssItem,
    replies: Seq<Seq<PlacementModel>>,
    mine: Seq<Seq<PlacementModel>>,
    n: int,
)
    requires
        replies.len() == property_sort::item_list_classes(items).len(),
        0 <= n <= items.len(),
    ensures
        property_sort::count_of_first(items.push(item), replies + mine, n)
            == property_sort::count_of_first(items, replies, n),
    decreases n,
{
    if n > 0 {
        lemma_front_count(items, item, replies, mine, n - 1);
        lemma_front(items, item, replies, mine, Map::empty(), n - 1);
    }
}

proof fn lemma_last_replies(
    items: Seq<CssItem>,
    item: CssItem,
    replies: Seq<Seq<PlacementModel>>,
    mine: Seq<Seq<PlacementModel>>,
)
    requires
        replies.len() == property_sort::item_list_classes(items).len(),
        mine.len() == property_sort::item_list_classes(seq![item]).len(),
    ensures
        property_sort::item_replies(items.push(item), replies + mine, items.len() as int) == mine,
{
    let all = items.push(item);
    let n = items.len() as int;
    lemma_classes_of_one(item);
    property_sort::lemma_class_texts_len(all, n);
    assert(all.take(n) == items);
    assert(all.take(n + 1) == all);
    assert(property_sort::item_replies(all, replies + mine, n) == mine);
}

/// One more entry adds its positions, unless a hint stands before it: those of
/// a declaration of an ordered property, of a hint, or of the placed
/// candidates of an `@apply`, and nothing else.
pub proof fn law_one_more_entry_sorts(
    items: Seq<CssItem>,
    item: CssItem,
    replies: Seq<Seq<PlacementModel>>,
    mine: Seq<Seq<PlacementModel>>,
    positions: Map<Seq<char>, u16>,
    p: u16,
)
    requires
        replies.len() == property_sort::item_list_classes(items).len(),
        mine.len() == property_sort::item_list_classes(seq![item]).len(),
    ensures
        property_sort::signature(items.push(item), replies + mine, positions).contains(p)
            <==> property_sort::signature(items, replies, positions).contains(p) || ((forall|i: int|
            0 <= i < items.len() ==> !hints(#[trigger] items[i], positions)) && (
        declares_position(item, positions, p) || applies_position(item, mine, p))),
        property_sort::signature(Seq::empty(), Seq::empty(), positions).len() == 0,
{
    let all = items.push(item);
    let replies_all = replies + mine;
    let n = items.len() as int;
    lemma_signature(all, replies_all, positions, p);
    lemma_signature(items, replies, positions, p);
    lemma_last_replies(items, item, replies, mine);
    lemma_declared(item, positions, p);
    lemma_applied_positions(mine, p);
    assert(property_sort::item_positions(all, replies_all, positions, n).contains(p) <==> (
    declares_position(item, positions, p) || applies_position(item, mine, p))) by {
        assert(all[n] == item);
        if let CssItem::Declaration(Some(declaration)) = item {
            if let Some(q) = property_sort::declared_position(declaration, positions) {
                assert(seq![q][0] == q);
                lemma_declared(item, positions, q);
            }
        }
    }
    assert forall|i: int| 0 <= i < items.len() implies property_sort::is_hint(
        #[trigger] items[i],
        positions,
    ) == hints(items[i], positions) by {
        lemma_declared(items[i], positions, p);
    }
    assert forall|j: int| 0 <= j < n implies #[trigger] property_sort::brings(
        all,
        replies_all,
        positions,
        p,
        j,
    ) == property_sort::brings(items, replies, positions, p, j) by {
        lemma_front(items, item, replies, mine, positions, j);
        if property_sort::brings(all, replies_all, positions, p, j) {
            assert forall|i: int| 0 <= i < j implies !property_sort::is_hint(
                #[trigger] items[i],
                positions,
            ) by {
                assert(all[i] == items[i]);
            }
        }
        if property_sort::brings(items, replies, positions, p, j) {
            assert forall|i: int| 0 <= i < j implies !property_sort::is_hint(
                #[trigger] all[i],
                positions,
            ) by {
                assert(all[i] == items[i]);
            }
        }
    }
    if property_sort::sorts_at(all, replies_all, positions, p) {
        let j = choose|j: int|
            0 <= j < n + 1 && #[trigger] property_sort::brings(all, replies_all, positions, p, j);
        if j < n {
            assert(property_sort::brings(items, replies, positions, p, j));
        } else {
            assert forall|i: int| 0 <= i < items.len() implies !hints(
                #[trigger] items[i],
                positions,
            ) by {
                assert(all[i] == items[i]);
            }
        }
    }
    if property_sort::sorts_at(items, replies, positions, p) {
        let j = choose|j: int|
            0 <= j < n && #[trigger] property_sort::brings(items, replies, positions, p, j);
        assert(property_sort::brings(all, replies_all, positions, p, j));
    }
    if (forall|i: int| 0 <= i < items.len() ==> !hints(#[trigger] items[i], positions)) && (
    declares_position(item, positions, p) || applies_position(item, mine, p)) {
        assert forall|i: int| 0 <= i < n implies !property_sort::is_hint(
            #[trigger] all[i],
            positions,
        ) by {
            assert(all[i] == items[i]);
        }
        assert(property_sort::brings(all, replies_all, positions, p, n));
    }
    lemma_empty_signature(positions);
}

proof fn lemma_empty_signature(positions: Map<Seq<char>, u16>)
    ensures
        property_sort::signature(Seq::empty(), Seq::empty(), positions).len() == 0,
{
    let none = property_sort::signature(Seq::empty(), Seq::empty(), positions);
    if none.len() > 0 {
        assert(none.contains(none[0]));
        lemma_signature(Seq::empty(), Seq::empty(), positions, none[0]);
    }
}

proof fn lemma_signature(
    items: Seq<CssItem>,
    replies: Seq<Seq<PlacementModel>>,
    positions: Map<Seq<char>, u16>,
    p: u16,
)
    ensures
        property_sort::signature(items, replies, positions).contains(p)
            <==> property_sort::sorts_at(items, replies, positions, p),
{
    let wanted = |q: u16| property_sort::sorts_at(items, replies, positions, q);
    ascending::lemma_ascending(wanted);
    assert(wanted(p) == property_sort::sorts_at(items, replies, positions, p));
}

/// The positions stand from the smallest to the largest, each once.
pub proof fn law_positions_ascend(
    items: Seq<CssItem>,
    replies: Seq<Seq<PlacementModel>>,
    positions: Map<Seq<char>, u16>,
    i: int,
    j: int,
)
    requires
        0 <= i < j < property_sort::signature(items, replies, positions).len(),
    ensures
        property_sort::signature(items, replies, positions)[i] < property_sort::signature(
            items,
            replies,
            positions,
        )[j],
{
    ascending::lemma_ascending(|q: u16| property_sort::sorts_at(items, replies, positions, q));
}

/// One more entry adds one to the count where it is a declaration, the
/// declarations of its classes where it is an `@apply`, and nothing otherwise.
/// The count stops at 255.
pub proof fn law_one_more_entry_counts(
    items: Seq<CssItem>,
    item: CssItem,
    replies: Seq<Seq<PlacementModel>>,
    mine: Seq<Seq<PlacementModel>>,
)
    requires
        replies.len() == property_sort::item_list_classes(items).len(),
        mine.len() == property_sort::item_list_classes(seq![item]).len(),
    ensures
        ({
            let before = property_sort::declaration_count(items, replies);
            let after = property_sort::declaration_count(items.push(item), replies + mine);
            let added: nat = match item {
                CssItem::Declaration(Some(_)) => 1,
                CssItem::AtRule(Some(CssAtRule::Apply(_))) => property_sort::applied_count(mine),
                _ => 0,
            };
            if before + added <= 255 {
                after == before + added
            } else {
                after == 255
            }
        }),
        property_sort::declaration_count(Seq::empty(), Seq::empty()) == 0,
{
    lemma_front_count(items, item, replies, mine, items.len() as int);
    lemma_last_replies(items, item, replies, mine);
    assert(items.push(item)[items.len() as int] == item);
    assert(property_sort::count_of_first(Seq::empty(), Seq::empty(), 0) == 0);
}

/// A utility sorts at the position of every ordered property that it declares
/// before the first hint, whatever the value of the declaration is.
pub proof fn law_declared_property_sorts(
    items: Seq<CssItem>,
    replies: Seq<Seq<PlacementModel>>,
    positions: Map<Seq<char>, u16>,
    j: int,
    declaration: CssDeclaration,
    property: CssGenericProperty,
    name: Seq<char>,
)
    requires
        0 <= j < items.len(),
        items[j] == CssItem::Declaration(Some(declaration)),
        value_laws::sets_property(declaration, property, name),
        name != "--tw-sort"@,
        positions.contains_key(name),
        forall|i: int| 0 <= i < j ==> !hints(#[trigger] items[i], positions),
    ensures
        property_sort::signature(items, replies, positions).contains(positions[name]),
{
    let p = positions[name];
    lemma_signature(items, replies, positions, p);
    assert(value_laws::is_named(property, name));
    lemma_declared(items[j], positions, p);
    assert(seq![p][0] == p);
    assert forall|i: int| 0 <= i < j implies !property_sort::is_hint(
        #[trigger] items[i],
        positions,
    ) by {
        lemma_declared(items[i], positions, p);
    }
    assert(property_sort::brings(items, replies, positions, p, j));
}

proof fn lemma_classes_updated(items: Seq<CssItem>, j: int, other: CssItem, n: int)
    requires
        0 <= j < items.len(),
        0 <= n <= items.len(),
        items[j] is Declaration,
        other is Declaration,
    ensures
        property_sort::item_list_classes(items.update(j, other).take(n))
            == property_sort::item_list_classes(items.take(n)),
    decreases n,
{
    if n > 0 {
        lemma_classes_updated(items, j, other, n - 1);
        assert(items.take(n).drop_last() == items.take(n - 1));
        assert(items.update(j, other).take(n).drop_last() == items.update(j, other).take(n - 1));
    }
}

proof fn lemma_count_updated(
    items: Seq<CssItem>,
    replies: Seq<Seq<PlacementModel>>,
    j: int,
    one: CssDeclaration,
    other: CssDeclaration,
    n: int,
)
    requires
        0 <= j < items.len(),
        0 <= n <= items.len(),
        items[j] == CssItem::Declaration(Some(one)),
    ensures
        property_sort::count_of_first(
            items.update(j, CssItem::Declaration(Some(other))),
            replies,
            n,
        ) == property_sort::count_of_first(items, replies, n),
    decreases n,
{
    if n > 0 {
        let new = CssItem::Declaration(Some(other));
        lemma_count_updated(items, replies, j, one, other, n - 1);
        lemma_classes_updated(items, j, new, n - 1);
        lemma_classes_updated(items, j, new, n);
        assert(property_sort::item_replies(items.update(j, new), replies, n - 1)
            == property_sort::item_replies(items, replies, n - 1));
    }
}

/// Another value of a declaration that is no `--tw-sort:` changes neither the
/// positions of a utility nor its count.
pub proof fn law_value_does_not_matter(
    items: Seq<CssItem>,
    replies: Seq<Seq<PlacementModel>>,
    positions: Map<Seq<char>, u16>,
    j: int,
    one: CssDeclaration,
    other: CssDeclaration,
    property: CssGenericProperty,
    other_property: CssGenericProperty,
    name: Seq<char>,
)
    requires
        0 <= j < items.len(),
        items[j] == CssItem::Declaration(Some(one)),
        value_laws::sets_property(one, property, name),
        value_laws::sets_property(other, other_property, name),
        name != "--tw-sort"@,
    ensures
        property_sort::signature(
            items.update(j, CssItem::Declaration(Some(other))),
            replies,
            positions,
        ) == property_sort::signature(items, replies, positions),
        property_sort::declaration_count(
            items.update(j, CssItem::Declaration(Some(other))),
            replies,
        ) == property_sort::declaration_count(items, replies),
{
    let new = CssItem::Declaration(Some(other));
    let changed = items.update(j, new);
    lemma_count_updated(items, replies, j, one, other, items.len() as int);
    assert forall|i: int| 0 <= i < items.len() implies property_sort::is_hint(
        #[trigger] changed[i],
        positions,
    ) == property_sort::is_hint(items[i], positions) by {}
    assert forall|i: int| 0 <= i < items.len() implies #[trigger] property_sort::item_positions(
        changed,
        replies,
        positions,
        i,
    ) == property_sort::item_positions(items, replies, positions, i) by {
        lemma_classes_updated(items, j, new, i);
        lemma_classes_updated(items, j, new, i + 1);
        assert(property_sort::item_replies(changed, replies, i) == property_sort::item_replies(
            items,
            replies,
            i,
        ));
    }
    let wanted = |p: u16| property_sort::sorts_at(items, replies, positions, p);
    let new_wanted = |p: u16| property_sort::sorts_at(changed, replies, positions, p);
    ascending::lemma_ascending(new_wanted);
    assert forall|p: u16| #[trigger]
        ascending::ascending(new_wanted).contains(p) <==> wanted(p) by {
        assert forall|k: int| 0 <= k < items.len() implies #[trigger] property_sort::brings(
            changed,
            replies,
            positions,
            p,
            k,
        ) == property_sort::brings(items, replies, positions, p, k) by {
            assert(property_sort::item_positions(changed, replies, positions, k)
                == property_sort::item_positions(items, replies, positions, k));
            assert forall|i: int| 0 <= i < k implies property_sort::is_hint(
                #[trigger] items[i],
                positions,
            ) == property_sort::is_hint(changed[i], positions) by {
                assert(property_sort::is_hint(changed[i], positions) == property_sort::is_hint(
                    items[i],
                    positions,
                ));
            }
        }
        if new_wanted(p) {
            let k = choose|k: int|
                0 <= k < changed.len() && #[trigger] property_sort::brings(
                    changed,
                    replies,
                    positions,
                    p,
                    k,
                );
            assert(property_sort::brings(items, replies, positions, p, k));
        }
        if wanted(p) {
            let k = choose|k: int|
                0 <= k < items.len() && #[trigger] property_sort::brings(
                    items,
                    replies,
                    positions,
                    p,
                    k,
                );
            assert(property_sort::brings(changed, replies, positions, p, k));
        }
    }
    ascending::lemma_is_ascending_list(ascending::ascending(new_wanted), wanted);
}

/// A sum that fits is the sum.
pub proof fn law_sum_that_fits(count: nat)
    ensures
        count <= usize::MAX ==> property_sort::saturated(count) == count,
        count > usize::MAX ==> property_sort::saturated(count) == usize::MAX,
{
}

} // verus!
