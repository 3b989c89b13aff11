//! Where a static utility sorts.

use crate::ascending;
use crate::css::{CssAtRule, CssDeclaration, CssItem, TwApplyAtRule};
use crate::declarations;
use crate::properties;
use crate::properties::PropertyIndex;
use crate::text;
use crate::walk;
use vstd::prelude::*;
use vstd::slice::slice_subrange;

verus! {

/// Where a class sorts: the positions of its properties, and the number of
/// its declarations.
#[derive(Debug, PartialEq, Eq)]
pub struct UtilityPlacement {
    /// The positions of its properties in the property order.
    pub signature: Vec<u16>,
    /// The number of its declarations.
    pub count: u8,
}

/// What the class parser and the sorter reply to one class: one entry for
/// each candidate, `None` where the sorter cannot place it.
pub type Reply = Vec<Option<UtilityPlacement>>;

/// The positions and the count of a placement.
pub type PlacementModel = Option<(Seq<u16>, u8)>;

impl View for UtilityPlacement {
    type V = (Seq<u16>, u8);

    open spec fn view(&self) -> (Seq<u16>, u8) {
        (self.signature@, self.count)
    }
}

/// What a reply says.
pub open spec fn reply_view(reply: Seq<Option<UtilityPlacement>>) -> Seq<PlacementModel> {
    reply.map_values(
        |placement: Option<UtilityPlacement>|
            match placement {
                Some(p) => Some(p@),
                None => None,
            },
    )
}

/// What a list of replies says.
pub open spec fn replies_view(replies: Seq<Reply>) -> Seq<Seq<PlacementModel>> {
    replies.map_values(|reply: Reply| reply_view(reply@))
}

/// The classes that an entry applies.
pub open spec fn item_classes(item: CssItem) -> Seq<Seq<char>> {
    match item {
        CssItem::AtRule(Some(CssAtRule::Apply(apply))) => class_texts(apply.classes@),
        _ => Seq::empty(),
    }
}

/// The texts among `classes`.
pub open spec fn class_texts(classes: Seq<Option<String>>) -> Seq<Seq<char>>
    decreases classes.len(),
{
    if classes.len() == 0 {
        Seq::empty()
    } else {
        match classes.last() {
            Some(class) => class_texts(classes.drop_last()).push(class@),
            None => class_texts(classes.drop_last()),
        }
    }
}

/// The classes that `items` apply, in their order.
pub open spec fn item_list_classes(items: Seq<CssItem>) -> Seq<Seq<char>>
    decreases items.len(),
{
    if items.len() == 0 {
        Seq::empty()
    } else {
        item_list_classes(items.drop_last()) + item_classes(items.last())
    }
}

/// The positions that the placed candidates of one class bring, in order.
pub open spec fn reply_positions(reply: Seq<PlacementModel>) -> Seq<u16>
    decreases reply.len(),
{
    if reply.len() == 0 {
        Seq::empty()
    } else {
        match reply.last() {
            Some((signature, _)) => reply_positions(reply.drop_last()) + signature,
            None => reply_positions(reply.drop_last()),
        }
    }
}

/// The number of declarations that the placed candidates of one class bring.
pub open spec fn reply_count(reply: Seq<PlacementModel>) -> nat
    decreases reply.len(),
{
    if reply.len() == 0 {
        0
    } else {
        match reply.last() {
            Some((_, count)) => reply_count(reply.drop_last()) + count as nat,
            None => reply_count(reply.drop_last()),
        }
    }
}

/// The positions that a list of classes brings, in order.
pub open spec fn applied_positions(replies: Seq<Seq<PlacementModel>>) -> Seq<u16>
    decreases replies.len(),
{
    if replies.len() == 0 {
        Seq::empty()
    } else {
        applied_positions(replies.drop_last()) + reply_positions(replies.last())
    }
}

/// The number of declarations that a list of classes brings.
pub open spec fn applied_count(replies: Seq<Seq<PlacementModel>>) -> nat
    decreases replies.len(),
{
    if replies.len() == 0 {
        0
    } else {
        applied_count(replies.drop_last()) + reply_count(replies.last())
    }
}

/// The position that a declaration sorts at.
pub open spec fn declared_position(
    declaration: CssDeclaration,
    positions: Map<Seq<char>, u16>,
) -> Option<u16> {
    match declarations::named_property(declaration) {
        Some((name, property)) => if name == "--tw-sort"@ {
            declarations::hinted_position(name, property, positions)
        } else {
            properties::position_of(positions, name)
        },
        None => None,
    }
}

/// Whether an entry is a `--tw-sort:` hint that names an ordered property.
pub open spec fn is_hint(item: CssItem, positions: Map<Seq<char>, u16>) -> bool {
    match item {
        CssItem::Declaration(Some(declaration)) => match declarations::named_property(
            declaration,
        ) {
            Some((name, property)) => declarations::hinted_position(
                name,
                property,
                positions,
            ) is Some,
            None => false,
        },
        _ => false,
    }
}

/// Among the replies to the classes that `items` apply, those to the classes
/// that entry `j` applies.
pub open spec fn item_replies(
    items: Seq<CssItem>,
    replies: Seq<Seq<PlacementModel>>,
    j: int,
) -> Seq<Seq<PlacementModel>> {
    replies.subrange(
        item_list_classes(items.take(j)).len() as int,
        item_list_classes(items.take(j + 1)).len() as int,
    )
}

/// The positions that entry `j` brings.
pub open spec fn item_positions(
    items: Seq<CssItem>,
    replies: Seq<Seq<PlacementModel>>,
    positions: Map<Seq<char>, u16>,
    j: int,
) -> Seq<u16> {
    match items[j] {
        CssItem::Declaration(Some(declaration)) => match declared_position(
            declaration,
            positions,
        ) {
            Some(position) => seq![position],
            None => Seq::empty(),
        },
        CssItem::AtRule(Some(CssAtRule::Apply(_))) => applied_positions(
            item_replies(items, replies, j),
        ),
        _ => Seq::empty(),
    }
}

/// The number of declarations that entry `j` brings.
pub open spec fn item_count(
    items: Seq<CssItem>,
    replies: Seq<Seq<PlacementModel>>,
    j: int,
) -> nat {
    match items[j] {
        CssItem::Declaration(Some(_)) => 1,
        CssItem::AtRule(Some(CssAtRule::Apply(_))) => applied_count(
            item_replies(items, replies, j),
        ),
        _ => 0,
    }
}

/// Whether entry `j` brings the position `p`, and no hint stands before it.
pub open spec fn brings(
    items: Seq<CssItem>,
    replies: Seq<Seq<PlacementModel>>,
    positions: Map<Seq<char>, u16>,
    p: u16,
    j: int,
) -> bool {
    &&& forall|i: int| 0 <= i < j ==> !is_hint(#[trigger] items[i], positions)
    &&& item_positions(items, replies, positions, j).contains(p)
}

/// Whether one of the first `n` entries brings the position `p`, and no hint
/// stands before it.
pub open spec fn first_bring(
    items: Seq<CssItem>,
    replies: Seq<Seq<PlacementModel>>,
    positions: Map<Seq<char>, u16>,
    p: u16,
    n: int,
) -> bool {
    exists|j: int| 0 <= j < n && #[trigger] brings(items, replies, positions, p, j)
}

/// Whether an entry no later than the first hint brings the position `p`.
pub open spec fn sorts_at(
    items: Seq<CssItem>,
    replies: Seq<Seq<PlacementModel>>,
    positions: Map<Seq<char>, u16>,
    p: u16,
) -> bool {
    first_bring(items, replies, positions, p, items.len() as int)
}

/// The number of declarations that the first `n` entries bring.
pub open spec fn count_of_first(
    items: Seq<CssItem>,
    replies: Seq<Seq<PlacementModel>>,
    n: int,
) -> nat
    decreases n,
{
    if n <= 0 {
        0
    } else {
        count_of_first(items, replies, n - 1) + item_count(items, replies, n - 1)
    }
}

/// The positions at which a utility with the entries `items` sorts, in
/// ascending order.
pub open spec fn signature(
    items: Seq<CssItem>,
    replies: Seq<Seq<PlacementModel>>,
    positions: Map<Seq<char>, u16>,
) -> Seq<u16> {
    ascending::ascending(|p: u16| sorts_at(items, replies, positions, p))
}

/// The number of declarations that `items` bring, where it fits in a byte;
/// the largest byte otherwise.
pub open spec fn declaration_count(
    items: Seq<CssItem>,
    replies: Seq<Seq<PlacementModel>>,
) -> u8 {
    let count = count_of_first(items, replies, items.len() as int);
    if count > u8::MAX {
        u8::MAX
    } else {
        count as u8
    }
}

/// One more entry applies its classes behind those before it.
pub proof fn lemma_class_texts_len(items: Seq<CssItem>, j: int)
    requires
        0 <= j < items.len(),
    ensures
        item_list_classes(items.take(j + 1)) == item_list_classes(items.take(j)) + item_classes(
            items[j],
        ),
        item_list_classes(items.take(j + 1)).len() <= item_list_classes(items).len(),
    decreases items.len() - j,
{
    assert(items.take(j + 1).drop_last() == items.take(j));
    if j + 1 < items.len() {
        lemma_class_texts_len(items, j + 1);
    } else {
        assert(items.take(j + 1) == items);
    }
}

/// The classes that an `@utility` block applies, breadth first.
pub fn applied_classes(items: &Vec<CssItem>) -> (classes: Vec<&String>)
    ensures
        classes@.map_values(|class: &String| class@) == item_list_classes(
            walk::level_order(items@),
        ),
{
    let order = walk::breadth_first(items);
    let mut classes: Vec<&String> = Vec::new();
    let mut i: usize = 0;
    assert(classes@.map_values(|class: &String| class@) == Seq::<Seq<char>>::empty());
    while i < order.len()
        invariant
            i <= order@.len(),
            classes@.map_values(|class: &String| class@) == item_list_classes(
                order@.unref().take(i as int),
            ),
        decreases order@.len() - i,
    {
        assert(order@.unref().take(i + 1).drop_last() == order@.unref().take(i as int));
        if let CssItem::AtRule(Some(CssAtRule::Apply(apply))) = order[i] {
            push_class_texts(apply, &mut classes);
        }
        i += 1;
    }
    assert(order@.unref().take(i as int) == order@.unref());
    classes
}

fn push_class_texts<'a>(apply: &'a TwApplyAtRule, classes: &mut Vec<&'a String>)
    ensures
        final(classes)@.map_values(|class: &String| class@) == old(classes)@.map_values(
            |class: &String| class@,
        ) + class_texts(apply.classes@),
{
    let mut i: usize = 0;
    while i < apply.classes.len()
        invariant
            i <= apply.classes@.len(),
            classes@.map_values(|class: &String| class@) == old(classes)@.map_values(
                |class: &String| class@,
            ) + class_texts(apply.classes@.take(i as int)),
        decreases apply.classes@.len() - i,
    {
        assert(apply.classes@.take(i + 1).drop_last() == apply.classes@.take(i as int));
        if let Some(class) = &apply.classes[i] {
            let ghost before = classes@.map_values(|class: &String| class@);
            classes.push(class);
            assert(classes@.map_values(|class: &String| class@) == before.push(class@));
        }
        i += 1;
    }
    assert(apply.classes@.take(i as int) == apply.classes@);
}

/// The sum, or the largest number where it is larger than that.
pub open spec fn saturated(count: nat) -> usize {
    if count > usize::MAX {
        usize::MAX
    } else {
        count as usize
    }
}

/// The property positions and declaration count `@apply a b c` contributes,
/// given the replies to the classes: classes the sorter cannot place
/// contribute nothing.
pub fn apply_property_sort(replies: &[Reply]) -> (sort: (Vec<u16>, usize))
    ensures
        sort.0@ == applied_positions(replies_view(replies@)),
        sort.1 == saturated(applied_count(replies_view(replies@))),
{
    let mut indices: Vec<u16> = Vec::new();
    let mut count: usize = 0;
    let ghost view = replies_view(replies@);
    let mut i: usize = 0;
    while i < replies.len()
        invariant
            i <= replies@.len(),
            view == replies_view(replies@),
            indices@ == applied_positions(view.take(i as int)),
            count == saturated(applied_count(view.take(i as int))),
        decreases replies@.len() - i,
    {
        let reply = &replies[i];
        let ghost candidates = reply_view(reply@);
        let ghost indices_before = indices@;
        let ghost count_before = applied_count(view.take(i as int));
        proof {
            assert(view.take(i + 1).drop_last() == view.take(i as int));
            assert(view[i as int] == candidates);
        }
        let mut j: usize = 0;
        while j < reply.len()
            invariant
                j <= reply@.len(),
                candidates == reply_view(reply@),
                indices@ == indices_before + reply_positions(candidates.take(j as int)),
                count == saturated(count_before + reply_count(candidates.take(j as int))),
            decreases reply@.len() - j,
        {
            assert(candidates.take(j + 1).drop_last() == candidates.take(j as int));
            if let Some(placement) = &reply[j] {
                push_positions(&mut indices, &placement.signature);
                count = count.saturating_add(placement.count as usize);
            }
            j += 1;
        }
        assert(candidates.take(j as int) == candidates);
        i += 1;
    }
    assert(view.take(i as int) == view);
    (indices, count)
}

fn push_positions(indices: &mut Vec<u16>, more: &Vec<u16>)
    ensures
        final(indices)@ == old(indices)@ + more@,
{
    let mut i: usize = 0;
    while i < more.len()
        invariant
            i <= more@.len(),
            indices@ == old(indices)@ + more@.take(i as int),
        decreases more@.len() - i,
    {
        indices.push(more[i]);
        assert(more@.take(i + 1) == more@.take(i as int).push(more@[i as int]));
        i += 1;
    }
    assert(more@.take(i as int) == more@);
}

fn insert_positions(indices: &mut Vec<u16>, more: &Vec<u16>)
    requires
        ascending::is_ascending(old(indices)@),
    ensures
        ascending::is_ascending(final(indices)@),
        forall|p: u16| #[trigger]
            final(indices)@.contains(p) <==> old(indices)@.contains(p) || more@.contains(p),
{
    let mut i: usize = 0;
    while i < more.len()
        invariant
            i <= more@.len(),
            ascending::is_ascending(indices@),
            forall|p: u16| #[trigger]
                indices@.contains(p) <==> old(indices)@.contains(p) || more@.take(
                    i as int,
                ).contains(p),
        decreases more@.len() - i,
    {
        let ghost before = more@.take(i as int);
        let ghost after = more@.take(i + 1);
        proof {
            assert(after == before.push(more@[i as int]));
            assert forall|p: u16| #[trigger] after.contains(p) <==> before.contains(p) || p
                == more@[i as int] by {
                if before.contains(p) {
                    let k = choose|k: int| 0 <= k < before.len() && before[k] == p;
                    assert(after[k] == p);
                }
                assert(after[i as int] == more@[i as int]);
            }
        }
        ascending::insert_position(indices, more[i]);
        i += 1;
    }
    assert(more@.take(i as int) == more@);
}

fn count_class_texts(apply: &TwApplyAtRule) -> (count: usize)
    ensures
        count == class_texts(apply.classes@).len(),
{
    let mut count: usize = 0;
    let mut i: usize = 0;
    while i < apply.classes.len()
        invariant
            i <= apply.classes@.len(),
            count <= i,
            count == class_texts(apply.classes@.take(i as int)).len(),
        decreases apply.classes@.len() - i,
    {
        assert(apply.classes@.take(i + 1).drop_last() == apply.classes@.take(i as int));
        if apply.classes[i].is_some() {
            count += 1;
        }
        i += 1;
    }
    assert(apply.classes@.take(i as int) == apply.classes@);
    count
}

/// What the entries up to `n` bring, from what those before `n` bring.
proof fn lemma_one_more(
    items: Seq<CssItem>,
    replies: Seq<Seq<PlacementModel>>,
    positions: Map<Seq<char>, u16>,
    n: int,
    hinted: bool,
    before: Seq<u16>,
    after: Seq<u16>,
)
    requires
        0 <= n < items.len(),
        hinted == exists|j: int| 0 <= j < n && is_hint(#[trigger] items[j], positions),
        forall|p: u16| #[trigger]
            before.contains(p) <==> first_bring(items, replies, positions, p, n),
        hinted ==> after == before,
        !hinted ==> forall|p: u16| #[trigger]
            after.contains(p) <==> before.contains(p) || item_positions(
                items,
                replies,
                positions,
                n,
            ).contains(p),
    ensures
        forall|p: u16| #[trigger]
            after.contains(p) <==> first_bring(items, replies, positions, p, n + 1),
{
    assert forall|p: u16| #[trigger] after.contains(p) <==> first_bring(
        items,
        replies,
        positions,
        p,
        n + 1,
    ) by {
        if before.contains(p) {
            let j = choose|j: int| 0 <= j < n && #[trigger] brings(items, replies, positions, p, j);
            assert(brings(items, replies, positions, p, j));
        }
        if !hinted {
            assert(brings(items, replies, positions, p, n) == item_positions(
                items,
                replies,
                positions,
                n,
            ).contains(p));
        }
    }
}

proof fn lemma_singleton(position: u16)
    ensures
        forall|p: u16| #[trigger] seq![position].contains(p) <==> p == position,
{
    assert(seq![position][0] == position);
}

/// Tailwind's `getPropertySort` for a static `@utility` block: walk the
/// declarations breadth-first, collect the property-order position of each
/// ordered property until a `--tw-sort:` hint, and count every declaration.
/// `@apply` expands to the applied utilities' declarations, which `replies`
/// holds for each applied class.
pub fn static_property_sort(
    items: &Vec<CssItem>,
    properties: &PropertyIndex,
    replies: &Vec<Reply>,
) -> (sort: (Vec<u16>, u8))
    requires
        replies@.len() == item_list_classes(walk::level_order(items@)).len(),
    ensures
        sort.0@ == signature(walk::level_order(items@), replies_view(replies@), properties@),
        sort.1 == declaration_count(walk::level_order(items@), replies_view(replies@)),
{
    let order = walk::breadth_first(items);
    let ghost entries = order@.unref();
    let ghost view = replies_view(replies@);
    let ghost map = properties@;
    let mut indices: Vec<u16> = Vec::new();
    let mut count: usize = 0;
    let mut hinted: bool = false;
    let mut next_reply: usize = 0;
    let mut i: usize = 0;
    assert(item_list_classes(entries.take(0)).len() == 0);
    assert(view.len() == replies.len());
    while i < order.len()
        invariant
            i <= order@.len(),
            entries == order@.unref(),
            view == replies_view(replies@),
            map == properties@,
            view.len() == item_list_classes(entries).len(),
            view.len() <= usize::MAX,
            next_reply == item_list_classes(entries.take(i as int)).len(),
            next_reply <= view.len(),
            hinted == exists|j: int| 0 <= j < i && is_hint(#[trigger] entries[j], map),
            ascending::is_ascending(indices@),
            forall|p: u16| #[trigger]
                indices@.contains(p) <==> first_bring(entries, view, map, p, i as int),
            count == saturated(count_of_first(entries, view, i as int)),
        decreases order@.len() - i,
    {
        let item = order[i];
        let ghost before = indices@;
        let ghost was_hinted = hinted;
        proof {
            lemma_class_texts_len(entries, i as int);
            assert(entries[i as int] == *item);
        }
        match item {
            CssItem::Declaration(Some(declaration)) => {
                count = count.saturating_add(1);
                if !hinted {
                    if let Some((name, property)) = declarations::generic_property(declaration) {
                        if text::same_text(name.as_str(), "--tw-sort") {
                            if let Some(index) = declarations::sort_hint(name, property, properties) {
                                proof {
                                    lemma_singleton(index);
                                }
                                ascending::insert_position(&mut indices, index);
                                hinted = true;
                            }
                        } else if let Some(index) = properties.get(name.as_str()) {
                            proof {
                                lemma_singleton(index);
                            }
                            ascending::insert_position(&mut indices, index);
                        }
                    }
                }
            },
            CssItem::AtRule(Some(CssAtRule::Apply(apply))) => {
                let classes = count_class_texts(apply);
                let here = slice_subrange(replies.as_slice(), next_reply, next_reply + classes);
                let (applied, applied_total) = apply_property_sort(here);
                assert(replies_view(here@) == item_replies(entries, view, i as int));
                if !hinted {
                    insert_positions(&mut indices, &applied);
                }
                count = count.saturating_add(applied_total);
                next_reply += classes;
            },
            _ => {},
        }
        proof {
            lemma_one_more(entries, view, map, i as int, was_hinted, before, indices@);
        }
        i += 1;
    }
    proof {
        assert(entries.take(i as int) == entries);
        assert forall|p: u16| #[trigger] indices@.contains(p) <==> sorts_at(
            entries,
            view,
            map,
            p,
        ) by {}
        ascending::lemma_is_ascending_list(indices@, |p: u16| sorts_at(entries, view, map, p));
    }
    let byte: u8 = if count > 255 {
        255
    } else {
        count as u8
    };
    (indices, byte)
}

} // verus!
