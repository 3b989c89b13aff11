//! Lists of positions in ascending order, each once.

use vstd::prelude::*;

verus! {

/// Whether `list` is in ascending order and holds nothing twice.
pub open spec fn is_ascending(list: Seq<u16>) -> bool {
    forall|i: int, j: int| 0 <= i < j < list.len() ==> list[i] < list[j]
}

/// The numbers under `bound` for which `wanted` holds, in ascending order.
pub open spec fn ascending_under(wanted: spec_fn(u16) -> bool, bound: int) -> Seq<u16>
    decreases bound,
{
    if bound <= 0 {
        Seq::empty()
    } else {
        let rest = ascending_under(wanted, bound - 1);
        if wanted((bound - 1) as u16) {
            rest.push((bound - 1) as u16)
        } else {
            rest
        }
    }
}

/// The numbers for which `wanted` holds, in ascending order.
pub open spec fn ascending(wanted: spec_fn(u16) -> bool) -> Seq<u16> {
    ascending_under(wanted, u16::MAX + 1)
}

proof fn lemma_ascending_under(wanted: spec_fn(u16) -> bool, bound: int)
    requires
        0 <= bound <= u16::MAX + 1,
    ensures
        is_ascending(ascending_under(wanted, bound)),
        forall|p: u16| #[trigger]
            ascending_under(wanted, bound).contains(p) <==> p < bound && wanted(p),
    decreases bound,
{
    if bound > 0 {
        lemma_ascending_under(wanted, bound - 1);
        let rest = ascending_under(wanted, bound - 1);
        let all = ascending_under(wanted, bound);
        let top = (bound - 1) as u16;
        assert forall|i: int| 0 <= i < rest.len() implies #[trigger] rest[i] < top by {
            assert(rest.contains(rest[i]));
        }
        assert forall|p: u16| #[trigger] all.contains(p) <==> p < bound && wanted(p) by {
            if all.contains(p) {
                let i = choose|i: int| 0 <= i < all.len() && all[i] == p;
                if i < rest.len() {
                    assert(rest[i] == p);
                    assert(rest.contains(p));
                }
            }
            if p < bound && wanted(p) {
                if p == top {
                    assert(all[rest.len() as int] == p);
                } else {
                    assert(rest.contains(p));
                    let i = choose|i: int| 0 <= i < rest.len() && rest[i] == p;
                    assert(all[i] == p);
                }
            }
        }
    }
}

proof fn lemma_ascending_unique(a: Seq<u16>, b: Seq<u16>)
    requires
        is_ascending(a),
        is_ascending(b),
        forall|p: u16| #[trigger] a.contains(p) <==> b.contains(p),
    ensures
        a == b,
    decreases a.len(),
{
    if a.len() == 0 {
        if b.len() > 0 {
            assert(b.contains(b[0]));
            assert(a.contains(b[0]));
        }
    } else {
        assert(a.contains(a.last()));
        let i = choose|i: int| 0 <= i < b.len() && b[i] == a.last();
        assert(b.contains(b.last()));
        assert(a.contains(b.last()));
        let j = choose|j: int| 0 <= j < a.len() && a[j] == b.last();
        assert(a.last() == b.last());
        let a1 = a.drop_last();
        let b1 = b.drop_last();
        assert forall|p: u16| #[trigger] a1.contains(p) <==> b1.contains(p) by {
            if a1.contains(p) {
                let k = choose|k: int| 0 <= k < a1.len() && a1[k] == p;
                assert(a[k] == p);
                assert(a.contains(p));
                assert(b.contains(p));
                let m = choose|m: int| 0 <= m < b.len() && b[m] == p;
                assert(b1[m] == p);
            }
            if b1.contains(p) {
                let k = choose|k: int| 0 <= k < b1.len() && b1[k] == p;
                assert(b[k] == p);
                assert(b.contains(p));
                assert(a.contains(p));
                let m = choose|m: int| 0 <= m < a.len() && a[m] == p;
                assert(a1[m] == p);
            }
        }
        lemma_ascending_unique(a1, b1);
        assert(a == a1.push(a.last()));
        assert(b == b1.push(b.last()));
    }
}

/// An ascending list is the list of what it holds.
pub proof fn lemma_is_ascending_list(list: Seq<u16>, wanted: spec_fn(u16) -> bool)
    requires
        is_ascending(list),
        forall|p: u16| #[trigger] list.contains(p) <==> wanted(p),
    ensures
        list == ascending(wanted),
{
    lemma_ascending_under(wanted, u16::MAX + 1);
    lemma_ascending_unique(list, ascending(wanted));
}

/// The list of the numbers for which `wanted` holds is ascending and holds
/// just those.
pub proof fn lemma_ascending(wanted: spec_fn(u16) -> bool)
    ensures
        is_ascending(ascending(wanted)),
        forall|p: u16| #[trigger] ascending(wanted).contains(p) <==> wanted(p),
{
    lemma_ascending_under(wanted, u16::MAX + 1);
}

/// Put `position` in its place in `list`, unless it is there.
pub(crate) fn insert_position(list: &mut Vec<u16>, position: u16)
    requires
        is_ascending(old(list)@),
    ensures
        is_ascending(final(list)@),
        forall|p: u16| #[trigger]
            final(list)@.contains(p) <==> old(list)@.contains(p) || p == position,
{
    let mut at: usize = 0;
    while at < list.len() && list[at] < position
        invariant
            at <= list@.len(),
            list@ == old(list)@,
            forall|i: int| 0 <= i < at ==> list@[i] < position,
        decreases list@.len() - at,
    {
        at += 1;
    }
    if at < list.len() && list[at] == position {
        assert(list@.contains(position));
        return;
    }
    list.insert(at, position);
    proof {
        let before = old(list)@;
        let after = list@;
        assert forall|p: u16| #[trigger] after.contains(p) <==> before.contains(p) || p
            == position by {
            if after.contains(p) && p != position {
                let i = choose|i: int| 0 <= i < after.len() && after[i] == p;
                if i < at {
                    assert(before[i] == p);
                } else {
                    assert(before[i - 1] == p);
                }
            }
            if before.contains(p) {
                let i = choose|i: int| 0 <= i < before.len() && before[i] == p;
                if i < at {
                    assert(after[i] == p);
                } else {
                    assert(after[i + 1] == p);
                }
            }
            assert(after[at as int] == position);
        }
    }
}

} // verus!
