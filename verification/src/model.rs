//! The mathematical model the engine's contracts are stated over: the
//! multiset of placed item identifiers, which panel type a layout comes
//! from, and the per-type numbering of panels.

use vstd::prelude::*;
use vstd::multiset::Multiset;

use crate::geom::{
    expanded_rect, layout_wf, placement_ok, placement_rect, rects_overlap, usable_rect,
};
use crate::types::{Item, OptionalItem, PanelLayout, PanelType, Placement};

verus! {

/// The item identifiers of a placement list, in order.
pub open spec fn placement_ids(ps: Seq<Placement>) -> Seq<Seq<char>> {
    ps.map_values(|p: Placement| p.item_id@)
}

/// The item identifiers placed on one layout, as a multiset.
pub open spec fn layout_ids_ms(l: PanelLayout) -> Multiset<Seq<char>> {
    placement_ids(l.placements@).to_multiset()
}

/// All item identifiers placed across a list of layouts.
pub open spec fn layouts_placed_ids(ls: Seq<PanelLayout>) -> Multiset<Seq<char>>
    decreases ls.len(),
{
    if ls.len() == 0 {
        Multiset::empty()
    } else {
        layouts_placed_ids(ls.drop_last()).add(layout_ids_ms(ls.last()))
    }
}

/// The identifiers of a list of items, in order.
pub open spec fn item_ids(items: Seq<Item>) -> Seq<Seq<char>> {
    items.map_values(|it: Item| it.id@)
}

/// The character sequences of a list of strings, in order.
pub open spec fn string_views(ss: Seq<String>) -> Seq<Seq<char>> {
    ss.map_values(|s: String| s@)
}

/// Appending a placement to a layout inserts its id into the layout's
/// multiset.
pub proof fn lemma_layout_ids_push(l: PanelLayout, l2: PanelLayout, p: Placement)
    requires
        l2.placements@ == l.placements@.push(p),
    ensures
        layout_ids_ms(l2) == layout_ids_ms(l).insert(p.item_id@),
{
    broadcast use vstd::seq_lib::group_to_multiset_ensures;

    assert(placement_ids(l2.placements@) =~= placement_ids(l.placements@).push(p.item_id@));
}

/// A layout with a single placement carries exactly that placement's id.
pub proof fn lemma_layout_ids_single(l: PanelLayout, p: Placement)
    requires
        l.placements@.len() == 1,
        l.placements@[0] == p,
    ensures
        layout_ids_ms(l) == Multiset::empty().insert(p.item_id@),
{
    broadcast use vstd::seq_lib::group_to_multiset_ensures;

    assert(placement_ids(l.placements@) =~= Seq::empty().push(p.item_id@));
    assert(Seq::<Seq<char>>::empty().push(p.item_id@).to_multiset() =~= Multiset::empty().insert(
        p.item_id@,
    ));
}

/// Appending a layout adds its placed ids to the total.
pub proof fn lemma_layouts_ids_push(ls: Seq<PanelLayout>, l: PanelLayout)
    ensures
        layouts_placed_ids(ls.push(l)) == layouts_placed_ids(ls).add(layout_ids_ms(l)),
{
    assert(ls.push(l).drop_last() =~= ls);
    assert(ls.push(l).last() == l);
}

/// Replacing one layout by a version with one more placement inserts that
/// placement's id into the total.
pub proof fn lemma_layouts_ids_update(
    ls: Seq<PanelLayout>,
    idx: int,
    l2: PanelLayout,
    x: Seq<char>,
)
    requires
        0 <= idx < ls.len(),
        layout_ids_ms(l2) == layout_ids_ms(ls[idx]).insert(x),
    ensures
        layouts_placed_ids(ls.update(idx, l2)) == layouts_placed_ids(ls).insert(x),
    decreases ls.len(),
{
    let ls2 = ls.update(idx, l2);
    if idx == ls.len() - 1 {
        assert(ls2.drop_last() =~= ls.drop_last());
        assert(ls2.last() == l2);
        assert(layouts_placed_ids(ls.drop_last()).add(layout_ids_ms(ls[idx]).insert(x))
            =~= layouts_placed_ids(ls.drop_last()).add(layout_ids_ms(ls[idx])).insert(x));
    } else {
        assert(ls2.drop_last() =~= ls.drop_last().update(idx, l2));
        assert(ls2.last() == ls.last());
        lemma_layouts_ids_update(ls.drop_last(), idx, l2, x);
        assert(layouts_placed_ids(ls.drop_last()).insert(x).add(layout_ids_ms(ls.last()))
            =~= layouts_placed_ids(ls.drop_last()).add(layout_ids_ms(ls.last())).insert(x));
    }
}

/// Equal in every observable respect: a deep copy. (The placement lists
/// are compared as sequences, since vectors are only observable through
/// their views.)
pub open spec fn layout_equiv(a: PanelLayout, b: PanelLayout) -> bool {
    &&& a.panel_type_id == b.panel_type_id
    &&& a.panel_number == b.panel_number
    &&& a.width == b.width
    &&& a.height == b.height
    &&& a.trimming == b.trimming
    &&& a.placements@ == b.placements@
    &&& a.unused_areas@ == b.unused_areas@
}

/// All observable layout properties transfer between equivalent lists.
pub proof fn lemma_layouts_ids_equiv(ls1: Seq<PanelLayout>, ls2: Seq<PanelLayout>)
    requires
        ls1.len() == ls2.len(),
        forall|i: int| 0 <= i < ls1.len() ==> layout_equiv(#[trigger] ls1[i], #[trigger] ls2[i]),
    ensures
        layouts_placed_ids(ls1) == layouts_placed_ids(ls2),
    decreases ls1.len(),
{
    if ls1.len() > 0 {
        lemma_layouts_ids_equiv(ls1.drop_last(), ls2.drop_last());
        assert(layout_equiv(ls1.last(), ls2.last()));
        assert(layout_ids_ms(ls1.last()) == layout_ids_ms(ls2.last()));
    }
}

/// Counting panel types only looks at the type identifiers.
pub proof fn lemma_count_prefix_equiv(
    ls1: Seq<PanelLayout>,
    ls2: Seq<PanelLayout>,
    n: int,
    t: Seq<char>,
)
    requires
        ls1.len() == ls2.len(),
        forall|i: int| 0 <= i < ls1.len() ==> (#[trigger] ls1[i]).panel_type_id@ == (
        #[trigger] ls2[i]).panel_type_id@,
    ensures
        count_type_prefix(ls1, n, t) == count_type_prefix(ls2, n, t),
    decreases n,
{
    if n > 0 {
        lemma_count_prefix_equiv(ls1, ls2, n - 1, t);
    }
}

/// Removing one layout takes away exactly its placed identifiers.
pub proof fn lemma_layouts_ids_remove(ls: Seq<PanelLayout>, idx: int)
    requires
        0 <= idx < ls.len(),
    ensures
        layouts_placed_ids(ls) == layouts_placed_ids(ls.remove(idx)).add(layout_ids_ms(ls[idx])),
    decreases ls.len(),
{
    broadcast use vstd::multiset::group_multiset_axioms;

    let ls2 = ls.remove(idx);
    if idx == ls.len() - 1 {
        assert(ls2 =~= ls.drop_last());
    } else {
        assert(ls2.drop_last() =~= ls.drop_last().remove(idx));
        assert(ls2.last() == ls.last());
        lemma_layouts_ids_remove(ls.drop_last(), idx);
        assert(layouts_placed_ids(ls.drop_last().remove(idx)).add(
            layout_ids_ms(ls[idx]),
        ).add(layout_ids_ms(ls.last())) =~= layouts_placed_ids(ls.drop_last().remove(idx)).add(
            layout_ids_ms(ls.last()),
        ).add(layout_ids_ms(ls[idx])));
    }
}

/// The layout uses this panel type: same identifier and trimming, and the
/// type's dimensions either as declared or swapped.
pub open spec fn layout_of_type(l: PanelLayout, p: PanelType) -> bool {
    &&& l.panel_type_id@ == p.id@
    &&& l.trimming == p.trimming
    &&& ((l.width == p.width && l.height == p.height) || (l.width == p.height && l.height
        == p.width))
}

/// Every layout in the list comes from one of the request's panel types.
pub open spec fn layouts_from_types(ls: Seq<PanelLayout>, types: Seq<PanelType>) -> bool {
    forall|i: int|
        #![trigger ls[i]]
        0 <= i < ls.len() ==> exists|j: int| 0 <= j < types.len() && layout_of_type(
            ls[i],
            #[trigger] types[j],
        )
}

/// How many of the first `n` layouts use panel type `t`.
pub open spec fn count_type_prefix(ls: Seq<PanelLayout>, n: int, t: Seq<char>) -> int
    decreases n,
{
    if n <= 0 || n > ls.len() {
        0
    } else {
        count_type_prefix(ls, n - 1, t) + if ls[n - 1].panel_type_id@ == t {
            1int
        } else {
            0int
        }
    }
}

/// Canonical numbering: each layout's `panel_number` is its 1-based rank
/// among the layouts of the same type, in list order. This makes the
/// numbers of each type exactly 1 through the type's count.
pub open spec fn numbering_canonical(ls: Seq<PanelLayout>) -> bool {
    forall|i: int|
        0 <= i < ls.len() ==> (#[trigger] ls[i]).panel_number as int == count_type_prefix(
            ls,
            i + 1,
            ls[i].panel_type_id@,
        )
}

/// Counting in a prefix ignores everything appended after it.
pub proof fn lemma_count_prefix_push(ls: Seq<PanelLayout>, l: PanelLayout, n: int, t: Seq<char>)
    requires
        n <= ls.len(),
    ensures
        count_type_prefix(ls.push(l), n, t) == count_type_prefix(ls, n, t),
    decreases n,
{
    if n > 0 {
        lemma_count_prefix_push(ls, l, n - 1, t);
    }
}

/// Counting is unchanged when one layout is replaced by another of the
/// same panel type.
pub proof fn lemma_count_prefix_update(
    ls: Seq<PanelLayout>,
    idx: int,
    l2: PanelLayout,
    n: int,
    t: Seq<char>,
)
    requires
        0 <= idx < ls.len(),
        l2.panel_type_id@ == ls[idx].panel_type_id@,
    ensures
        count_type_prefix(ls.update(idx, l2), n, t) == count_type_prefix(ls, n, t),
    decreases n,
{
    if n > 0 {
        lemma_count_prefix_update(ls, idx, l2, n - 1, t);
    }
}

/// Appending a layout numbered one past its type's count keeps the
/// numbering canonical.
pub proof fn lemma_canonical_push(ls: Seq<PanelLayout>, l: PanelLayout)
    requires
        numbering_canonical(ls),
        l.panel_number as int == count_type_prefix(ls, ls.len() as int, l.panel_type_id@) + 1,
    ensures
        numbering_canonical(ls.push(l)),
{
    let ls2 = ls.push(l);
    assert forall|i: int| 0 <= i < ls2.len() implies (#[trigger] ls2[i]).panel_number as int
        == count_type_prefix(ls2, i + 1, ls2[i].panel_type_id@) by {
        lemma_count_prefix_push(ls, l, i, ls2[i].panel_type_id@);
        if i < ls.len() {
            assert(ls2[i] == ls[i]);
        } else {
            assert(ls2[i] == l);
        }
    }
}

/// Replacing a layout by one with the same type and number keeps the
/// numbering canonical.
pub proof fn lemma_canonical_update(ls: Seq<PanelLayout>, idx: int, l2: PanelLayout)
    requires
        numbering_canonical(ls),
        0 <= idx < ls.len(),
        l2.panel_type_id@ == ls[idx].panel_type_id@,
        l2.panel_number == ls[idx].panel_number,
    ensures
        numbering_canonical(ls.update(idx, l2)),
{
    let ls2 = ls.update(idx, l2);
    assert forall|i: int| 0 <= i < ls2.len() implies (#[trigger] ls2[i]).panel_number as int
        == count_type_prefix(ls2, i + 1, ls2[i].panel_type_id@) by {
        lemma_count_prefix_update(ls, idx, l2, i + 1, ls2[i].panel_type_id@);
        if i != idx {
            assert(ls2[i] == ls[i]);
        }
    }
}

/// Counting in a longer prefix never loses occurrences.
pub proof fn lemma_count_prefix_monotonic(ls: Seq<PanelLayout>, m: int, n: int, t: Seq<char>)
    requires
        0 <= m <= n <= ls.len(),
    ensures
        count_type_prefix(ls, m, t) <= count_type_prefix(ls, n, t),
        count_type_prefix(ls, n, t) <= count_type_prefix(ls, m, t) + (n - m),
    decreases n - m,
{
    if m < n {
        lemma_count_prefix_monotonic(ls, m, n - 1, t);
    }
}

/// With canonical numbering, every layout's number lies between 1 and its
/// type's total count, and two layouts of the same type never share a
/// number: the numbers of each type are exactly 1 through its count.
pub proof fn lemma_numbers_contiguous(ls: Seq<PanelLayout>)
    requires
        numbering_canonical(ls),
    ensures
        forall|i: int|
            0 <= i < ls.len() ==> 1 <= (#[trigger] ls[i]).panel_number as int <= count_type_prefix(
                ls,
                ls.len() as int,
                ls[i].panel_type_id@,
            ),
        forall|i: int, j: int|
            0 <= i < j < ls.len() && (#[trigger] ls[i]).panel_type_id@ == (
            #[trigger] ls[j]).panel_type_id@ ==> ls[i].panel_number != ls[j].panel_number,
{
    assert forall|i: int| 0 <= i < ls.len() implies 1 <= (#[trigger] ls[i]).panel_number as int
        <= count_type_prefix(ls, ls.len() as int, ls[i].panel_type_id@) by {
        lemma_count_prefix_monotonic(ls, i, i + 1, ls[i].panel_type_id@);
        lemma_count_prefix_monotonic(ls, 0, i, ls[i].panel_type_id@);
        lemma_count_prefix_monotonic(ls, i + 1, ls.len() as int, ls[i].panel_type_id@);
    }
    assert forall|i: int, j: int|
        0 <= i < j < ls.len() && (#[trigger] ls[i]).panel_type_id@ == (
        #[trigger] ls[j]).panel_type_id@ implies ls[i].panel_number != ls[j].panel_number by {
        lemma_count_prefix_monotonic(ls, i + 1, j, ls[j].panel_type_id@);
        assert(count_type_prefix(ls, j + 1, ls[j].panel_type_id@) == count_type_prefix(
            ls,
            j,
            ls[j].panel_type_id@,
        ) + 1);
    }
}

/// Two layout lists whose members agree pointwise on their placements
/// carry the same identifiers.
pub proof fn lemma_ids_pointwise(ls1: Seq<PanelLayout>, ls2: Seq<PanelLayout>)
    requires
        ls1.len() == ls2.len(),
        forall|i: int| 0 <= i < ls1.len() ==> (#[trigger] ls1[i]).placements@ == (
        #[trigger] ls2[i]).placements@,
    ensures
        layouts_placed_ids(ls1) == layouts_placed_ids(ls2),
    decreases ls1.len(),
{
    if ls1.len() > 0 {
        lemma_ids_pointwise(ls1.drop_last(), ls2.drop_last());
    }
}

/// ... and the same number of placements.
pub proof fn lemma_placements_pointwise(ls1: Seq<PanelLayout>, ls2: Seq<PanelLayout>)
    requires
        ls1.len() == ls2.len(),
        forall|i: int| 0 <= i < ls1.len() ==> (#[trigger] ls1[i]).placements@ == (
        #[trigger] ls2[i]).placements@,
    ensures
        crate::summary::total_placements(ls1) == crate::summary::total_placements(ls2),
    decreases ls1.len(),
{
    if ls1.len() > 0 {
        lemma_placements_pointwise(ls1.drop_last(), ls2.drop_last());
    }
}

/// Canonical numbering transfers between lists that agree pointwise on
/// panel types and numbers.
pub proof fn lemma_canonical_pointwise(ls1: Seq<PanelLayout>, ls2: Seq<PanelLayout>)
    requires
        ls1.len() == ls2.len(),
        forall|i: int| 0 <= i < ls1.len() ==> (#[trigger] ls1[i]).panel_type_id@ == (
        #[trigger] ls2[i]).panel_type_id@ && ls1[i].panel_number == ls2[i].panel_number,
        numbering_canonical(ls1),
    ensures
        numbering_canonical(ls2),
{
    assert forall|i: int| 0 <= i < ls2.len() implies (#[trigger] ls2[i]).panel_number as int
        == count_type_prefix(ls2, i + 1, ls2[i].panel_type_id@) by {
        lemma_count_prefix_equiv(ls1, ls2, i + 1, ls2[i].panel_type_id@);
    }
}

/// The placed identifiers count one entry per placement.
pub proof fn lemma_ids_len(ls: Seq<PanelLayout>)
    ensures
        layouts_placed_ids(ls).len() == crate::summary::total_placements(ls),
    decreases ls.len(),
{
    broadcast use vstd::multiset::group_multiset_axioms;

    if ls.len() > 0 {
        lemma_ids_len(ls.drop_last());
        vstd::seq_lib::to_multiset_len(placement_ids(ls.last().placements@));
    }
}

/// Two dimension pairs describe the same physical piece: equal, or equal
/// after a quarter turn.
pub open spec fn dims_orbit(w1: int, h1: int, w2: int, h2: int) -> bool {
    (w1 == w2 && h1 == h2) || (w1 == h2 && h1 == w2)
}

/// The placement is a cut of this item: same identifier, and the item's
/// dimensions up to a quarter turn.
pub open spec fn placement_carries_item(p: Placement, it: Item) -> bool {
    p.item_id@ == it.id@ && dims_orbit(p.width as int, p.height as int, it.width as int, it.height as int)
}

/// The placement is a cut of some item of the list.
pub open spec fn carried_by_some(p: Placement, items: Seq<Item>) -> bool {
    exists|k: int| 0 <= k < items.len() && placement_carries_item(p, #[trigger] items[k])
}

/// Every placement across the layouts is a cut of some item of the list.
pub open spec fn placements_carry_items(ls: Seq<PanelLayout>, items: Seq<Item>) -> bool {
    forall|l: int, pi: int|
        0 <= l < ls.len() && 0 <= pi < ls[l].placements@.len() ==> carried_by_some(
            #[trigger] ls[l].placements@[pi],
            items,
        )
}

/// Carrying one of two item lists with the same members carries the other.
pub proof fn lemma_carried_permutation(p: Placement, s1: Seq<Item>, s2: Seq<Item>)
    requires
        carried_by_some(p, s1),
        s1.to_multiset() == s2.to_multiset(),
    ensures
        carried_by_some(p, s2),
{
    let k = choose|k: int| 0 <= k < s1.len() && placement_carries_item(p, #[trigger] s1[k]);
    assert(s1.contains(s1[k]));
    vstd::seq_lib::to_multiset_contains(s1, s1[k]);
    vstd::seq_lib::to_multiset_contains(s2, s1[k]);
    assert(s2.contains(s1[k]));
    let j = choose|j: int| 0 <= j < s2.len() && s2[j] == s1[k];
    assert(placement_carries_item(p, s2[j]));
}

/// A width/height swap of the items changes nothing about what a placement
/// carries.
pub proof fn lemma_carried_swapped(p: Placement, s1: Seq<Item>, s2: Seq<Item>)
    requires
        carried_by_some(p, s1),
        s1.len() == s2.len(),
        forall|i: int|
            0 <= i < s1.len() ==> crate::items::item_same_or_swapped(
                #[trigger] s1[i],
                #[trigger] s2[i],
            ),
    ensures
        carried_by_some(p, s2),
{
    let k = choose|k: int| 0 <= k < s1.len() && placement_carries_item(p, #[trigger] s1[k]);
    assert(placement_carries_item(p, s2[k]));
}

/// Appending a placement that is a cut of some item preserves the carrying
/// property.
pub proof fn lemma_carry_update(
    ls: Seq<PanelLayout>,
    idx: int,
    l2: PanelLayout,
    p: Placement,
    items: Seq<Item>,
)
    requires
        placements_carry_items(ls, items),
        0 <= idx < ls.len(),
        l2.placements@ == ls[idx].placements@.push(p),
        carried_by_some(p, items),
    ensures
        placements_carry_items(ls.update(idx, l2), items),
{
    let ls2 = ls.update(idx, l2);
    assert forall|l: int, pi: int|
        0 <= l < ls2.len() && 0 <= pi < ls2[l].placements@.len() implies carried_by_some(
        #[trigger] ls2[l].placements@[pi],
        items,
    ) by {
        if l == idx {
            if pi < ls[idx].placements@.len() {
                assert(ls2[l].placements@[pi] == ls[idx].placements@[pi]);
            } else {
                assert(ls2[l].placements@[pi] == p);
            }
        } else {
            assert(ls2[l] == ls[l]);
        }
    }
}

/// Appending a layout whose placements are all cuts of listed items
/// preserves the carrying property.
pub proof fn lemma_carry_push(ls: Seq<PanelLayout>, l2: PanelLayout, items: Seq<Item>)
    requires
        placements_carry_items(ls, items),
        forall|pi: int|
            0 <= pi < l2.placements@.len() ==> carried_by_some(
                #[trigger] l2.placements@[pi],
                items,
            ),
    ensures
        placements_carry_items(ls.push(l2), items),
{
    let ls2 = ls.push(l2);
    assert forall|l: int, pi: int|
        0 <= l < ls2.len() && 0 <= pi < ls2[l].placements@.len() implies carried_by_some(
        #[trigger] ls2[l].placements@[pi],
        items,
    ) by {
        if l < ls.len() {
            assert(ls2[l] == ls[l]);
        } else {
            assert(ls2[l] == l2);
        }
    }
}

/// Lists with pointwise equal placements carry the same items.
pub proof fn lemma_carry_pointwise(ls1: Seq<PanelLayout>, ls2: Seq<PanelLayout>, items: Seq<Item>)
    requires
        placements_carry_items(ls1, items),
        ls1.len() == ls2.len(),
        forall|i: int| 0 <= i < ls1.len() ==> (#[trigger] ls1[i]).placements@ == (
        #[trigger] ls2[i]).placements@,
    ensures
        placements_carry_items(ls2, items),
{
    assert forall|l: int, pi: int|
        0 <= l < ls2.len() && 0 <= pi < ls2[l].placements@.len() implies carried_by_some(
        #[trigger] ls2[l].placements@[pi],
        items,
    ) by {
        assert(ls2[l].placements@[pi] == ls1[l].placements@[pi]);
    }
}

/// Some requested item has this placement's dimensions, up to a quarter
/// turn. (Expanded copies rename items, so only the dimensions tie.)
pub open spec fn placement_from_request_item(p: Placement, items: Seq<Item>) -> bool {
    exists|i: int|
        0 <= i < items.len() && dims_orbit(
            p.width as int,
            p.height as int,
            (#[trigger] items[i]).width as int,
            items[i].height as int,
        )
}

/// The placement is a cut of an optional item declared on some panel type:
/// same identifier and the optional item's dimensions up to a quarter turn.
pub open spec fn placement_from_declared_optional(p: Placement, types: Seq<PanelType>) -> bool {
    exists|t: int, o: int|
        0 <= t < types.len() && 0 <= o < (#[trigger] types[t]).optional_items@.len()
            && p.item_id@ == (#[trigger] types[t].optional_items@[o]).id@ && dims_orbit(
            p.width as int,
            p.height as int,
            types[t].optional_items@[o].width as int,
            types[t].optional_items@[o].height as int,
        )
}

/// No panel type declares any optional item.
pub open spec fn no_declared_optionals(types: Seq<PanelType>) -> bool {
    forall|t: int| 0 <= t < types.len() ==> (#[trigger] types[t]).optional_items@.len() == 0
}

/// Every placement across the layouts matches some item of the list
/// exactly: same identifier, the item's dimensions kept when unrotated and
/// swapped when rotated, and rotation only where the item permits it.
pub open spec fn matched_by_some(p: Placement, items: Seq<Item>) -> bool {
    exists|k: int| 0 <= k < items.len() && placement_matches_item(p, #[trigger] items[k])
}

pub open spec fn placements_match_items(ls: Seq<PanelLayout>, items: Seq<Item>) -> bool {
    forall|l: int, pi: int|
        0 <= l < ls.len() && 0 <= pi < ls[l].placements@.len() ==> matched_by_some(
            #[trigger] ls[l].placements@[pi],
            items,
        )
}

/// Appending a placement that matches some item preserves the property.
pub proof fn lemma_match_update(
    ls: Seq<PanelLayout>,
    idx: int,
    l2: PanelLayout,
    p: Placement,
    items: Seq<Item>,
)
    requires
        placements_match_items(ls, items),
        0 <= idx < ls.len(),
        l2.placements@ == ls[idx].placements@.push(p),
        matched_by_some(p, items),
    ensures
        placements_match_items(ls.update(idx, l2), items),
{
    let ls2 = ls.update(idx, l2);
    assert forall|l: int, pi: int|
        0 <= l < ls2.len() && 0 <= pi < ls2[l].placements@.len() implies matched_by_some(
        #[trigger] ls2[l].placements@[pi],
        items,
    ) by {
        if l == idx {
            if pi < ls[idx].placements@.len() {
                assert(ls2[l].placements@[pi] == ls[idx].placements@[pi]);
            } else {
                assert(ls2[l].placements@[pi] == p);
            }
        } else {
            assert(ls2[l] == ls[l]);
        }
    }
}

/// Appending a layout of matching placements preserves the property.
pub proof fn lemma_match_push(ls: Seq<PanelLayout>, l2: PanelLayout, items: Seq<Item>)
    requires
        placements_match_items(ls, items),
        forall|pi: int|
            0 <= pi < l2.placements@.len() ==> matched_by_some(#[trigger] l2.placements@[pi], items),
    ensures
        placements_match_items(ls.push(l2), items),
{
    let ls2 = ls.push(l2);
    assert forall|l: int, pi: int|
        0 <= l < ls2.len() && 0 <= pi < ls2[l].placements@.len() implies matched_by_some(
        #[trigger] ls2[l].placements@[pi],
        items,
    ) by {
        if l < ls.len() {
            assert(ls2[l] == ls[l]);
        } else {
            assert(ls2[l] == l2);
        }
    }
}

/// The first placement of every panel sits at the trimming corner, where
/// the panel it opened was placed.
pub open spec fn first_placements_at_corner(ls: Seq<PanelLayout>) -> bool {
    forall|l: int|
        0 <= l < ls.len() && (#[trigger] ls[l]).placements@.len() >= 1 ==> ls[l].placements@[0].x
            == ls[l].trimming && ls[l].placements@[0].y == ls[l].trimming
}

/// A placement that can be appended to the layout without breaking its
/// well-formedness: it lies in the usable area and clear of the space every
/// existing placement reserves.
pub open spec fn placement_clear_of_all(p: Placement, l: PanelLayout, kerf: int) -> bool {
    forall|i: int|
        0 <= i < l.placements@.len() ==> !rects_overlap(
            expanded_rect(placement_rect(#[trigger] l.placements@[i]), kerf),
            placement_rect(p),
        )
}

pub open spec fn placement_fits_layout(p: Placement, l: PanelLayout, kerf: int) -> bool {
    &&& placement_ok(p, l)
    &&& placement_clear_of_all(p, l, kerf)
}

/// The placement records this item: same identifier, and the item's
/// dimensions, swapped exactly when the placement is rotated.
pub open spec fn placement_matches_item(p: Placement, it: Item) -> bool {
    &&& p.item_id@ == it.id@
    &&& if p.rotated {
        p.width == it.height && p.height == it.width && it.can_rotate
    } else {
        p.width == it.width && p.height == it.height
    }
}

/// Appending a fitting placement keeps the layout well formed.
pub proof fn lemma_push_placement_wf(l: PanelLayout, l2: PanelLayout, p: Placement, kerf: int)
    requires
        layout_wf(l, kerf),
        placement_fits_layout(p, l, kerf),
        l2.width == l.width,
        l2.height == l.height,
        l2.trimming == l.trimming,
        l2.placements@ == l.placements@.push(p),
    ensures
        layout_wf(l2, kerf),
{
    assert(usable_rect(l2) == usable_rect(l));
    assert forall|i: int| 0 <= i < l2.placements@.len() implies placement_ok(
        #[trigger] l2.placements@[i],
        l2,
    ) by {
        if i < l.placements@.len() {
            assert(l2.placements@[i] == l.placements@[i]);
        } else {
            assert(l2.placements@[i] == p);
        }
    }
    assert forall|i: int, j: int| 0 <= i < j < l2.placements@.len() implies !rects_overlap(
        expanded_rect(placement_rect(#[trigger] l2.placements@[i]), kerf),
        placement_rect(#[trigger] l2.placements@[j]),
    ) by {
        if j < l.placements@.len() {
            assert(l2.placements@[i] == l.placements@[i]);
            assert(l2.placements@[j] == l.placements@[j]);
        } else {
            assert(l2.placements@[j] == p);
            assert(l2.placements@[i] == l.placements@[i]);
        }
    }
}

} // verus!
