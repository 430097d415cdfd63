//! Item preparation: expanding quantities into physical copies, the sort
//! orders the strategy driver runs the packer under, and orientation
//! normalization for rotatable items.

use vstd::prelude::*;

use crate::optimizer::Optimizer;
use crate::text::{make_suffixed_id, suffixed_id};
use crate::types::{item_ok, total_quantity, Item, MAX_DIM};

verus! {

/// Same cutting problem: identical dimensions and rotation permission.
pub open spec fn item_dims_eq(a: Item, b: Item) -> bool {
    a.width == b.width && a.height == b.height && a.can_rotate == b.can_rotate
}

/// Identical but for a possible width/height swap of a rotatable item.
pub open spec fn item_same_or_swapped(a: Item, b: Item) -> bool {
    &&& a.id@ == b.id@
    &&& a.can_rotate == b.can_rotate
    &&& a.quantity == b.quantity
    &&& ((a.width == b.width && a.height == b.height) || (a.can_rotate && a.width == b.height
        && a.height == b.width))
}

/// The identifiers of the physical copies of one item: the item's own
/// identifier for a single copy, numbered suffixes otherwise.
pub open spec fn copies_ids(it: Item) -> Seq<Seq<char>> {
    Seq::new(
        it.quantity as nat,
        |i: int|
            if it.quantity > 1 {
                suffixed_id(it.id@, i + 1)
            } else {
                it.id@
            },
    )
}

/// The copy has the dimensions of some requested item that asks for at
/// least one copy.
pub open spec fn has_source(x: Item, items: Seq<Item>) -> bool {
    exists|q: int|
        0 <= q < items.len() && item_dims_eq(x, #[trigger] items[q]) && items[q].quantity >= 1
}

/// Some copy in the expansion has this item's dimensions.
pub open spec fn has_copy(it: Item, r: Seq<Item>) -> bool {
    exists|k: int| 0 <= k < r.len() && item_dims_eq(#[trigger] r[k], it)
}

/// The expansion has a copy for exactly the requested items: every copy
/// has the dimensions of some requested item, and every requested item
/// with a positive quantity has a copy.
pub open spec fn expansion_covers(r: Seq<Item>, items: Seq<Item>) -> bool {
    &&& forall|k: int| 0 <= k < r.len() ==> has_source(#[trigger] r[k], items)
    &&& forall|i: int|
        0 <= i < items.len() && (#[trigger] items[i]).quantity >= 1 ==> has_copy(items[i], r)
}

/// The identifiers of all physical copies of a list of items, in order.
pub open spec fn expanded_ids(items: Seq<Item>) -> Seq<Seq<char>>
    decreases items.len(),
{
    if items.len() == 0 {
        Seq::empty()
    } else {
        expanded_ids(items.drop_last()) + copies_ids(items.last())
    }
}

/// Quantities are never negative, so prefixes never count more copies.
pub proof fn lemma_total_quantity_take(items: Seq<Item>, n: int)
    requires
        0 <= n <= items.len(),
    ensures
        0 <= total_quantity(items.take(n)) <= total_quantity(items),
    decreases items.len() - n, items.len(),
{
    if n == items.len() {
        assert(items.take(n) =~= items);
        lemma_total_quantity_nonneg(items);
    } else {
        lemma_total_quantity_take(items, n + 1);
        assert(items.take(n + 1).drop_last() =~= items.take(n));
        lemma_total_quantity_nonneg(items.take(n));
    }
}

/// Copy counts grow along prefixes.
pub proof fn lemma_total_quantity_take_mono(items: Seq<Item>, a: int, b: int)
    requires
        0 <= a <= b <= items.len(),
    ensures
        total_quantity(items.take(a)) <= total_quantity(items.take(b)),
    decreases b - a,
{
    if a < b {
        lemma_total_quantity_take_mono(items, a, b - 1);
        assert(items.take(b).drop_last() =~= items.take(b - 1));
    }
}

pub proof fn lemma_total_quantity_nonneg(items: Seq<Item>)
    ensures
        total_quantity(items) >= 0,
    decreases items.len(),
{
    if items.len() > 0 {
        lemma_total_quantity_nonneg(items.drop_last());
    }
}

/// Mapping two permutations of the same elements gives permuted images.
pub proof fn lemma_map_values_multiset<A, B>(s1: Seq<A>, s2: Seq<A>, f: spec_fn(A) -> B)
    requires
        s1.to_multiset() == s2.to_multiset(),
    ensures
        s1.map_values(f).to_multiset() == s2.map_values(f).to_multiset(),
    decreases s1.len(),
{
    broadcast use vstd::seq_lib::group_to_multiset_ensures;

    vstd::seq_lib::to_multiset_len(s1);
    vstd::seq_lib::to_multiset_len(s2);
    if s1.len() > 0 {
        let x = s1.last();
        assert(s1.drop_last().push(x) =~= s1);
        assert(s1.to_multiset().count(x) > 0) by {
            vstd::seq_lib::to_multiset_contains(s1, x);
        }
        vstd::seq_lib::to_multiset_contains(s2, x);
        assert(s2.contains(x));
        let i = choose|i: int| 0 <= i < s2.len() && s2[i] == x;
        vstd::seq_lib::to_multiset_remove(s2, i);
        assert(s1.drop_last().to_multiset() =~= s2.remove(i).to_multiset()) by {
            assert(s1.to_multiset() == s1.drop_last().to_multiset().insert(x));
            assert(s2.remove(i).to_multiset() == s2.to_multiset().remove(x));
            assert(s1.drop_last().to_multiset() =~= s1.to_multiset().remove(x));
        }
        lemma_map_values_multiset(s1.drop_last(), s2.remove(i), f);
        assert(s1.map_values(f) =~= s1.drop_last().map_values(f).push(f(x)));
        assert(s2.remove(i).map_values(f) =~= s2.map_values(f).remove(i));
        vstd::seq_lib::to_multiset_remove(s2.map_values(f), i);
        assert(s2.map_values(f).to_multiset() =~= s2.map_values(f).remove(i).to_multiset().insert(
            f(x),
        )) by {
            broadcast use vstd::multiset::group_multiset_axioms;

            vstd::seq_lib::to_multiset_contains(s2.map_values(f), f(x));
            assert(s2.map_values(f)[i] == f(x));
            assert(s2.map_values(f).contains(f(x)));
        }
        assert(s1.map_values(f).to_multiset() == s1.drop_last().map_values(f).to_multiset().insert(
            f(x),
        ));
    } else {
        assert(s1.map_values(f) =~= Seq::<B>::empty());
        assert(s2.map_values(f) =~= Seq::<B>::empty());
    }
}

/// The orders the strategy driver tries.
#[derive(Clone, Copy)]
pub enum SortOrder {
    /// Area, largest first.
    AreaDesc,
    /// Height, then width, largest first.
    HeightWidthDesc,
    /// Width, then height, largest first.
    WidthHeightDesc,
}

/// Does `a` come no later than `b` under the order?
pub open spec fn key_ge(order: SortOrder, a: Item, b: Item) -> bool {
    match order {
        SortOrder::AreaDesc => a.width * a.height >= b.width * b.height,
        SortOrder::HeightWidthDesc => a.height > b.height || (a.height == b.height && a.width
            >= b.width),
        SortOrder::WidthHeightDesc => a.width > b.width || (a.width == b.width && a.height
            >= b.height),
    }
}

pub open spec fn sorted_by_order(order: SortOrder, s: Seq<Item>) -> bool {
    forall|i: int, j: int| 0 <= i < j < s.len() ==> key_ge(order, #[trigger] s[i], #[trigger] s[j])
}

/// Does `a` come strictly after `b` under the order?
fn key_less(order: &SortOrder, a: &Item, b: &Item) -> (r: bool)
    requires
        item_ok(*a),
        item_ok(*b),
    ensures
        r == !key_ge(*order, *a, *b),
{
    proof {
        assert(1 <= a.width * a.height <= 1_000_000_000_000) by (nonlinear_arith)
            requires
                1 <= a.width <= MAX_DIM,
                1 <= a.height <= MAX_DIM,
        ;
        assert(1 <= b.width * b.height <= 1_000_000_000_000) by (nonlinear_arith)
            requires
                1 <= b.width <= MAX_DIM,
                1 <= b.height <= MAX_DIM,
        ;
    }
    match order {
        SortOrder::AreaDesc => a.width * a.height < b.width * b.height,
        SortOrder::HeightWidthDesc => a.height < b.height || (a.height == b.height && a.width
            < b.width),
        SortOrder::WidthHeightDesc => a.width < b.width || (a.width == b.width && a.height
            < b.height),
    }
}

/// Sorts the items by the given order, by insertion. The result is a
/// permutation of the input.
pub(crate) fn sort_items(v: &mut Vec<Item>, order: SortOrder)
    requires
        forall|k: int| 0 <= k < old(v)@.len() ==> item_ok(#[trigger] old(v)@[k]),
    ensures
        final(v)@.to_multiset() == old(v)@.to_multiset(),
        final(v)@.len() == old(v)@.len(),
        sorted_by_order(order, final(v)@),
        forall|k: int| 0 <= k < final(v)@.len() ==> old(v)@.contains(#[trigger] final(v)@[k]),
{
    broadcast use vstd::seq_lib::group_to_multiset_ensures;

    let n = v.len();
    let mut i: usize = 1;
    while i < n && n > 0
        invariant
            n == v@.len(),
            1 <= i <= n || (n == 0 && i == 1),
            v@.to_multiset() == old(v)@.to_multiset(),
            forall|k: int| 0 <= k < v@.len() ==> item_ok(#[trigger] v@[k]),
            i <= n ==> sorted_by_order(order, v@.take(i as int)),
        decreases n - i,
    {
        let ghost pre = v@;
        let x = v.remove(i);
        let mut j: usize = i;
        while j > 0 && key_less(&order, &v[j - 1], &x)
            invariant
                0 <= j <= i < n,
                v@.len() == n - 1,
                v@ == pre.remove(i as int),
                item_ok(x),
                forall|k: int| 0 <= k < v@.len() ==> item_ok(#[trigger] v@[k]),
                forall|k: int| j <= k < i ==> !key_ge(order, #[trigger] v@[k], x),
            decreases j,
        {
            j -= 1;
        }
        v.insert(j, x);
        proof {
            broadcast use vstd::multiset::group_multiset_axioms;

            vstd::seq_lib::to_multiset_insert(pre.remove(i as int), j as int, x);
            vstd::seq_lib::to_multiset_remove(pre, i as int);
            assert(pre.contains(pre[i as int]));
            vstd::seq_lib::to_multiset_contains(pre, pre[i as int]);
            assert(pre.to_multiset().count(pre[i as int]) > 0);
            assert(v@.to_multiset() =~= pre.to_multiset().remove(pre[i as int]).insert(
                pre[i as int],
            ));
            assert(pre.to_multiset().remove(pre[i as int]).insert(pre[i as int])
                =~= pre.to_multiset());
            assert(v@.to_multiset() == old(v)@.to_multiset());
            assert forall|p: int, q: int| 0 <= p < q < (i + 1) implies key_ge(
                order,
                #[trigger] v@.take(i + 1)[p],
                #[trigger] v@.take(i + 1)[q],
            ) by {
                assert(v@.take(i + 1)[p] == v@[p]);
                assert(v@.take(i + 1)[q] == v@[q]);
            }
        }
        i += 1;
    }
    proof {
        if n > 0 {
            assert(v@.take(n as int) =~= v@);
        }
        assert forall|k: int| 0 <= k < v@.len() implies old(v)@.contains(#[trigger] v@[k]) by {
            assert(v@.contains(v@[k]));
            vstd::seq_lib::to_multiset_contains(v@, v@[k]);
            vstd::seq_lib::to_multiset_contains(old(v)@, v@[k]);
        }
    }
}

/// Swaps the dimensions of every rotatable item whose long side is not the
/// requested one, so the downstream scorer sees consistent orientations.
/// `to_height` selects whether the long side becomes the height.
pub(crate) fn normalize_items(v: &mut Vec<Item>, to_height: bool)
    requires
        forall|k: int| 0 <= k < old(v)@.len() ==> item_ok(#[trigger] old(v)@[k]),
    ensures
        final(v)@.len() == old(v)@.len(),
        forall|k: int|
            0 <= k < final(v)@.len() ==> item_same_or_swapped(#[trigger] final(v)@[k], old(v)@[k])
                && item_ok(final(v)@[k]),
{
    let n = v.len();
    let mut i: usize = 0;
    while i < n
        invariant
            n == v@.len(),
            v@.len() == old(v)@.len(),
            0 <= i <= n,
            forall|k: int| 0 <= k < old(v)@.len() ==> item_ok(#[trigger] old(v)@[k]),
            forall|k: int|
                0 <= k < i ==> item_same_or_swapped(#[trigger] v@[k], old(v)@[k]) && item_ok(
                    v@[k],
                ),
            forall|k: int| i <= k < n ==> #[trigger] v@[k] == old(v)@[k],
        decreases n - i,
    {
        let needs_swap = if v[i].can_rotate {
            if to_height {
                v[i].width > v[i].height
            } else {
                v[i].height > v[i].width
            }
        } else {
            false
        };
        if needs_swap {
            let ghost before = v@;
            let mut item = v.remove(i);
            let w = item.width;
            item.width = item.height;
            item.height = w;
            v.insert(i, item);
            proof {
                assert(v@ =~= before.update(i as int, item));
            }
        }
        i += 1;
    }
}

/// One packing step extends the coverage relation from the items before
/// `i` to the items through `i`.
proof fn lemma_cover_step(
    expanded: Seq<Item>,
    expanded_before: Seq<Item>,
    items: Seq<Item>,
    i: int,
)
    requires
        0 <= i < items.len(),
        expanded_before.len() <= expanded.len(),
        forall|k: int| 0 <= k < expanded_before.len() ==> #[trigger] expanded[k]
            == expanded_before[k],
        forall|k: int|
            expanded_before.len() <= k < expanded.len() ==> item_dims_eq(
                #[trigger] expanded[k],
                items[i],
            ),
        expanded.len() - expanded_before.len() == items[i].quantity,
        forall|k: int|
            0 <= k < expanded_before.len() ==> has_source(#[trigger] expanded_before[k], items),
        forall|q: int|
            0 <= q < i && (#[trigger] items[q]).quantity >= 1 ==> has_copy(
                items[q],
                expanded_before,
            ),
    ensures
        forall|k: int| 0 <= k < expanded.len() ==> has_source(#[trigger] expanded[k], items),
        forall|q: int|
            0 <= q < i + 1 && (#[trigger] items[q]).quantity >= 1 ==> has_copy(items[q], expanded),
{
    assert forall|k: int| 0 <= k < expanded.len() implies has_source(
        #[trigger] expanded[k],
        items,
    ) by {
        if k < expanded_before.len() {
            assert(expanded[k] == expanded_before[k]);
            assert(has_source(expanded_before[k], items));
        } else {
            assert(item_dims_eq(expanded[k], items[i]));
            assert(items[i].quantity >= 1);
            assert(has_source(expanded[k], items));
        }
    }
    assert forall|q: int|
        0 <= q < i + 1 && (#[trigger] items[q]).quantity >= 1 implies has_copy(
        items[q],
        expanded,
    ) by {
        if q < i {
            let k0 = choose|k: int|
                0 <= k < expanded_before.len() && item_dims_eq(
                    #[trigger] expanded_before[k],
                    items[q],
                );
            assert(expanded[k0] == expanded_before[k0]);
            assert(item_dims_eq(expanded[k0], items[q]));
            assert(has_copy(items[q], expanded));
        } else {
            assert(item_dims_eq(expanded[expanded_before.len() as int], items[q]));
            assert(has_copy(items[q], expanded));
        }
    }
}

impl Optimizer {
    /// Duplicates items according to their requested quantities. A single
    /// copy keeps the item's identifier; several copies get numbered
    /// suffixes. Every copy has quantity one and its source's dimensions.
    pub(crate) fn expand_items(&self) -> (r: Vec<Item>)
        requires
            self.wf(),
        ensures
            crate::model::item_ids(r@) == expanded_ids(self.request.items@),
            r@.len() == total_quantity(self.request.items@),
            forall|k: int| 0 <= k < r@.len() ==> item_ok(#[trigger] r@[k]) && r@[k].quantity == 1,
            expansion_covers(r@, self.request.items@),
            forall|i: int, c: int|
                #![trigger r@[total_quantity(self.request.items@.take(i)) + c]]
                0 <= i < self.request.items@.len() && 0 <= c < self.request.items@[i].quantity
                    ==> item_dims_eq(
                    r@[total_quantity(self.request.items@.take(i)) + c],
                    self.request.items@[i],
                ),
    {
        let mut expanded: Vec<Item> = Vec::new();
        let n = self.request.items.len();
        let mut i: usize = 0;
        while i < n
            invariant
                self.wf(),
                n == self.request.items@.len(),
                0 <= i <= n,
                crate::model::item_ids(expanded@) == expanded_ids(
                    self.request.items@.take(i as int),
                ),
                expanded@.len() == total_quantity(self.request.items@.take(i as int)),
                forall|k: int|
                    0 <= k < expanded@.len() ==> item_ok(#[trigger] expanded@[k])
                        && expanded@[k].quantity == 1,
                forall|k: int|
                    0 <= k < expanded@.len() ==> has_source(
                        #[trigger] expanded@[k],
                        self.request.items@,
                    ),
                forall|q: int|
                    0 <= q < i && (#[trigger] self.request.items@[q]).quantity >= 1 ==> has_copy(
                        self.request.items@[q],
                        expanded@,
                    ),
                forall|i0: int, c: int|
                    #![trigger expanded@[total_quantity(self.request.items@.take(i0)) + c]]
                    0 <= i0 < i && 0 <= c < self.request.items@[i0].quantity ==> item_dims_eq(
                        expanded@[total_quantity(self.request.items@.take(i0)) + c],
                        self.request.items@[i0],
                    ),
            decreases n - i,
        {
            let item = &self.request.items[i];
            let ghost expanded_before = expanded@;
            push_copies(item, &mut expanded);
            proof {
                assert(self.request.items@.take(i + 1).drop_last() =~= self.request.items@.take(
                    i as int,
                ));
                assert(self.request.items@.take(i + 1).last() == self.request.items@[i as int]);
                assert(crate::model::item_ids(expanded@) == expanded_ids(
                    self.request.items@.take(i + 1),
                ));
                lemma_cover_step(expanded@, expanded_before, self.request.items@, i as int);
                assert forall|i0: int, c: int|
                    #![trigger expanded@[total_quantity(self.request.items@.take(i0)) + c]]
                    0 <= i0 < i + 1 && 0 <= c < self.request.items@[i0].quantity
                    implies item_dims_eq(
                    expanded@[total_quantity(self.request.items@.take(i0)) + c],
                    self.request.items@[i0],
                ) by {
                    if i0 < i {
                        lemma_total_quantity_take_mono(self.request.items@, i0 + 1, i as int);
                        lemma_total_quantity_nonneg(self.request.items@.take(i0));
                        assert(self.request.items@.take(i0 + 1).drop_last()
                            =~= self.request.items@.take(i0));
                        assert(total_quantity(self.request.items@.take(i0)) + c
                            < total_quantity(self.request.items@.take(i0 + 1)));
                        assert(expanded@[total_quantity(self.request.items@.take(i0)) + c]
                            == expanded_before[total_quantity(self.request.items@.take(i0)) + c]);
                    } else {
                        assert(expanded_before.len() == total_quantity(
                            self.request.items@.take(i0),
                        ));
                        assert(item_dims_eq(
                            expanded@[expanded_before.len() + c],
                            self.request.items@[i0],
                        ));
                    }
                }
            }
            i += 1;
        }
        proof {
            assert(self.request.items@.take(n as int) =~= self.request.items@);
        }
        expanded
    }
}

/// Appends every physical copy of one item.
fn push_copies(item: &Item, out: &mut Vec<Item>)
    requires
        item_ok(*item),
    ensures
        final(out)@.len() == old(out)@.len() + item.quantity,
        forall|k: int| 0 <= k < old(out)@.len() ==> #[trigger] final(out)@[k] == old(out)@[k],
        forall|k: int|
            old(out)@.len() <= k < final(out)@.len() ==> item_dims_eq(
                #[trigger] final(out)@[k],
                *item,
            ) && item_ok(final(out)@[k]) && final(out)@[k].quantity == 1,
        crate::model::item_ids(final(out)@) == crate::model::item_ids(old(out)@) + copies_ids(
            *item,
        ),
        item.quantity >= 1 ==> item_dims_eq(final(out)@[final(out)@.len() - 1], *item),
    decreases 0int,
{
    let quantity = item.quantity;
    let mut c: u32 = 0;
    while c < quantity
        invariant
            item_ok(*item),
            quantity == item.quantity,
            0 <= c <= quantity,
            out@.len() == old(out)@.len() + c,
            forall|k: int| 0 <= k < old(out)@.len() ==> #[trigger] out@[k] == old(out)@[k],
            forall|k: int|
                old(out)@.len() <= k < out@.len() ==> item_dims_eq(#[trigger] out@[k], *item)
                    && item_ok(out@[k]) && out@[k].quantity == 1,
            crate::model::item_ids(out@) == crate::model::item_ids(old(out)@) + copies_ids(
                *item,
            ).take(c as int),
        decreases quantity - c,
    {
        let id = if quantity > 1 {
            make_suffixed_id(&item.id, c + 1)
        } else {
            item.id.clone()
        };
        let copy = Item {
            id,
            width: item.width,
            height: item.height,
            quantity: 1,
            can_rotate: item.can_rotate,
        };
        let ghost pre_push = out@;
        out.push(copy);
        proof {
            assert(copy.id@ == copies_ids(*item)[c as int]);
            assert(crate::model::item_ids(out@) =~= crate::model::item_ids(pre_push).push(
                copy.id@,
            ));
            assert(copies_ids(*item).take(c + 1) =~= copies_ids(*item).take(c as int).push(
                copies_ids(*item)[c as int],
            ));
            assert(crate::model::item_ids(out@) =~= crate::model::item_ids(old(out)@)
                + copies_ids(*item).take(c + 1));
        }
        c += 1;
    }
    proof {
        assert(copies_ids(*item).take(quantity as int) =~= copies_ids(*item));
    }
}

} // verus!
