//! The order in which results are shown, a stable sort into it, and the
//! response that carries them with the condition they answer.

use vstd::prelude::*;
use crate::model::{in_order, models, Item, ItemModel};
use crate::query::Condition;

verus! {

/// The items that sit at the place of category id `c` and id `id`.
pub open spec fn at_place(c: u32, id: u32) -> spec_fn(ItemModel) -> bool {
    |m: ItemModel| m.category_id() == c && m.id == id
}

/// `s` runs in result order.
pub open spec fn is_ordered(s: Seq<ItemModel>) -> bool {
    forall|i: int, j: int| 0 <= i < j < s.len() ==> in_order(#[trigger] s[i], #[trigger] s[j])
}

/// Every place holds the same items, in the same relative order, in `inp`
/// and in `out`.
pub open spec fn keeps_places(inp: Seq<ItemModel>, out: Seq<ItemModel>) -> bool {
    forall|c: u32, id: u32| #[trigger] out.filter(at_place(c, id)) == inp.filter(at_place(c, id))
}

/// `out` is `inp` put in result order by a stable sort.
pub open spec fn ordered_arrangement(inp: Seq<ItemModel>, out: Seq<ItemModel>) -> bool {
    is_ordered(out) && keeps_places(inp, out)
}

/// Whether `a` comes no later than `b`.
pub fn comes_first(a: &Item, b: &Item) -> (r: bool)
    ensures
        r == in_order(a@, b@),
{
    let ca = a.get_item_search_category_id();
    let cb = b.get_item_search_category_id();
    ca < cb || (ca == cb && a.id <= b.id)
}

proof fn lemma_filter_none(s: Seq<ItemModel>, p: spec_fn(ItemModel) -> bool)
    requires
        forall|k: int| 0 <= k < s.len() ==> !p(#[trigger] s[k]),
    ensures
        s.filter(p) == Seq::<ItemModel>::empty(),
{
    s.lemma_all_neg_filter_empty(p);
    assert(s.filter(p) =~= Seq::<ItemModel>::empty());
}

proof fn lemma_filter_take_next(s: Seq<ItemModel>, k: int, p: spec_fn(ItemModel) -> bool)
    requires
        0 <= k < s.len(),
    ensures
        s.take(k + 1).filter(p) == (if p(s[k]) {
            s.take(k).filter(p).push(s[k])
        } else {
            s.take(k).filter(p)
        }),
{
    assert(s.take(k + 1) =~= s.take(k).push(s[k]));
    s.take(k).lemma_filter_push(s[k], p);
}

proof fn lemma_models_push(s: Seq<Item>, x: Item)
    ensures
        models(s.push(x)) == models(s).push(x@),
{
    assert(models(s.push(x)) =~= models(s).push(x@));
}

/// The items of `v` in reverse order.
fn reversed(v: Vec<Item>) -> (r: Vec<Item>)
    ensures
        r.len() == v.len(),
        forall|k: int| 0 <= k < r.len() ==> #[trigger] r@[k] == v@[v.len() - 1 - k],
{
    let ghost orig = v@;
    let mut v = v;
    let mut r: Vec<Item> = Vec::new();
    while v.len() > 0
        invariant
            v@ == orig.take(v.len() as int),
            r.len() + v.len() == orig.len(),
            forall|k: int| 0 <= k < r.len() ==> #[trigger] r@[k] == orig[orig.len() - 1 - k],
        decreases v.len(),
    {
        let x = v.pop().unwrap();
        r.push(x);
        assert(v@ =~= orig.take(v.len() as int));
    }
    r
}

/// Merges two runs in result order; on a tie the item of `a` goes first.
fn merge(a: Vec<Item>, b: Vec<Item>) -> (r: Vec<Item>)
    requires
        is_ordered(models(a@)),
        is_ordered(models(b@)),
    ensures
        ordered_arrangement(models(a@) + models(b@), models(r@)),
{
    let ghost ma = models(a@);
    let ghost mb = models(b@);
    let na = a.len();
    let nb = b.len();
    let mut ra = reversed(a);
    let mut rb = reversed(b);
    let mut out: Vec<Item> = Vec::new();
    let ghost mut i: int = 0;
    let ghost mut j: int = 0;
    assert(ma.take(0) =~= Seq::<ItemModel>::empty());
    assert(mb.take(0) =~= Seq::<ItemModel>::empty());
    while ra.len() > 0 || rb.len() > 0
        invariant
            na == ma.len(),
            nb == mb.len(),
            is_ordered(ma),
            is_ordered(mb),
            0 <= i <= na,
            0 <= j <= nb,
            ra.len() == na - i,
            rb.len() == nb - j,
            forall|k: int| 0 <= k < ra.len() ==> (#[trigger] ra@[k])@ == ma[na - 1 - k],
            forall|k: int| 0 <= k < rb.len() ==> (#[trigger] rb@[k])@ == mb[nb - 1 - k],
            is_ordered(models(out@)),
            out.len() == i + j,
            out.len() > 0 && i < na ==> in_order(models(out@).last(), ma[i]),
            out.len() > 0 && j < nb ==> in_order(models(out@).last(), mb[j]),
            forall|k: int| 0 <= k < j && i < na ==> !in_order(ma[i], #[trigger] mb[k]),
            forall|c: u32, id: u32| #[trigger]
                models(out@).filter(at_place(c, id)) == ma.take(i).filter(at_place(c, id))
                    + mb.take(j).filter(at_place(c, id)),
        decreases ra.len() + rb.len(),
    {
        let ghost before = models(out@);
        let take_a = if ra.len() == 0 {
            false
        } else if rb.len() == 0 {
            true
        } else {
            comes_first(&ra[ra.len() - 1], &rb[rb.len() - 1])
        };
        if take_a {
            let x = ra.pop().unwrap();
            assert(x@ == ma[i]);
            proof {
                lemma_models_push(out@, x);
                assert forall|c: u32, id: u32| #[trigger]
                    before.push(x@).filter(at_place(c, id)) == ma.take(i + 1).filter(
                        at_place(c, id),
                    ) + mb.take(j).filter(at_place(c, id)) by {
                    let p = at_place(c, id);
                    before.lemma_filter_push(x@, p);
                    lemma_filter_take_next(ma, i, p);
                    if p(x@) {
                        assert forall|k: int| 0 <= k < mb.take(j).len() implies !p(
                            #[trigger] mb.take(j)[k],
                        ) by {
                            assert(mb.take(j)[k] == mb[k]);
                            assert(!in_order(ma[i], mb[k]));
                        }
                        lemma_filter_none(mb.take(j), p);
                        assert(mb.take(j).filter(p) + Seq::<ItemModel>::empty() =~= mb.take(
                            j,
                        ).filter(p));
                        assert(ma.take(i).filter(p).push(x@) + mb.take(j).filter(p) =~= (
                        ma.take(i).filter(p) + mb.take(j).filter(p)).push(x@));
                    }
                }
                i = i + 1;
            }
            out.push(x);
        } else {
            let x = rb.pop().unwrap();
            assert(x@ == mb[j]);
            proof {
                lemma_models_push(out@, x);
                assert forall|c: u32, id: u32| #[trigger]
                    before.push(x@).filter(at_place(c, id)) == ma.take(i).filter(at_place(c, id))
                        + mb.take(j + 1).filter(at_place(c, id)) by {
                    let p = at_place(c, id);
                    before.lemma_filter_push(x@, p);
                    lemma_filter_take_next(mb, j, p);
                    if p(x@) {
                        assert(ma.take(i).filter(p) + mb.take(j).filter(p).push(x@) =~= (
                        ma.take(i).filter(p) + mb.take(j).filter(p)).push(x@));
                    }
                }
                j = j + 1;
            }
            out.push(x);
        }
    }
    assert(ma.take(na as int) =~= ma);
    assert(mb.take(nb as int) =~= mb);
    proof {
        assert forall|c: u32, id: u32| #[trigger]
            models(out@).filter(at_place(c, id)) == (ma + mb).filter(at_place(c, id)) by {
            Seq::filter_distributes_over_add(ma, mb, at_place(c, id));
        }
    }
    out
}

/// Puts `items` in result order: by category id, an absent one counting as
/// zero, then by id. The sort is stable.
pub fn sort_items(items: Vec<Item>) -> (r: Vec<Item>)
    ensures
        ordered_arrangement(models(items@), models(r@)),
    decreases items.len(),
{
    let ghost whole = items@;
    if items.len() <= 1 {
        return items;
    }
    let mut left = items;
    let right = left.split_off(left.len() / 2);
    assert(whole =~= left@ + right@);
    assert(models(whole) =~= models(left@) + models(right@));
    let sl = sort_items(left);
    let sr = sort_items(right);
    let r = merge(sl, sr);
    proof {
        assert forall|c: u32, id: u32| #[trigger]
            models(r@).filter(at_place(c, id)) == models(whole).filter(at_place(c, id)) by {
            Seq::filter_distributes_over_add(models(sl@), models(sr@), at_place(c, id));
            Seq::filter_distributes_over_add(models(left@), models(right@), at_place(c, id));
        }
    }
    r
}

/// Results in result order: each item's category id (an absent one counting
/// as zero) is at most the next one's, and where the two are equal, so is
/// its id.
pub proof fn ordered_results_step_up(inp: Seq<ItemModel>, out: Seq<ItemModel>)
    requires
        ordered_arrangement(inp, out),
    ensures
        forall|i: int|
            0 <= i < out.len() - 1 ==> (#[trigger] out[i]).category_id() <= out[i + 1].category_id()
                && (out[i].category_id() == out[i + 1].category_id() ==> out[i].id <= out[i
                + 1].id),
{
    assert forall|i: int| 0 <= i < out.len() - 1 implies (#[trigger] out[i]).category_id()
        <= out[i + 1].category_id() && (out[i].category_id() == out[i + 1].category_id()
        ==> out[i].id <= out[i + 1].id) by {
        assert(in_order(out[i], out[i + 1]));
    }
}

/// The response to a query: the condition it answers, echoed back, and the
/// items found.
#[derive(Debug)]
pub struct ResponseData {
    pub condition: Condition,
    pub results: Vec<Item>,
}

/// Puts the items found for `condition` in result order and wraps them
/// with it.
pub fn assemble(condition: Condition, items: Vec<Item>) -> (r: ResponseData)
    ensures
        r.condition == condition,
        ordered_arrangement(models(items@), models(r.results@)),
{
    ResponseData { condition, results: sort_items(items) }
}

} // verus!
