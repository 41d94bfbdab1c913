//! Retrieval from a local snapshot of the catalog: the items were decoded
//! when the snapshot was loaded, so a query only filters and orders them.

use vstd::prelude::*;
use crate::model::{models, Item, ItemModel, Language};
use crate::order::{ordered_arrangement, sort_items};
use crate::query::{name_contains, Condition};
use crate::text::empty_text_is_contained;

verus! {

/// The items of `snapshot` that `condition` asks for, in result order.
pub fn select_items(snapshot: &Vec<Item>, condition: &Condition) -> (r: Vec<Item>)
    ensures
        ordered_arrangement(models(snapshot@).filter(condition.admits()), models(r@)),
{
    let ghost all = models(snapshot@);
    let mut kept: Vec<Item> = Vec::new();
    assert(all.take(0) =~= Seq::<ItemModel>::empty());
    assert(models(kept@) =~= Seq::<ItemModel>::empty());
    let mut i: usize = 0;
    while i < snapshot.len()
        invariant
            i <= snapshot.len(),
            all == models(snapshot@),
            models(kept@) == all.take(i as int).filter(condition.admits()),
        decreases snapshot.len() - i,
    {
        assert(all.take(i + 1) =~= all.take(i as int).push(all[i as int]));
        proof {
            all.take(i as int).lemma_filter_push(all[i as int], condition.admits());
        }
        if condition.matches(&snapshot[i]) {
            let copy = snapshot[i].duplicate();
            assert(models(kept@.push(copy)) =~= models(kept@).push(copy@));
            kept.push(copy);
        }
        i = i + 1;
    }
    assert(all.take(snapshot.len() as int) =~= all);
    sort_items(kept)
}

/// The items of `list` whose name in `lang` holds `string`, in result order.
pub fn filter_and_sort(list: &Vec<Item>, lang: &Language, string: &String) -> (r: Vec<Item>)
    ensures
        ordered_arrangement(models(list@).filter(name_contains(*lang, string@)), models(r@)),
{
    let condition = Condition::BySubstring(*lang, string.clone());
    select_items(list, &condition)
}

/// The empty text is held by every name, so a search for it keeps every
/// item.
pub proof fn empty_text_keeps_every_item(items: Seq<ItemModel>, language: Language)
    ensures
        items.filter(name_contains(language, Seq::<char>::empty())) == items,
    decreases items.len(),
{
    let p = name_contains(language, Seq::<char>::empty());
    if items.len() > 0 {
        let prefix = items.drop_last();
        empty_text_keeps_every_item(prefix, language);
        empty_text_is_contained(items.last().name(language));
        prefix.lemma_filter_push(items.last(), p);
        assert(prefix.push(items.last()) =~= items);
    } else {
        assert(items.filter(p) =~= items) by {
            reveal(Seq::filter);
        }
    }
}

} // verus!
