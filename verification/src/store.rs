//! The store of items: all tasks and notes, the next ID to hand out, and the
//! default board.
use vstd::prelude::*;

use crate::item::{Item, ItemView};

verus! {

/// Everything the program keeps between runs.
pub struct Store {
    pub items: Vec<Item>,
    pub next_id: u32,
    pub default_board: Option<String>,
}

/// The items of a vector, by their views.
pub open spec fn views(items: Seq<Item>) -> Seq<ItemView> {
    items.map_values(|i: Item| i@)
}

/// The items that a vector of references points at, by their views.
pub open spec fn ref_views(items: Seq<&Item>) -> Seq<ItemView> {
    items.map_values(|i: &Item| i@)
}

pub open spec fn is_active(v: ItemView) -> bool {
    !v.archived
}

pub open spec fn is_archived(v: ItemView) -> bool {
    v.archived
}

/// Index of the first item with the given ID, or -1 where there is none.
pub open spec fn first_index_of(items: Seq<ItemView>, id: u32) -> int
    decreases items.len(),
{
    if items.len() == 0 {
        -1
    } else {
        let k = first_index_of(items.drop_last(), id);
        if k >= 0 {
            k
        } else if items.last().id == id {
            items.len() - 1
        } else {
            -1
        }
    }
}

pub proof fn lemma_first_index_of(items: Seq<ItemView>, id: u32)
    ensures
        -1 <= first_index_of(items, id) < items.len(),
        first_index_of(items, id) >= 0 ==> items[first_index_of(items, id)].id == id,
        forall|j: int|
            0 <= j < items.len() && (first_index_of(items, id) < 0 || j < first_index_of(items, id))
                ==> #[trigger] items[j].id != id,
    decreases items.len(),
{
    if items.len() > 0 {
        lemma_first_index_of(items.drop_last(), id);
        assert forall|j: int|
            0 <= j < items.len() && (first_index_of(items, id) < 0 || j < first_index_of(
                items,
                id,
            )) implies #[trigger] items[j].id != id by {
            if j < items.len() - 1 {
                assert(items[j] == items.drop_last()[j]);
            }
        }
    }
}

/// Filtering a sequence extended by one element.
pub proof fn lemma_filter_push<A>(s: Seq<A>, pred: spec_fn(A) -> bool, e: A)
    ensures
        pred(e) ==> s.push(e).filter(pred) == s.filter(pred).push(e),
        !pred(e) ==> s.push(e).filter(pred) == s.filter(pred),
{
    reveal(Seq::filter);
    assert(s.push(e).drop_last() =~= s);
}

impl Store {
    /// The store of a first run: no items, IDs starting at 1, no default board.
    pub fn fresh() -> (s: Store)
        ensures
            s.items@.len() == 0,
            s.next_id == 1,
            s.default_board is None,
    {
        Store { items: Vec::new(), next_id: 1, default_board: None }
    }

    /// Hands out the next ID and advances the counter.
    pub fn next_id(&mut self) -> (id: u32)
        requires
            old(self).next_id < u32::MAX,
        ensures
            id == old(self).next_id,
            final(self).next_id == old(self).next_id + 1,
            final(self).items == old(self).items,
            final(self).default_board == old(self).default_board,
    {
        let id = self.next_id;
        self.next_id = self.next_id + 1;
        id
    }
}

/// The items that are not archived, in store order.
pub fn active_items(store: &Store) -> (r: Vec<&Item>)
    ensures
        ref_views(r@) == views(store.items@).filter(|v: ItemView| is_active(v)),
{
    let mut r: Vec<&Item> = Vec::new();
    for i in 0..store.items.len()
        invariant
            ref_views(r@) == views(store.items@.take(i as int)).filter(|v: ItemView| is_active(v)),
    {
        let it = &store.items[i];
        proof {
            assert(views(store.items@.take(i + 1)) =~= views(store.items@.take(i as int)).push(
                store.items@[i as int]@,
            ));
            lemma_filter_push(
                views(store.items@.take(i as int)),
                |v: ItemView| is_active(v),
                store.items@[i as int]@,
            );
        }
        if !it.archived {
            r.push(it);
            assert(ref_views(r@) =~= ref_views(r@.drop_last()).push(it@));
        }
    }
    assert(store.items@.take(store.items@.len() as int) =~= store.items@);
    r
}

/// The archived items, in store order.
pub fn archived_items(store: &Store) -> (r: Vec<&Item>)
    ensures
        ref_views(r@) == views(store.items@).filter(|v: ItemView| is_archived(v)),
{
    let mut r: Vec<&Item> = Vec::new();
    for i in 0..store.items.len()
        invariant
            ref_views(r@) == views(store.items@.take(i as int)).filter(
                |v: ItemView| is_archived(v),
            ),
    {
        let it = &store.items[i];
        proof {
            assert(views(store.items@.take(i + 1)) =~= views(store.items@.take(i as int)).push(
                store.items@[i as int]@,
            ));
            lemma_filter_push(
                views(store.items@.take(i as int)),
                |v: ItemView| is_archived(v),
                store.items@[i as int]@,
            );
        }
        if it.archived {
            r.push(it);
            assert(ref_views(r@) =~= ref_views(r@.drop_last()).push(it@));
        }
    }
    assert(store.items@.take(store.items@.len() as int) =~= store.items@);
    r
}

/// Position of the first item with the given ID.
pub fn find_item_index(items: &Vec<Item>, id: u32) -> (r: Option<usize>)
    ensures
        match r {
            Some(k) => k < items@.len() && k as int == first_index_of(views(items@), id),
            None => first_index_of(views(items@), id) == -1,
        },
{
    proof {
        lemma_first_index_of(views(items@), id);
    }
    let mut i: usize = 0;
    while i < items.len()
        invariant
            i <= items@.len(),
            forall|j: int| 0 <= j < i ==> #[trigger] items@[j].id != id,
            -1 <= first_index_of(views(items@), id) < items@.len(),
            first_index_of(views(items@), id) >= 0 ==> views(items@)[first_index_of(
                views(items@),
                id,
            )].id == id,
            forall|j: int|
                0 <= j < items@.len() && (first_index_of(views(items@), id) < 0 || j
                    < first_index_of(views(items@), id)) ==> #[trigger] views(items@)[j].id != id,
        decreases items@.len() - i,
    {
        if items[i].id == id {
            assert(views(items@)[i as int].id == id);
            return Some(i);
        }
        assert(views(items@)[i as int].id != id);
        i = i + 1;
    }
    proof {
        let k = first_index_of(views(items@), id);
        if k >= 0 {
            assert(items@[k].id == views(items@)[k].id);
        }
    }
    None
}

/// The first item with the given ID, to change in place.
pub fn find_item_mut(store: &mut Store, id: u32) -> (r: Option<&mut Item>)
    ensures
        match r {
            Some(it) => {
                let k = first_index_of(views(old(store).items@), id);
                &&& k >= 0
                &&& *it == old(store).items@[k]
                &&& final(store).items@ == old(store).items@.update(k, *final(it))
                &&& final(store).next_id == old(store).next_id
                &&& final(store).default_board == old(store).default_board
            },
            None => {
                &&& first_index_of(views(old(store).items@), id) == -1
                &&& *final(store) == *old(store)
            },
        },
{
    match find_item_index(&store.items, id) {
        Some(k) => Some(&mut store.items[k]),
        None => None,
    }
}

/// Every item is either active or archived: the two lists together are as
/// long as the store.
pub proof fn active_and_archived_partition(items: Seq<ItemView>)
    ensures
        items.filter(|v: ItemView| is_active(v)).len() + items.filter(|v: ItemView| is_archived(v)).len()
            == items.len(),
    decreases items.len(),
{
    reveal(Seq::filter);
    if items.len() > 0 {
        active_and_archived_partition(items.drop_last());
    }
}

} // verus!
