//! What each command of the command line does to the store. The program
//! around it reads the command, calls one of these, saves the store and
//! reports the outcome.
use vstd::prelude::*;

use crate::item::{Item, ItemType, ItemView, Priority, Status, Timestamp, clock_now, lowercase_of, priority_from_word};
use crate::store::{Store, first_index_of, find_item_index, is_active, lemma_filter_push, lemma_first_index_of, views};
use crate::text::{chars_of, copy_string, string_of, trim, trimmed};

verus! {

/// The board that new items go to when neither the command nor the
/// configuration names one.
pub const DEFAULT_BOARD: &'static str = "My Board";

/// The board that new items go to when the command names none.
pub open spec fn default_board_of(default_board: Option<Seq<char>>) -> Seq<char> {
    match default_board {
        Some(b) => b,
        None => DEFAULT_BOARD@,
    }
}

pub open spec fn board_view(b: Option<String>) -> Option<Seq<char>> {
    match b {
        Some(s) => Some(s@),
        None => None,
    }
}

/// The configured default board, or `My Board` where none is configured.
pub fn default_board_name(store: &Store) -> (r: String)
    ensures
        r@ == default_board_of(board_view(store.default_board)),
{
    match &store.default_board {
        Some(b) => copy_string(b),
        None => string_of(chars_of(DEFAULT_BOARD).as_slice()),
    }
}

/// The board for a new item: the one given, else the default board.
pub fn board_for_new_item(store: &Store, board: Option<String>) -> (r: String)
    ensures
        r@ == match board {
            Some(b) => b@,
            None => default_board_of(board_view(store.default_board)),
        },
{
    match board {
        Some(b) => b,
        None => default_board_name(store),
    }
}

/// Sets the default board.
pub fn set_default_board(store: &mut Store, name: String)
    ensures
        board_view(final(store).default_board) == Some(name@),
        final(store).items == old(store).items,
        final(store).next_id == old(store).next_id,
{
    store.default_board = Some(name);
}

/// Adds a new task or note, created now, and returns its ID and board.
pub fn add_item(store: &mut Store, item_type: ItemType, description: String, board: Option<String>) -> (r: (
    u32,
    String,
))
    requires
        old(store).next_id < u32::MAX,
    ensures
        r.0 == old(store).next_id,
        r.1@ == match board {
            Some(b) => b@,
            None => default_board_of(board_view(old(store).default_board)),
        },
        final(store).next_id == old(store).next_id + 1,
        final(store).default_board == old(store).default_board,
        views(final(store).items@) == views(old(store).items@).push(
            ItemView::fresh(
                r.0,
                item_type,
                description@,
                r.1@,
                views(final(store).items@).last().created_at,
            ),
        ),
{
    let board = board_for_new_item(store, board);
    let id = store.next_id();
    let used = copy_string(&board);
    let item = match item_type {
        ItemType::Task => Item::new_task(id, description, board),
        ItemType::Note => Item::new_note(id, description, board),
    };
    let ghost before = store.items@;
    store.items.push(item);
    assert(views(store.items@) =~= views(before).push(item@));
    (id, used)
}

/// The description of the first item with the given ID.
pub fn current_description(store: &Store, id: u32) -> (r: Option<String>)
    ensures
        match r {
            Some(d) => {
                let k = first_index_of(views(store.items@), id);
                k >= 0 && d@ == views(store.items@)[k].description
            },
            None => first_index_of(views(store.items@), id) == -1,
        },
{
    match find_item_index(&store.items, id) {
        Some(k) => Some(copy_string(&store.items[k].description)),
        None => None,
    }
}

/// What the user typed as a new description: trimmed, and `None` where that
/// leaves nothing (the edit is cancelled).
pub fn edited_description(line: &str) -> (r: Option<String>)
    ensures
        match r {
            Some(d) => trim(line@).len() > 0 && d@ == trim(line@),
            None => trim(line@).len() == 0,
        },
{
    let t = trimmed(chars_of(line).as_slice());
    if t.len() == 0 {
        None
    } else {
        Some(string_of(t.as_slice()))
    }
}

/// Replaces the description of the first item with the given ID; `false`
/// where there is no such item.
pub fn edit_description(store: &mut Store, id: u32, description: String) -> (found: bool)
    ensures
        found == (first_index_of(views(old(store).items@), id) >= 0),
        found ==> {
            let k = first_index_of(views(old(store).items@), id);
            views(final(store).items@) == views(old(store).items@).update(
                k,
                ItemView { description: description@, ..views(old(store).items@)[k] },
            )
        },
        !found ==> views(final(store).items@) == views(old(store).items@),
        final(store).next_id == old(store).next_id,
        final(store).default_board == old(store).default_board,
{
    match find_item_index(&store.items, id) {
        Some(k) => {
            let ghost before = store.items@;
            store.items[k].description = description;
            assert(views(store.items@) =~= views(before).update(
                k as int,
                ItemView { description: description@, ..views(before)[k as int] },
            ));
            true
        },
        None => false,
    }
}

/// How a priority change ended.
#[derive(Clone, Copy, Debug, PartialEq, Eq, Structural)]
pub enum PriorityChange {
    /// The level is none of `low`, `medium`, `high`, `none`.
    InvalidLevel,
    /// No item has the ID.
    NotFound,
    /// The item now has the level.
    Updated,
}

/// Sets the priority of the first item with the given ID from a level word
/// (`low`, `medium`, `high` or `none`, in any case). The level is checked
/// first.
pub fn set_priority(store: &mut Store, id: u32, level: &str) -> (r: PriorityChange)
    ensures
        r == (if priority_from_word(lowercase_of(level@)) is None {
            PriorityChange::InvalidLevel
        } else if first_index_of(views(old(store).items@), id) < 0 {
            PriorityChange::NotFound
        } else {
            PriorityChange::Updated
        }),
        r == PriorityChange::Updated ==> {
            let k = first_index_of(views(old(store).items@), id);
            views(final(store).items@) == views(old(store).items@).update(
                k,
                ItemView {
                    priority: priority_from_word(lowercase_of(level@))->0,
                    ..views(old(store).items@)[k]
                },
            )
        },
        r != PriorityChange::Updated ==> views(final(store).items@) == views(old(store).items@),
        final(store).next_id == old(store).next_id,
        final(store).default_board == old(store).default_board,
{
    match Priority::from_str(level) {
        None => PriorityChange::InvalidLevel,
        Some(p) => match find_item_index(&store.items, id) {
            None => PriorityChange::NotFound,
            Some(k) => {
                let ghost before = store.items@;
                store.items[k].priority = p;
                assert(views(store.items@) =~= views(before).update(
                    k as int,
                    ItemView { priority: p, ..views(before)[k as int] },
                ));
                PriorityChange::Updated
            },
        },
    }
}

/// A change that a command makes to each of a list of items.
pub enum BulkAction {
    /// Move the item to the named board.
    MoveTo(String),
    /// Put the item in the archive.
    Archive,
    /// Mark the item done (tasks only).
    MarkDone,
    /// Mark the item pending again.
    MarkUndone,
    /// Take the item out of the archive.
    Restore,
}

pub enum BulkActionView {
    MoveTo(Seq<char>),
    Archive,
    MarkDone,
    MarkUndone,
    Restore,
}

impl View for BulkAction {
    type V = BulkActionView;

    open spec fn view(&self) -> BulkActionView {
        match self {
            BulkAction::MoveTo(b) => BulkActionView::MoveTo(b@),
            BulkAction::Archive => BulkActionView::Archive,
            BulkAction::MarkDone => BulkActionView::MarkDone,
            BulkAction::MarkUndone => BulkActionView::MarkUndone,
            BulkAction::Restore => BulkActionView::Restore,
        }
    }
}

/// What became of one ID of a bulk command.
#[derive(Clone, Copy, Debug, PartialEq, Eq, Structural)]
pub enum BulkOutcome {
    /// The change was made.
    Applied,
    /// No item has the ID.
    NotFound,
    /// The item is a note, and only tasks can be marked done.
    NotTask,
}

/// The change to one item.
pub open spec fn changed(v: ItemView, action: BulkActionView, now: Timestamp) -> ItemView {
    match action {
        BulkActionView::MoveTo(b) => ItemView { board: b, ..v },
        BulkActionView::Archive => ItemView { archived: true, ..v },
        BulkActionView::MarkDone => ItemView { status: Status::Done, completed_at: Some(now), ..v },
        BulkActionView::MarkUndone => ItemView { status: Status::Pending, completed_at: None, ..v },
        BulkActionView::Restore => ItemView { archived: false, ..v },
    }
}

/// One ID of a bulk command: the first item with that ID changes.
pub open spec fn bulk_step(items: Seq<ItemView>, id: u32, action: BulkActionView, now: Timestamp) -> (
    Seq<ItemView>,
    BulkOutcome,
) {
    let k = first_index_of(items, id);
    if k < 0 {
        (items, BulkOutcome::NotFound)
    } else if action is MarkDone && items[k].item_type != ItemType::Task {
        (items, BulkOutcome::NotTask)
    } else {
        (items.update(k, changed(items[k], action, now)), BulkOutcome::Applied)
    }
}

/// A bulk command, ID by ID in the order given.
pub open spec fn bulk_run(items: Seq<ItemView>, ids: Seq<u32>, action: BulkActionView, now: Timestamp) -> (
    Seq<ItemView>,
    Seq<BulkOutcome>,
)
    decreases ids.len(),
{
    if ids.len() == 0 {
        (items, Seq::<BulkOutcome>::empty())
    } else {
        let (before, outcomes) = bulk_run(items, ids.drop_last(), action, now);
        let (after, o) = bulk_step(before, ids.last(), action, now);
        (after, outcomes.push(o))
    }
}

/// Applies a bulk command, marking items done at `now`; returns what became
/// of each ID.
pub fn apply_bulk_at(store: &mut Store, ids: &Vec<u32>, action: &BulkAction, now: Timestamp) -> (r: Vec<
    BulkOutcome,
>)
    ensures
        (views(final(store).items@), r@) == bulk_run(views(old(store).items@), ids@, action@, now),
        final(store).next_id == old(store).next_id,
        final(store).default_board == old(store).default_board,
{
    let mut outcomes: Vec<BulkOutcome> = Vec::new();
    let ghost start = views(store.items@);
    for i in 0..ids.len()
        invariant
            (views(store.items@), outcomes@) == bulk_run(start, ids@.take(i as int), action@, now),
            store.next_id == old(store).next_id,
            store.default_board == old(store).default_board,
    {
        let id = ids[i];
        let ghost before = views(store.items@);
        proof {
            assert(ids@.take(i + 1).drop_last() =~= ids@.take(i as int));
            assert(ids@.take(i + 1).last() == id);
            lemma_first_index_of(before, id);
        }
        match find_item_index(&store.items, id) {
            None => {
                outcomes.push(BulkOutcome::NotFound);
            },
            Some(k) => {
                let ghost old_items = store.items@;
                match action {
                    BulkAction::MarkDone => {
                        if store.items[k].item_type != ItemType::Task {
                            outcomes.push(BulkOutcome::NotTask);
                        } else {
                            store.items[k].mark_done_at(now);
                            outcomes.push(BulkOutcome::Applied);
                        }
                    },
                    BulkAction::MarkUndone => {
                        store.items[k].mark_undone();
                        outcomes.push(BulkOutcome::Applied);
                    },
                    BulkAction::Archive => {
                        store.items[k].archived = true;
                        outcomes.push(BulkOutcome::Applied);
                    },
                    BulkAction::Restore => {
                        store.items[k].archived = false;
                        outcomes.push(BulkOutcome::Applied);
                    },
                    BulkAction::MoveTo(b) => {
                        store.items[k].board = copy_string(b);
                        outcomes.push(BulkOutcome::Applied);
                    },
                }
                proof {
                    if outcomes@.last() == BulkOutcome::Applied {
                        assert(views(store.items@) =~= before.update(
                            k as int,
                            changed(before[k as int], action@, now),
                        ));
                    } else {
                        assert(views(store.items@) =~= before);
                    }
                }
            },
        }
    }
    assert(ids@.take(ids@.len() as int) =~= ids@);
    outcomes
}

/// Applies a bulk command now; returns what became of each ID.
pub fn apply_bulk(store: &mut Store, ids: &Vec<u32>, action: &BulkAction) -> (r: Vec<BulkOutcome>)
    ensures
        exists|now: Timestamp|
            (views(final(store).items@), r@) == #[trigger] bulk_run(
                views(old(store).items@),
                ids@,
                action@,
                now,
            ),
        final(store).next_id == old(store).next_id,
        final(store).default_board == old(store).default_board,
{
    let now = clock_now();
    apply_bulk_at(store, ids, action, now)
}

/// How many of the outcomes are `Applied`.
pub open spec fn applied_count(outcomes: Seq<BulkOutcome>) -> nat
    decreases outcomes.len(),
{
    if outcomes.len() == 0 {
        0
    } else {
        applied_count(outcomes.drop_last()) + if outcomes.last() == BulkOutcome::Applied {
            1nat
        } else {
            0nat
        }
    }
}

/// The number of IDs whose change was made.
pub fn count_applied(outcomes: &Vec<BulkOutcome>) -> (n: usize)
    ensures
        n == applied_count(outcomes@),
{
    let mut n: usize = 0;
    for i in 0..outcomes.len()
        invariant
            n == applied_count(outcomes@.take(i as int)),
            n <= i,
    {
        assert(outcomes@.take(i + 1).drop_last() =~= outcomes@.take(i as int));
        if outcomes[i] == BulkOutcome::Applied {
            n = n + 1;
        }
    }
    assert(outcomes@.take(outcomes@.len() as int) =~= outcomes@);
    n
}

/// The items kept when those that fail `keep` are dropped.
fn retain_items(items: &Vec<Item>, keep_archived: bool, drop_id: Option<u32>) -> (r: Vec<Item>)
    ensures
        views(r@) == views(items@).filter(|v: ItemView| kept(v, keep_archived, drop_id)),
{
    let mut r: Vec<Item> = Vec::new();
    for i in 0..items.len()
        invariant
            views(r@) == views(items@.take(i as int)).filter(|v: ItemView| kept(v, keep_archived, drop_id)),
    {
        proof {
            assert(views(items@.take(i + 1)) =~= views(items@.take(i as int)).push(items@[i as int]@));
            lemma_filter_push(
                views(items@.take(i as int)),
                |v: ItemView| kept(v, keep_archived, drop_id),
                items@[i as int]@,
            );
        }
        let keep = match drop_id {
            Some(id) => items[i].id != id,
            None => keep_archived || !items[i].archived,
        };
        if keep {
            let c = items[i].clone();
            let ghost prev = r@;
            r.push(c);
            assert(views(r@) =~= views(prev).push(c@));
        }
    }
    assert(items@.take(items@.len() as int) =~= items@);
    r
}

pub open spec fn kept(v: ItemView, keep_archived: bool, drop_id: Option<u32>) -> bool {
    match drop_id {
        Some(id) => v.id != id,
        None => keep_archived || !v.archived,
    }
}

/// Permanently deletes every archived item; returns how many there were.
pub fn clear_archive(store: &mut Store) -> (removed: usize)
    ensures
        views(final(store).items@) == views(old(store).items@).filter(|v: ItemView| is_active(v)),
        removed == old(store).items@.len() - final(store).items@.len(),
        final(store).next_id == old(store).next_id,
        final(store).default_board == old(store).default_board,
{
    let before = store.items.len();
    let kept_items = retain_items(&store.items, false, None);
    assert(views(store.items@).filter(|v: ItemView| kept(v, false, None)) =~= views(store.items@).filter(|v: ItemView| is_active(v))) by {
        assert((|v: ItemView| kept(v, false, None)) =~= (|v: ItemView| is_active(v)));
    }
    proof {
        views(store.items@).lemma_filter_len(|v: ItemView| is_active(v));
    }
    store.items = kept_items;
    before - store.items.len()
}

/// Permanently deletes every item with the given ID.
pub fn delete_item(store: &mut Store, id: u32)
    ensures
        views(final(store).items@) == views(old(store).items@).filter(|v: ItemView| v.id != id),
        final(store).next_id == old(store).next_id,
        final(store).default_board == old(store).default_board,
{
    let kept_items = retain_items(&store.items, true, Some(id));
    assert(views(store.items@).filter(|v: ItemView| kept(v, true, Some(id))) =~= views(store.items@).filter(|v: ItemView| v.id != id)) by {
        assert((|v: ItemView| kept(v, true, Some(id))) =~= (|v: ItemView| v.id != id));
    }
    store.items = kept_items;
}

/// Restoring an item that was just archived gives back the items as they
/// were, where the item was active before.
pub proof fn restore_undoes_archive(items: Seq<ItemView>, id: u32, now: Timestamp)
    requires
        first_index_of(items, id) >= 0,
        !items[first_index_of(items, id)].archived,
    ensures
        bulk_step(bulk_step(items, id, BulkActionView::Archive, now).0, id, BulkActionView::Restore, now).0
            == items,
{
    let k = first_index_of(items, id);
    lemma_first_index_of(items, id);
    let a = items.update(k, changed(items[k], BulkActionView::Archive, now));
    lemma_first_index_of_update(items, id, k, changed(items[k], BulkActionView::Archive, now));
    assert(a.update(k, changed(a[k], BulkActionView::Restore, now)) =~= items);
}

/// Marking a pending task undone after marking it done gives back the items
/// as they were.
pub proof fn bulk_undone_undoes_done(items: Seq<ItemView>, id: u32, now: Timestamp)
    requires
        first_index_of(items, id) >= 0,
        items[first_index_of(items, id)].item_type == ItemType::Task,
        items[first_index_of(items, id)].status == Status::Pending,
        items[first_index_of(items, id)].completed_at is None,
    ensures
        bulk_step(bulk_step(items, id, BulkActionView::MarkDone, now).0, id, BulkActionView::MarkUndone, now).0
            == items,
{
    let k = first_index_of(items, id);
    lemma_first_index_of(items, id);
    let a = items.update(k, changed(items[k], BulkActionView::MarkDone, now));
    lemma_first_index_of_update(items, id, k, changed(items[k], BulkActionView::MarkDone, now));
    assert(a.update(k, changed(a[k], BulkActionView::MarkUndone, now)) =~= items);
}

/// Changing an item other than by its ID leaves where its ID is found.
proof fn lemma_first_index_of_update(items: Seq<ItemView>, id: u32, k: int, w: ItemView)
    requires
        k == first_index_of(items, id),
        k >= 0,
        w.id == id,
    ensures
        first_index_of(items.update(k, w), id) == k,
{
    lemma_first_index_of(items, id);
    let u = items.update(k, w);
    lemma_first_index_of(u, id);
    let j = first_index_of(u, id);
    if j >= 0 && j < k {
        assert(u[j] == items[j]);
    }
    if j < 0 || j > k {
        assert(u[k].id == id);
    }
}

/// After the archive is cleared nothing is archived, and the active items
/// are as they were.
pub proof fn clear_archive_keeps_active(items: Seq<ItemView>)
    ensures
        items.filter(|v: ItemView| is_active(v)).filter(|v: ItemView| !is_active(v)).len() == 0,
        items.filter(|v: ItemView| is_active(v)).filter(|v: ItemView| is_active(v)) == items.filter(
            |v: ItemView| is_active(v),
        ),
    decreases items.len(),
{
    reveal(Seq::filter);
    if items.len() > 0 {
        clear_archive_keeps_active(items.drop_last());
        let f = items.drop_last().filter(|v: ItemView| is_active(v));
        lemma_filter_push(f, |v: ItemView| is_active(v), items.last());
        lemma_filter_push(f, |v: ItemView| !is_active(v), items.last());
    }
}

/// Whether every item's ID is below the next ID to hand out.
pub open spec fn ids_below(items: Seq<ItemView>, next: u32) -> bool {
    forall|i: int| 0 <= i < items.len() ==> #[trigger] items[i].id < next
}

/// Where every ID is below the counter, an added item's ID is new, and the
/// store keeps every ID below the advanced counter.
pub proof fn added_ids_are_new(items: Seq<ItemView>, next: u32, added: ItemView)
    requires
        ids_below(items, next),
        added.id == next,
        next < u32::MAX,
    ensures
        forall|i: int| 0 <= i < items.len() ==> #[trigger] items[i].id != added.id,
        ids_below(items.push(added), (next + 1) as u32),
{
    assert forall|i: int| 0 <= i < items.push(added).len() implies #[trigger] items.push(added)[i].id < (next + 1) as u32 by {
        if i < items.len() {
            assert(items.push(added)[i] == items[i]);
        }
    }
}

} // verus!
