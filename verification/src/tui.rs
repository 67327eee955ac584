//! The interactive views: the cursor over the selectable items, and what each
//! key press does to the view and to the store. The terminal program draws,
//! reads a key, hands it here and carries out the action it gets back.
use vstd::prelude::*;

use crate::board::{group_tasks_by_board, grouping, stats_groups};
use crate::item::{Item, ItemType, ItemView, Priority, Status, Timestamp, clock_now};
use crate::store::{Store, lemma_filter_push, active_items, archived_items, find_item_index, first_index_of, is_active, is_archived, ref_views, views};
use crate::commands::delete_item;
use crate::screen::{archive_board_names, first_seen_boards};
use crate::text::{chars_of, copy_string, same_text, string_of, trimmed, trim};

verus! {

/// What keys do in the task view.
#[derive(Clone, Copy, Debug, PartialEq, Eq, Structural)]
pub enum InputMode {
    /// Moving, toggling, editing, archiving.
    Normal,
    /// Choosing a priority for the selected item.
    PrioritySelect,
}

/// The cursor over the selectable items (by ID, in display order) and the
/// input mode.
pub struct TuiState {
    pub selectable: Vec<u32>,
    pub cursor: usize,
    pub mode: InputMode,
}

pub struct TuiStateView {
    pub selectable: Seq<u32>,
    pub cursor: nat,
    pub mode: InputMode,
}

impl View for TuiState {
    type V = TuiStateView;

    open spec fn view(&self) -> TuiStateView {
        TuiStateView { selectable: self.selectable@, cursor: self.cursor as nat, mode: self.mode }
    }
}

impl TuiStateView {
    /// The cursor stands on a selectable item whenever there is one.
    pub open spec fn cursor_ok(self) -> bool {
        self.selectable.len() == 0 || self.cursor < self.selectable.len()
    }

    pub open spec fn selected(self) -> Option<u32> {
        if self.cursor < self.selectable.len() {
            Some(self.selectable[self.cursor as int])
        } else {
            None
        }
    }

    pub open spec fn moved_up(self) -> TuiStateView {
        if self.cursor > 0 {
            TuiStateView { cursor: (self.cursor - 1) as nat, ..self }
        } else {
            self
        }
    }

    pub open spec fn moved_down(self) -> TuiStateView {
        if self.selectable.len() > 0 && self.cursor < self.selectable.len() - 1 {
            TuiStateView { cursor: self.cursor + 1, ..self }
        } else {
            self
        }
    }

    /// The state over a new list of selectable items, the cursor pulled back
    /// onto the last item where it stands past the end.
    pub open spec fn refreshed(self, sel: Seq<u32>) -> TuiStateView {
        TuiStateView {
            selectable: sel,
            cursor: if sel.len() > 0 && self.cursor >= sel.len() {
                (sel.len() - 1) as nat
            } else {
                self.cursor
            },
            mode: self.mode,
        }
    }
}

impl TuiState {
    /// A view over the given items, the cursor on the first, in normal mode.
    pub fn new(selectable: Vec<u32>) -> (s: TuiState)
        ensures
            s@ == (TuiStateView { selectable: selectable@, cursor: 0, mode: InputMode::Normal }),
    {
        TuiState { selectable, cursor: 0, mode: InputMode::Normal }
    }

    /// Moves the cursor one item up, where there is one.
    pub fn move_up(&mut self)
        ensures
            final(self)@ == old(self)@.moved_up(),
    {
        if self.cursor > 0 {
            self.cursor = self.cursor - 1;
        }
    }

    /// Moves the cursor one item down, where there is one.
    pub fn move_down(&mut self)
        ensures
            final(self)@ == old(self)@.moved_down(),
    {
        if self.selectable.len() > 0 && self.cursor < self.selectable.len() - 1 {
            self.cursor = self.cursor + 1;
        }
    }

    /// The ID under the cursor.
    pub fn selected_id(&self) -> (r: Option<u32>)
        ensures
            r == self@.selected(),
    {
        if self.cursor < self.selectable.len() {
            Some(self.selectable[self.cursor])
        } else {
            None
        }
    }

    /// Replaces the selectable items and keeps the cursor on one of them.
    pub fn refresh(&mut self, selectable: Vec<u32>)
        ensures
            final(self)@ == old(self)@.refreshed(selectable@),
    {
        self.selectable = selectable;
        if self.selectable.len() > 0 && self.cursor >= self.selectable.len() {
            self.cursor = self.selectable.len() - 1;
        }
    }
}

/// The IDs of the items of the groups, group after group.
pub open spec fn group_ids(groups: Seq<(Seq<char>, Seq<ItemView>)>) -> Seq<u32>
    decreases groups.len(),
{
    if groups.len() == 0 {
        Seq::<u32>::empty()
    } else {
        group_ids(groups.drop_last()) + groups.last().1.map_values(|v: ItemView| v.id)
    }
}

/// The items the task view lets one select: the active tasks, board by board
/// in order of board name, each board's tasks in store order.
pub open spec fn selectable_tasks(items: Seq<ItemView>) -> Seq<u32> {
    group_ids(grouping(items.filter(|v: ItemView| is_active(v)), Some(ItemType::Task)))
}

/// The IDs of the items on the named boards: board after board, each board's
/// items in the order of `a`.
pub open spec fn archive_ids(names: Seq<Seq<char>>, a: Seq<ItemView>) -> Seq<u32>
    decreases names.len(),
{
    if names.len() == 0 {
        Seq::<u32>::empty()
    } else {
        archive_ids(names.drop_last(), a) + a.filter(|v: ItemView| v.board == names.last()).map_values(
            |v: ItemView| v.id,
        )
    }
}

/// The items the archive view lets one select, in the order it shows them:
/// the archived items board by board, boards in the order they first occur,
/// each board's items in store order.
pub open spec fn selectable_archived(items: Seq<ItemView>) -> Seq<u32> {
    let a = items.filter(|v: ItemView| is_archived(v));
    archive_ids(first_seen_boards(a), a)
}

/// The IDs of the task view, in display order.
pub fn build_selectable(store: &Store) -> (ids: Vec<u32>)
    ensures
        ids@ == selectable_tasks(views(store.items@)),
{
    let active = active_items(store);
    let boards = group_tasks_by_board(active.as_slice());
    let ghost g = stats_groups(boards@);
    let mut ids: Vec<u32> = Vec::new();
    for b in 0..boards.len()
        invariant
            g == stats_groups(boards@),
            ids@ == group_ids(g.take(b as int)),
    {
        let items = &boards[b].items;
        let ghost base = ids@;
        for k in 0..items.len()
            invariant
                ids@ == base + views(items@).take(k as int).map_values(|v: ItemView| v.id),
        {
            ids.push(items[k].id);
            assert(views(items@).take(k + 1).map_values(|v: ItemView| v.id) =~= views(items@).take(
                k as int,
            ).map_values(|v: ItemView| v.id).push(items@[k as int].id));
        }
        assert(views(items@).take(items@.len() as int) =~= views(items@));
        assert(g.take(b + 1).drop_last() =~= g.take(b as int));
        assert(g.take(b + 1).last() == g[b as int]);
        assert(g[b as int].1 == views(items@));
    }
    assert(g.take(boards@.len() as int) =~= g);
    ids
}

/// The IDs of the archive view, in display order.
pub fn build_archive_selectable(store: &Store) -> (ids: Vec<u32>)
    ensures
        ids@ == selectable_archived(views(store.items@)),
{
    let archived = archived_items(store);
    let ghost a = ref_views(archived@);
    let boards = archive_board_names(&archived);
    let ghost names = boards@.map_values(|n: String| n@);
    let mut ids: Vec<u32> = Vec::new();
    for b in 0..boards.len()
        invariant
            a == ref_views(archived@),
            names == boards@.map_values(|n: String| n@),
            ids@ == archive_ids(names.take(b as int), a),
    {
        let name = &boards[b];
        let ghost base = ids@;
        for k in 0..archived.len()
            invariant
                a == ref_views(archived@),
                ids@ == base + a.take(k as int).filter(|v: ItemView| v.board == name@).map_values(
                    |v: ItemView| v.id,
                ),
        {
            let item: &Item = archived[k];
            proof {
                assert(a.take(k + 1) =~= a.take(k as int).push(item@));
                lemma_filter_push(a.take(k as int), |v: ItemView| v.board == name@, item@);
            }
            let ghost f = a.take(k as int).filter(|v: ItemView| v.board == name@);
            if same_text(item.board.as_str(), name.as_str()) {
                ids.push(item.id);
                assert(f.push(item@).map_values(|v: ItemView| v.id) =~= f.map_values(|v: ItemView| v.id).push(item.id));
            }
        }
        assert(a.take(archived@.len() as int) =~= a);
        assert(names[b as int] == name@);
        assert(names.take(b + 1).drop_last() =~= names.take(b as int));
    }
    assert(names.take(boards@.len() as int) =~= names);
    ids
}

/// A key press, as far as the views tell keys apart.
#[derive(Clone, Copy, Debug, PartialEq, Eq, Structural)]
pub enum Key {
    Up,
    Down,
    Enter,
    Esc,
    Char(char),
    Other,
}

/// What the terminal program does after a key press.
pub enum TuiAction {
    /// Nothing beyond drawing again.
    Stay,
    /// Save the store, then draw again.
    Save,
    /// Leave the view.
    Quit,
    /// Let the user edit the description of the item, starting from its
    /// current text; then hand the result to `finish_edit`.
    Edit { id: u32, current: String },
}

pub enum TuiActionView {
    Stay,
    Save,
    Quit,
    Edit { id: u32, current: Seq<char> },
}

impl View for TuiAction {
    type V = TuiActionView;

    open spec fn view(&self) -> TuiActionView {
        match self {
            TuiAction::Stay => TuiActionView::Stay,
            TuiAction::Save => TuiActionView::Save,
            TuiAction::Quit => TuiActionView::Quit,
            TuiAction::Edit { id, current } => TuiActionView::Edit { id: *id, current: current@ },
        }
    }
}

/// The item with the given ID marked done at `now` where it was not done,
/// and pending again where it was.
pub open spec fn toggled(items: Seq<ItemView>, id: u32, now: Timestamp) -> Seq<ItemView> {
    let k = first_index_of(items, id);
    if k < 0 {
        items
    } else if items[k].status == Status::Done {
        items.update(k, ItemView { status: Status::Pending, completed_at: None, ..items[k] })
    } else {
        items.update(k, ItemView { status: Status::Done, completed_at: Some(now), ..items[k] })
    }
}

/// The item with the given ID with `archived` set as given.
pub open spec fn with_archived(items: Seq<ItemView>, id: u32, archived: bool) -> Seq<ItemView> {
    let k = first_index_of(items, id);
    if k < 0 {
        items
    } else {
        items.update(k, ItemView { archived, ..items[k] })
    }
}

/// The item with the given ID with the given priority.
pub open spec fn with_priority(items: Seq<ItemView>, id: u32, p: Option<Priority>) -> Seq<ItemView> {
    let k = first_index_of(items, id);
    if k < 0 {
        items
    } else {
        items.update(k, ItemView { priority: p, ..items[k] })
    }
}

/// The description of the item with the given ID, empty where there is none.
pub open spec fn description_of(items: Seq<ItemView>, id: u32) -> Seq<char> {
    let k = first_index_of(items, id);
    if k < 0 {
        Seq::<char>::empty()
    } else {
        items[k].description
    }
}

/// The level that a key picks in priority selection: `Some(choice)` for
/// `n` (none), `l`, `m`, `h`; `None` for Esc (cancel).
pub open spec fn priority_key(key: Key) -> Option<Option<Priority>> {
    if key == Key::Char('n') {
        Some(None)
    } else if key == Key::Char('l') {
        Some(Some(Priority::Low))
    } else if key == Key::Char('m') {
        Some(Some(Priority::Medium))
    } else if key == Key::Char('h') {
        Some(Some(Priority::High))
    } else {
        None
    }
}

/// What a key press does in the task view: to the view, to the items, and
/// what the program does next. Toggling marks a task done at `now`.
pub open spec fn task_view_step(s: TuiStateView, items: Seq<ItemView>, key: Key, now: Timestamp) -> (
    TuiStateView,
    Seq<ItemView>,
    TuiActionView,
) {
    match s.mode {
        InputMode::PrioritySelect => {
            if priority_key(key) is None && key != Key::Esc {
                (s, items, TuiActionView::Stay)
            } else {
                let s2 = TuiStateView { mode: InputMode::Normal, ..s };
                match (priority_key(key), s.selected()) {
                    (Some(p), Some(id)) => (s2, with_priority(items, id, p), TuiActionView::Save),
                    _ => (s2, items, TuiActionView::Stay),
                }
            }
        },
        InputMode::Normal => {
            if key == Key::Char('q') || key == Key::Esc {
                (s, items, TuiActionView::Quit)
            } else if key == Key::Up || key == Key::Char('k') {
                (s.moved_up(), items, TuiActionView::Stay)
            } else if key == Key::Down || key == Key::Char('j') {
                (s.moved_down(), items, TuiActionView::Stay)
            } else if key == Key::Enter || key == Key::Char(' ') {
                match s.selected() {
                    Some(id) => {
                        let after = toggled(items, id, now);
                        (s.refreshed(selectable_tasks(after)), after, TuiActionView::Save)
                    },
                    None => (s, items, TuiActionView::Stay),
                }
            } else if key == Key::Char('e') {
                match s.selected() {
                    Some(id) => (
                        s,
                        items,
                        TuiActionView::Edit { id, current: description_of(items, id) },
                    ),
                    None => (s, items, TuiActionView::Stay),
                }
            } else if key == Key::Char('d') {
                match s.selected() {
                    Some(id) => {
                        let after = with_archived(items, id, true);
                        (s.refreshed(selectable_tasks(after)), after, TuiActionView::Save)
                    },
                    None => (s, items, TuiActionView::Stay),
                }
            } else if key == Key::Char('p') {
                match s.selected() {
                    Some(id) => (
                        TuiStateView { mode: InputMode::PrioritySelect, ..s },
                        items,
                        TuiActionView::Stay,
                    ),
                    None => (s, items, TuiActionView::Stay),
                }
            } else {
                (s, items, TuiActionView::Stay)
            }
        },
    }
}

/// Marks the first item with the given ID done at `now` where it is not
/// done, pending where it is.
fn toggle_done_at(store: &mut Store, id: u32, now: Timestamp)
    ensures
        views(final(store).items@) == toggled(views(old(store).items@), id, now),
        final(store).next_id == old(store).next_id,
        final(store).default_board == old(store).default_board,
{
    let ghost before = views(store.items@);
    match find_item_index(&store.items, id) {
        Some(k) => {
            if store.items[k].is_done() {
                store.items[k].mark_undone();
            } else {
                store.items[k].mark_done_at(now);
            }
            assert(views(store.items@) =~= toggled(before, id, now));
        },
        None => {},
    }
}

fn set_archived(store: &mut Store, id: u32, archived: bool)
    ensures
        views(final(store).items@) == with_archived(views(old(store).items@), id, archived),
        final(store).next_id == old(store).next_id,
        final(store).default_board == old(store).default_board,
{
    let ghost before = views(store.items@);
    match find_item_index(&store.items, id) {
        Some(k) => {
            store.items[k].archived = archived;
            assert(views(store.items@) =~= with_archived(before, id, archived));
        },
        None => {},
    }
}

fn set_priority_of(store: &mut Store, id: u32, p: Option<Priority>)
    ensures
        views(final(store).items@) == with_priority(views(old(store).items@), id, p),
        final(store).next_id == old(store).next_id,
        final(store).default_board == old(store).default_board,
{
    let ghost before = views(store.items@);
    match find_item_index(&store.items, id) {
        Some(k) => {
            store.items[k].priority = p;
            assert(views(store.items@) =~= with_priority(before, id, p));
        },
        None => {},
    }
}

fn description_for_edit(store: &Store, id: u32) -> (d: String)
    ensures
        d@ == description_of(views(store.items@), id),
{
    match find_item_index(&store.items, id) {
        Some(k) => copy_string(&store.items[k].description),
        None => String::new(),
    }
}

fn read_priority_key(key: Key) -> (r: Option<Option<Priority>>)
    ensures
        r == priority_key(key),
{
    match key {
        Key::Char(c) => {
            if c == 'n' {
                Some(None)
            } else if c == 'l' {
                Some(Some(Priority::Low))
            } else if c == 'm' {
                Some(Some(Priority::Medium))
            } else if c == 'h' {
                Some(Some(Priority::High))
            } else {
                None
            }
        },
        _ => None,
    }
}

/// Handles a key press in the task view, toggling done at `now`.
pub fn handle_task_key_at(state: &mut TuiState, store: &mut Store, key: Key, now: Timestamp) -> (r: TuiAction)
    ensures
        (final(state)@, views(final(store).items@), r@) == task_view_step(
            old(state)@,
            views(old(store).items@),
            key,
            now,
        ),
        final(store).next_id == old(store).next_id,
        final(store).default_board == old(store).default_board,
{
    match state.mode {
        InputMode::PrioritySelect => {
            let choice = read_priority_key(key);
            if choice.is_none() && key != Key::Esc {
                return TuiAction::Stay;
            }
            state.mode = InputMode::Normal;
            match (choice, state.selected_id()) {
                (Some(p), Some(id)) => {
                    set_priority_of(store, id, p);
                    TuiAction::Save
                },
                _ => TuiAction::Stay,
            }
        },
        InputMode::Normal => {
            if key == Key::Char('q') || key == Key::Esc {
                TuiAction::Quit
            } else if key == Key::Up || key == Key::Char('k') {
                state.move_up();
                TuiAction::Stay
            } else if key == Key::Down || key == Key::Char('j') {
                state.move_down();
                TuiAction::Stay
            } else if key == Key::Enter || key == Key::Char(' ') {
                match state.selected_id() {
                    Some(id) => {
                        toggle_done_at(store, id, now);
                        let sel = build_selectable(store);
                        state.refresh(sel);
                        TuiAction::Save
                    },
                    None => TuiAction::Stay,
                }
            } else if key == Key::Char('e') {
                match state.selected_id() {
                    Some(id) => TuiAction::Edit { id, current: description_for_edit(store, id) },
                    None => TuiAction::Stay,
                }
            } else if key == Key::Char('d') {
                match state.selected_id() {
                    Some(id) => {
                        set_archived(store, id, true);
                        let sel = build_selectable(store);
                        state.refresh(sel);
                        TuiAction::Save
                    },
                    None => TuiAction::Stay,
                }
            } else if key == Key::Char('p') {
                match state.selected_id() {
                    Some(_) => {
                        state.mode = InputMode::PrioritySelect;
                        TuiAction::Stay
                    },
                    None => TuiAction::Stay,
                }
            } else {
                TuiAction::Stay
            }
        },
    }
}

/// Handles a key press in the task view; a toggle marks the task done now.
pub fn handle_task_key(state: &mut TuiState, store: &mut Store, key: Key) -> (r: TuiAction)
    ensures
        exists|now: Timestamp|
            (final(state)@, views(final(store).items@), r@) == #[trigger] task_view_step(
                old(state)@,
                views(old(store).items@),
                key,
                now,
            ),
        final(store).next_id == old(store).next_id,
        final(store).default_board == old(store).default_board,
{
    let now = clock_now();
    handle_task_key_at(state, store, key, now)
}

/// What an answer from the line editor does to the items: the trimmed line
/// becomes the description of the item with the given ID where it is not
/// empty and differs from the text the edit started from.
pub open spec fn edit_outcome(items: Seq<ItemView>, id: u32, current: Seq<char>, answer: Option<Seq<char>>) -> Seq<
    ItemView,
> {
    match answer {
        Some(l) => {
            let k = first_index_of(items, id);
            if trim(l).len() > 0 && trim(l) != current && k >= 0 {
                items.update(k, ItemView { description: trim(l), ..items[k] })
            } else {
                items
            }
        },
        None => items,
    }
}

/// After an edit: the new description is the typed line, trimmed; it is
/// taken where it is not empty and differs from the text the edit started
/// from. Returns whether the store is to be saved.
pub fn finish_edit(store: &mut Store, id: u32, current: &String, line: Option<String>) -> (save: bool)
    ensures
        save == match line {
            Some(l) => trim(l@).len() > 0 && trim(l@) != current@,
            None => false,
        },
        save ==> {
            let k = first_index_of(views(old(store).items@), id);
            views(final(store).items@) == if k < 0 {
                views(old(store).items@)
            } else {
                views(old(store).items@).update(
                    k,
                    ItemView { description: trim(line->0@), ..views(old(store).items@)[k] },
                )
            }
        },
        !save ==> views(final(store).items@) == views(old(store).items@),
        views(final(store).items@) == edit_outcome(
            views(old(store).items@),
            id,
            current@,
            match line {
                Some(l) => Some(l@),
                None => None,
            },
        ),
        final(store).next_id == old(store).next_id,
        final(store).default_board == old(store).default_board,
{
    match line {
        None => false,
        Some(l) => {
            let t = trimmed(chars_of(l.as_str()).as_slice());
            let text = string_of(t.as_slice());
            if t.len() == 0 || same_text(text.as_str(), current.as_str()) {
                return false;
            }
            let ghost before = views(store.items@);
            match find_item_index(&store.items, id) {
                Some(k) => {
                    store.items[k].description = text;
                    assert(views(store.items@) =~= before.update(
                        k as int,
                        ItemView { description: trim(l@), ..before[k as int] },
                    ));
                },
                None => {},
            }
            true
        },
    }
}

/// What a key press does in the archive view.
pub open spec fn archive_view_step(s: TuiStateView, items: Seq<ItemView>, key: Key) -> (
    TuiStateView,
    Seq<ItemView>,
    TuiActionView,
) {
    if key == Key::Char('q') || key == Key::Esc {
        (s, items, TuiActionView::Quit)
    } else if key == Key::Up || key == Key::Char('k') {
        (s.moved_up(), items, TuiActionView::Stay)
    } else if key == Key::Down || key == Key::Char('j') {
        (s.moved_down(), items, TuiActionView::Stay)
    } else if key == Key::Char('r') {
        match s.selected() {
            Some(id) => {
                let after = with_archived(items, id, false);
                (s.refreshed(selectable_archived(after)), after, TuiActionView::Save)
            },
            None => (s, items, TuiActionView::Stay),
        }
    } else if key == Key::Char('x') {
        match s.selected() {
            Some(id) => {
                let after = items.filter(|v: ItemView| v.id != id);
                (s.refreshed(selectable_archived(after)), after, TuiActionView::Save)
            },
            None => (s, items, TuiActionView::Stay),
        }
    } else {
        (s, items, TuiActionView::Stay)
    }
}

/// Handles a key press in the archive view: restore (`r`) or permanently
/// delete (`x`) the selected item, move, or quit.
pub fn handle_archive_key(state: &mut TuiState, store: &mut Store, key: Key) -> (r: TuiAction)
    ensures
        (final(state)@, views(final(store).items@), r@) == archive_view_step(
            old(state)@,
            views(old(store).items@),
            key,
        ),
        final(store).next_id == old(store).next_id,
        final(store).default_board == old(store).default_board,
{
    if key == Key::Char('q') || key == Key::Esc {
        TuiAction::Quit
    } else if key == Key::Up || key == Key::Char('k') {
        state.move_up();
        TuiAction::Stay
    } else if key == Key::Down || key == Key::Char('j') {
        state.move_down();
        TuiAction::Stay
    } else if key == Key::Char('r') {
        match state.selected_id() {
            Some(id) => {
                set_archived(store, id, false);
                let sel = build_archive_selectable(store);
                state.refresh(sel);
                TuiAction::Save
            },
            None => TuiAction::Stay,
        }
    } else if key == Key::Char('x') {
        match state.selected_id() {
            Some(id) => {
                delete_item(store, id);
                let sel = build_archive_selectable(store);
                state.refresh(sel);
                TuiAction::Save
            },
            None => TuiAction::Stay,
        }
    } else {
        TuiAction::Stay
    }
}

/// A fresh view has its cursor on an item whenever there is one.
pub proof fn new_view_cursor_ok(selectable: Seq<u32>)
    ensures
        (TuiStateView { selectable, cursor: 0, mode: InputMode::Normal }).cursor_ok(),
{
}

/// Every key press in the task view keeps the cursor on an item whenever
/// there is one.
pub proof fn task_view_keeps_cursor_ok(s: TuiStateView, items: Seq<ItemView>, key: Key, now: Timestamp)
    requires
        s.cursor_ok(),
    ensures
        task_view_step(s, items, key, now).0.cursor_ok(),
{
}

/// Every key press in the archive view keeps the cursor on an item whenever
/// there is one.
pub proof fn archive_view_keeps_cursor_ok(s: TuiStateView, items: Seq<ItemView>, key: Key)
    requires
        s.cursor_ok(),
    ensures
        archive_view_step(s, items, key).0.cursor_ok(),
{
}

/// Where the cursor is on an item, an item is selected exactly when there
/// are items.
pub proof fn selection_when_cursor_ok(s: TuiStateView)
    requires
        s.cursor_ok(),
    ensures
        s.selected() is Some <==> s.selectable.len() > 0,
{
}

/// Two lists of items that agree, item by item, on ID, kind, board and
/// whether archived: all that decides what can be selected.
pub open spec fn same_keys(a1: Seq<ItemView>, a2: Seq<ItemView>) -> bool {
    &&& a1.len() == a2.len()
    &&& forall|i: int|
        0 <= i < a1.len() ==> {
            &&& (#[trigger] a1[i]).id == a2[i].id
            &&& a1[i].item_type == a2[i].item_type
            &&& a1[i].board == a2[i].board
            &&& a1[i].archived == a2[i].archived
        }
}

proof fn lemma_filter_same_keys(a1: Seq<ItemView>, a2: Seq<ItemView>, p: spec_fn(ItemView) -> bool)
    requires
        same_keys(a1, a2),
        forall|i: int| 0 <= i < a1.len() ==> p(#[trigger] a1[i]) == p(a2[i]),
    ensures
        same_keys(a1.filter(p), a2.filter(p)),
    decreases a1.len(),
{
    reveal(Seq::filter);
    if a1.len() > 0 {
        let b1 = a1.drop_last();
        let b2 = a2.drop_last();
        assert forall|i: int| 0 <= i < b1.len() implies p(#[trigger] b1[i]) == p(b2[i]) by {
            assert(b1[i] == a1[i] && b2[i] == a2[i]);
        }
        assert(same_keys(b1, b2)) by {
            assert forall|i: int| 0 <= i < b1.len() implies {
                &&& (#[trigger] b1[i]).id == b2[i].id
                &&& b1[i].item_type == b2[i].item_type
                &&& b1[i].board == b2[i].board
                &&& b1[i].archived == b2[i].archived
            } by {
                assert(b1[i] == a1[i] && b2[i] == a2[i]);
            }
        }
        lemma_filter_same_keys(b1, b2, p);
        assert(p(a1[a1.len() - 1]) == p(a2[a1.len() - 1]));
        let f1 = a1.filter(p);
        let f2 = a2.filter(p);
        if p(a1.last()) {
            assert forall|i: int| 0 <= i < f1.len() implies {
                &&& (#[trigger] f1[i]).id == f2[i].id
                &&& f1[i].item_type == f2[i].item_type
                &&& f1[i].board == f2[i].board
                &&& f1[i].archived == f2[i].archived
            } by {
                if i < f1.len() - 1 {
                    assert(f1[i] == b1.filter(p)[i] && f2[i] == b2.filter(p)[i]);
                }
            }
        }
    }
}

proof fn lemma_same_keys_ids(a1: Seq<ItemView>, a2: Seq<ItemView>)
    requires
        same_keys(a1, a2),
    ensures
        a1.map_values(|v: ItemView| v.id) == a2.map_values(|v: ItemView| v.id),
{
    assert(a1.map_values(|v: ItemView| v.id) =~= a2.map_values(|v: ItemView| v.id));
}

proof fn lemma_group_ids_same(g1: Seq<(Seq<char>, Seq<ItemView>)>, g2: Seq<(Seq<char>, Seq<ItemView>)>)
    requires
        g1.len() == g2.len(),
        forall|i: int|
            0 <= i < g1.len() ==> (#[trigger] g1[i]).1.map_values(|v: ItemView| v.id) == g2[i].1.map_values(
                |v: ItemView| v.id,
            ),
    ensures
        group_ids(g1) == group_ids(g2),
    decreases g1.len(),
{
    if g1.len() > 0 {
        let h1 = g1.drop_last();
        let h2 = g2.drop_last();
        assert forall|i: int| 0 <= i < h1.len() implies (#[trigger] h1[i]).1.map_values(|v: ItemView| v.id)
            == h2[i].1.map_values(|v: ItemView| v.id) by {
            assert(h1[i] == g1[i] && h2[i] == g2[i]);
        }
        lemma_group_ids_same(h1, h2);
        assert(g1[g1.len() - 1] == g1.last());
    }
}

/// What can be selected in the task view depends only on the items' IDs,
/// kinds, boards and archive flags.
pub proof fn selection_depends_on_keys(a1: Seq<ItemView>, a2: Seq<ItemView>)
    requires
        same_keys(a1, a2),
    ensures
        selectable_tasks(a1) == selectable_tasks(a2),
{
    let only = Some(ItemType::Task);
    lemma_filter_same_keys(a1, a2, |v: ItemView| is_active(v));
    let x1 = a1.filter(|v: ItemView| is_active(v));
    let x2 = a2.filter(|v: ItemView| is_active(v));
    crate::board::grouping_exists(x1, only);
    let g1 = grouping(x1, only);
    let g2 = Seq::new(g1.len(), |i: int| (g1[i].0, crate::board::members(x2, only, g1[i].0)));
    assert forall|i: int| 0 <= i < g1.len() implies {
        &&& same_keys(g1[i].1, g2[i].1)
        &&& (#[trigger] g1[i]).1.map_values(|v: ItemView| v.id) == g2[i].1.map_values(|v: ItemView| v.id)
    } by {
        assert(g1[i].1 == crate::board::members(x1, only, g1[i].0));
        assert forall|k: int| 0 <= k < x1.len() implies crate::board::on_board(#[trigger] x1[k], only, g1[i].0)
            == crate::board::on_board(x2[k], only, g1[i].0) by {
        }
        lemma_filter_same_keys(x1, x2, |w: ItemView| crate::board::on_board(w, only, g1[i].0));
        lemma_same_keys_ids(g1[i].1, g2[i].1);
    }
    assert(crate::board::is_grouping(x2, only, g2)) by {
        assert forall|i: int| 0 <= i < g2.len() implies (#[trigger] g2[i].1).len() > 0 by {
            assert(same_keys(g1[i].1, g2[i].1));
        }
        assert forall|k: int| 0 <= k < x2.len() && crate::board::selected(x2[k], only) implies crate::board::has_group(
            g2,
            #[trigger] x2[k].board,
        ) by {
            assert(x1[k].board == x2[k].board);
            assert(crate::board::selected(x1[k], only));
            assert(crate::board::has_group(g1, x1[k].board));
            let i = choose|i: int| 0 <= i < g1.len() && #[trigger] g1[i].0 == x1[k].board;
            assert(g2[i].0 == x2[k].board);
        }
        assert forall|i: int, j: int| 0 <= i < j < g2.len() implies text_lt_names(g2, i, j) by {
            assert(g2[i].0 == g1[i].0 && g2[j].0 == g1[j].0);
        }
    }
    crate::board::lemma_is_the_grouping(x2, only, g2);
    lemma_group_ids_same(g1, g2);
}

spec fn text_lt_names(g: Seq<(Seq<char>, Seq<ItemView>)>, i: int, j: int) -> bool {
    crate::text::text_lt(g[i].0, g[j].0)
}

/// Each key press in the task view keeps the selection list equal to the one
/// rebuilt from the items, keeps the cursor on an item whenever there is
/// one, and keeps the items and their IDs in place.
pub proof fn task_view_step_keeps_selection(s: TuiStateView, items: Seq<ItemView>, key: Key, now: Timestamp)
    requires
        s.selectable == selectable_tasks(items),
        s.cursor_ok(),
    ensures
        task_view_step(s, items, key, now).0.selectable == selectable_tasks(task_view_step(s, items, key, now).1),
        task_view_step(s, items, key, now).0.cursor_ok(),
        same_keys(items, task_view_step(s, items, key, now).1) || (task_view_step(s, items, key, now).1.len() == items.len()
            && task_view_step(s, items, key, now).1.map_values(|v: ItemView| v.id) == items.map_values(|v: ItemView| v.id)),
{
    let r = task_view_step(s, items, key, now);
    task_view_keeps_cursor_ok(s, items, key, now);
    crate::store::lemma_first_index_of(items, match s.selected() { Some(id) => id, None => 0 });
    if s.mode == InputMode::PrioritySelect && !(priority_key(key) is None && key != Key::Esc) {
        match (priority_key(key), s.selected()) {
            (Some(p), Some(id)) => {
                assert(same_keys(items, with_priority(items, id, p)));
                selection_depends_on_keys(items, with_priority(items, id, p));
            },
            _ => {},
        }
    } else if s.mode == InputMode::Normal && (key == Key::Enter || key == Key::Char(' ')) {
        match s.selected() {
            Some(id) => {
                assert(r.1.map_values(|v: ItemView| v.id) =~= items.map_values(|v: ItemView| v.id));
            },
            None => {},
        }
    } else if s.mode == InputMode::Normal && key == Key::Char('d') {
        match s.selected() {
            Some(id) => {
                assert(r.1.map_values(|v: ItemView| v.id) =~= items.map_values(|v: ItemView| v.id));
            },
            None => {},
        }
    }
}

/// Changing an item's description leaves the selection and the IDs as they
/// were: finishing an edit keeps the task view's selection list valid.
pub proof fn description_change_keeps_selection(items: Seq<ItemView>, k: int, description: Seq<char>)
    requires
        0 <= k < items.len(),
    ensures
        selectable_tasks(items.update(k, ItemView { description, ..items[k] })) == selectable_tasks(items),
        same_keys(items, items.update(k, ItemView { description, ..items[k] })),
{
    let u = items.update(k, ItemView { description, ..items[k] });
    assert(same_keys(items, u));
    selection_depends_on_keys(items, u);
}

/// One turn of the task view's loop: the key pressed, the clock's reading
/// when it was handled, and what the line editor gave back where the key
/// started an edit.
pub struct TaskViewEvent {
    pub key: Key,
    pub now: Timestamp,
    pub answer: Option<Seq<char>>,
}

/// The task view after a run of events, and the items then: each key is
/// handled as `handle_task_key_at` does, an edit is finished as
/// `finish_edit` does, and the run stops at the key that quits.
pub open spec fn task_view_run(s: TuiStateView, items: Seq<ItemView>, events: Seq<TaskViewEvent>) -> (
    TuiStateView,
    Seq<ItemView>,
)
    decreases events.len(),
{
    if events.len() == 0 {
        (s, items)
    } else {
        let e = events[0];
        let r = task_view_step(s, items, e.key, e.now);
        match r.2 {
            TuiActionView::Quit => (r.0, r.1),
            TuiActionView::Edit { id, current } => task_view_run(
                r.0,
                edit_outcome(r.1, id, current, e.answer),
                events.drop_first(),
            ),
            _ => task_view_run(r.0, r.1, events.drop_first()),
        }
    }
}

/// The task view as it opens over the given items.
pub open spec fn task_view_start(items: Seq<ItemView>) -> TuiStateView {
    TuiStateView { selectable: selectable_tasks(items), cursor: 0, mode: InputMode::Normal }
}

proof fn lemma_edit_outcome_keeps_selection(items: Seq<ItemView>, id: u32, current: Seq<char>, answer: Option<Seq<char>>)
    ensures
        selectable_tasks(edit_outcome(items, id, current, answer)) == selectable_tasks(items),
        same_keys(items, edit_outcome(items, id, current, answer)),
{
    crate::store::lemma_first_index_of(items, id);
    match answer {
        Some(l) => {
            let k = first_index_of(items, id);
            if trim(l).len() > 0 && trim(l) != current && k >= 0 {
                description_change_keeps_selection(items, k, trim(l));
            } else {
                assert(same_keys(items, items));
            }
        },
        None => {
            assert(same_keys(items, items));
        },
    }
}

proof fn lemma_task_view_run(s: TuiStateView, items: Seq<ItemView>, events: Seq<TaskViewEvent>)
    requires
        s.selectable == selectable_tasks(items),
        s.cursor_ok(),
    ensures
        task_view_run(s, items, events).0.selectable == selectable_tasks(task_view_run(s, items, events).1),
        task_view_run(s, items, events).0.cursor_ok(),
        task_view_run(s, items, events).1.len() == items.len(),
        task_view_run(s, items, events).1.map_values(|v: ItemView| v.id) == items.map_values(|v: ItemView| v.id),
    decreases events.len(),
{
    if events.len() > 0 {
        let e = events[0];
        let r = task_view_step(s, items, e.key, e.now);
        task_view_step_keeps_selection(s, items, e.key, e.now);
        if same_keys(items, r.1) {
            lemma_same_keys_ids(items, r.1);
        }
        match r.2 {
            TuiActionView::Quit => {},
            TuiActionView::Edit { id, current } => {
                let after = edit_outcome(r.1, id, current, e.answer);
                lemma_edit_outcome_keeps_selection(r.1, id, current, e.answer);
                lemma_same_keys_ids(r.1, after);
                lemma_task_view_run(r.0, after, events.drop_first());
            },
            _ => {
                lemma_task_view_run(r.0, r.1, events.drop_first());
            },
        }
    }
}

/// Through any run of the task view from its start, at every turn the
/// selection list is the one rebuilt from the items, the cursor stands on
/// an item whenever there is one, and the items stay the same in number and
/// keep their IDs in order. (The store's next ID and default board are kept
/// by every step: see `handle_task_key_at` and `finish_edit`.)
pub proof fn task_view_run_keeps_selection(items: Seq<ItemView>, events: Seq<TaskViewEvent>)
    ensures
        task_view_run(task_view_start(items), items, events).0.selectable == selectable_tasks(
            task_view_run(task_view_start(items), items, events).1,
        ),
        task_view_run(task_view_start(items), items, events).0.cursor_ok(),
        task_view_run(task_view_start(items), items, events).1.len() == items.len(),
        task_view_run(task_view_start(items), items, events).1.map_values(|v: ItemView| v.id) == items.map_values(
            |v: ItemView| v.id,
        ),
{
    lemma_task_view_run(task_view_start(items), items, events);
}

/// The archive view after a run of key presses, and the items then; the run
/// stops at the key that quits.
pub open spec fn archive_view_run(s: TuiStateView, items: Seq<ItemView>, keys: Seq<Key>) -> (
    TuiStateView,
    Seq<ItemView>,
)
    decreases keys.len(),
{
    if keys.len() == 0 {
        (s, items)
    } else {
        let r = archive_view_step(s, items, keys[0]);
        match r.2 {
            TuiActionView::Quit => (r.0, r.1),
            _ => archive_view_run(r.0, r.1, keys.drop_first()),
        }
    }
}

proof fn lemma_archive_view_run(s: TuiStateView, items: Seq<ItemView>, keys: Seq<Key>)
    requires
        s.selectable == selectable_archived(items),
        s.cursor_ok(),
    ensures
        archive_view_run(s, items, keys).0.selectable == selectable_archived(archive_view_run(s, items, keys).1),
        archive_view_run(s, items, keys).0.cursor_ok(),
    decreases keys.len(),
{
    if keys.len() > 0 {
        let r = archive_view_step(s, items, keys[0]);
        archive_view_keeps_cursor_ok(s, items, keys[0]);
        match r.2 {
            TuiActionView::Quit => {},
            _ => {
                lemma_archive_view_run(r.0, r.1, keys.drop_first());
            },
        }
    }
}

/// Through any run of the archive view from its start, the selection list
/// is the one rebuilt from the items (board by board, as the screen shows
/// them), and the cursor stands on an item whenever there is one.
pub proof fn archive_view_run_keeps_selection(items: Seq<ItemView>, keys: Seq<Key>)
    ensures
        archive_view_run(
            TuiStateView { selectable: selectable_archived(items), cursor: 0, mode: InputMode::Normal },
            items,
            keys,
        ).0.selectable == selectable_archived(
            archive_view_run(
                TuiStateView { selectable: selectable_archived(items), cursor: 0, mode: InputMode::Normal },
                items,
                keys,
            ).1,
        ),
        archive_view_run(
            TuiStateView { selectable: selectable_archived(items), cursor: 0, mode: InputMode::Normal },
            items,
            keys,
        ).0.cursor_ok(),
{
    lemma_archive_view_run(
        TuiStateView { selectable: selectable_archived(items), cursor: 0, mode: InputMode::Normal },
        items,
        keys,
    );
}

/// In priority selection with an item selected, `h`, `m`, `l` and `n` set
/// that item's priority to high, medium, low and none, go back to normal
/// mode and ask for a save; Esc goes back to normal mode and changes nothing;
/// any other key is ignored. `k` is the position of the selected item: the
/// first with its ID.
pub proof fn priority_keys_set_priority(s: TuiStateView, items: Seq<ItemView>, now: Timestamp, k: int, key: Key)
    requires
        s.mode == InputMode::PrioritySelect,
        s.cursor < s.selectable.len(),
        0 <= k < items.len(),
        items[k].id == s.selectable[s.cursor as int],
        forall|j: int| 0 <= j < k ==> items[j].id != items[k].id,
    ensures
        task_view_step(s, items, Key::Char('h'), now) == (
            TuiStateView { mode: InputMode::Normal, ..s },
            items.update(k, ItemView { priority: Some(Priority::High), ..items[k] }),
            TuiActionView::Save,
        ),
        task_view_step(s, items, Key::Char('m'), now) == (
            TuiStateView { mode: InputMode::Normal, ..s },
            items.update(k, ItemView { priority: Some(Priority::Medium), ..items[k] }),
            TuiActionView::Save,
        ),
        task_view_step(s, items, Key::Char('l'), now) == (
            TuiStateView { mode: InputMode::Normal, ..s },
            items.update(k, ItemView { priority: Some(Priority::Low), ..items[k] }),
            TuiActionView::Save,
        ),
        task_view_step(s, items, Key::Char('n'), now) == (
            TuiStateView { mode: InputMode::Normal, ..s },
            items.update(k, ItemView { priority: None, ..items[k] }),
            TuiActionView::Save,
        ),
        task_view_step(s, items, Key::Esc, now) == (
            TuiStateView { mode: InputMode::Normal, ..s },
            items,
            TuiActionView::Stay,
        ),
        key != Key::Char('h') && key != Key::Char('m') && key != Key::Char('l') && key != Key::Char('n')
            && key != Key::Esc ==> task_view_step(s, items, key, now) == (s, items, TuiActionView::Stay),
{
    let id = items[k].id;
    crate::store::lemma_first_index_of(items, id);
    assert(first_index_of(items, id) == k);
}

/// In the archive view, Up and `k` move the cursor up one item unless it is
/// on the first; Down and `j` move it down one item unless it is on the
/// last. Nothing else changes.
pub proof fn archive_cursor_keys(s: TuiStateView, items: Seq<ItemView>)
    ensures
        archive_view_step(s, items, Key::Up) == (
            TuiStateView { cursor: if s.cursor > 0 { (s.cursor - 1) as nat } else { s.cursor }, ..s },
            items,
            TuiActionView::Stay,
        ),
        archive_view_step(s, items, Key::Char('k')) == archive_view_step(s, items, Key::Up),
        archive_view_step(s, items, Key::Down) == (
            TuiStateView { cursor: if s.cursor + 1 < s.selectable.len() { s.cursor + 1 } else { s.cursor }, ..s },
            items,
            TuiActionView::Stay,
        ),
        archive_view_step(s, items, Key::Char('j')) == archive_view_step(s, items, Key::Down),
{
}

/// In the task view's normal mode, Up and `k` move the cursor up one item
/// unless it is on the first; Down and `j` move it down one item unless it
/// is on the last. Nothing else changes.
pub proof fn task_cursor_keys(s: TuiStateView, items: Seq<ItemView>, now: Timestamp)
    requires
        s.mode == InputMode::Normal,
    ensures
        task_view_step(s, items, Key::Up, now) == (
            TuiStateView { cursor: if s.cursor > 0 { (s.cursor - 1) as nat } else { s.cursor }, ..s },
            items,
            TuiActionView::Stay,
        ),
        task_view_step(s, items, Key::Char('k'), now) == task_view_step(s, items, Key::Up, now),
        task_view_step(s, items, Key::Down, now) == (
            TuiStateView { cursor: if s.cursor + 1 < s.selectable.len() { s.cursor + 1 } else { s.cursor }, ..s },
            items,
            TuiActionView::Stay,
        ),
        task_view_step(s, items, Key::Char('j'), now) == task_view_step(s, items, Key::Down, now),
{
}

/// The state over a rebuilt selection list: the cursor pulled back onto the
/// last item where it would stand past the end.
pub open spec fn over_selection(s: TuiStateView, sel: Seq<u32>) -> TuiStateView {
    TuiStateView {
        selectable: sel,
        cursor: if sel.len() > 0 && s.cursor >= sel.len() { (sel.len() - 1) as nat } else { s.cursor },
        mode: s.mode,
    }
}

/// In the task view's normal mode, with the item at `k` selected (the first
/// with its ID): Enter and space mark a task done now, or pending again where
/// it is done; `d` archives it; both save and rebuild the selection, the
/// cursor kept in range. `e` asks to edit it from its current description,
/// `p` opens priority selection, `q` and Esc quit.
pub proof fn task_keys_act_on_selected(s: TuiStateView, items: Seq<ItemView>, now: Timestamp, k: int)
    requires
        s.mode == InputMode::Normal,
        s.cursor < s.selectable.len(),
        0 <= k < items.len(),
        items[k].id == s.selectable[s.cursor as int],
        forall|j: int| 0 <= j < k ==> items[j].id != items[k].id,
    ensures
        items[k].status == Status::Done ==> task_view_step(s, items, Key::Enter, now) == (
            over_selection(
                s,
                selectable_tasks(items.update(k, ItemView { status: Status::Pending, completed_at: None, ..items[k] })),
            ),
            items.update(k, ItemView { status: Status::Pending, completed_at: None, ..items[k] }),
            TuiActionView::Save,
        ),
        items[k].status != Status::Done ==> task_view_step(s, items, Key::Enter, now) == (
            over_selection(
                s,
                selectable_tasks(items.update(k, ItemView { status: Status::Done, completed_at: Some(now), ..items[k] })),
            ),
            items.update(k, ItemView { status: Status::Done, completed_at: Some(now), ..items[k] }),
            TuiActionView::Save,
        ),
        task_view_step(s, items, Key::Char(' '), now) == task_view_step(s, items, Key::Enter, now),
        task_view_step(s, items, Key::Char('d'), now) == (
            over_selection(s, selectable_tasks(items.update(k, ItemView { archived: true, ..items[k] }))),
            items.update(k, ItemView { archived: true, ..items[k] }),
            TuiActionView::Save,
        ),
        task_view_step(s, items, Key::Char('e'), now) == (
            s,
            items,
            TuiActionView::Edit { id: items[k].id, current: items[k].description },
        ),
        task_view_step(s, items, Key::Char('p'), now) == (
            TuiStateView { mode: InputMode::PrioritySelect, ..s },
            items,
            TuiActionView::Stay,
        ),
        task_view_step(s, items, Key::Char('q'), now) == (s, items, TuiActionView::Quit),
        task_view_step(s, items, Key::Esc, now) == (s, items, TuiActionView::Quit),
{
    let id = items[k].id;
    crate::store::lemma_first_index_of(items, id);
    assert(first_index_of(items, id) == k);
}

proof fn lemma_filter_all<A>(s: Seq<A>, pred: spec_fn(A) -> bool)
    requires
        forall|i: int| 0 <= i < s.len() ==> pred(#[trigger] s[i]),
    ensures
        s.filter(pred) == s,
    decreases s.len(),
{
    if s.len() == 0 {
        assert(s.filter(pred) =~= s) by {
            reveal(Seq::filter);
        }
    } else {
        let t = s.drop_last();
        assert forall|i: int| 0 <= i < t.len() implies pred(#[trigger] t[i]) by {
            assert(t[i] == s[i]);
        }
        lemma_filter_all(t, pred);
        assert(pred(s[s.len() - 1]));
        crate::store::lemma_filter_push(t, pred, s.last());
        assert(t.push(s.last()) =~= s);
    }
}

proof fn lemma_remove_unique(items: Seq<ItemView>, k: int)
    requires
        0 <= k < items.len(),
        forall|j: int| 0 <= j < items.len() && j != k ==> items[j].id != items[k].id,
    ensures
        items.filter(|v: ItemView| v.id != items[k].id) == items.remove(k),
{
    let id = items[k].id;
    let pred = |v: ItemView| v.id != id;
    let a = items.take(k);
    let b = items.skip(k + 1);
    assert(items =~= a.push(items[k]) + b);
    assert(items.remove(k) =~= a + b);
    Seq::filter_distributes_over_add(a.push(items[k]), b, pred);
    crate::store::lemma_filter_push(a, pred, items[k]);
    assert forall|i: int| 0 <= i < a.len() implies pred(#[trigger] a[i]) by {
        assert(a[i] == items[i]);
    }
    assert forall|i: int| 0 <= i < b.len() implies pred(#[trigger] b[i]) by {
        assert(b[i] == items[k + 1 + i]);
    }
    lemma_filter_all(a, pred);
    lemma_filter_all(b, pred);
}

/// In the archive view, with the item at `k` selected: `r` restores it (no
/// longer archived) and `x` removes it from the store (the only item with its
/// ID); both save and rebuild the selection, the cursor kept in range. `q`
/// and Esc quit.
pub proof fn archive_keys_act_on_selected(s: TuiStateView, items: Seq<ItemView>, k: int)
    requires
        s.cursor < s.selectable.len(),
        0 <= k < items.len(),
        items[k].id == s.selectable[s.cursor as int],
        forall|j: int| 0 <= j < items.len() && j != k ==> items[j].id != items[k].id,
    ensures
        archive_view_step(s, items, Key::Char('r')) == (
            over_selection(s, selectable_archived(items.update(k, ItemView { archived: false, ..items[k] }))),
            items.update(k, ItemView { archived: false, ..items[k] }),
            TuiActionView::Save,
        ),
        archive_view_step(s, items, Key::Char('x')) == (
            over_selection(s, selectable_archived(items.remove(k))),
            items.remove(k),
            TuiActionView::Save,
        ),
        archive_view_step(s, items, Key::Char('q')) == (s, items, TuiActionView::Quit),
        archive_view_step(s, items, Key::Esc) == (s, items, TuiActionView::Quit),
{
    let id = items[k].id;
    crate::store::lemma_first_index_of(items, id);
    assert(first_index_of(items, id) == k);
    lemma_remove_unique(items, k);
}

} // verus!
