//! Boards: items grouped by the board they belong to, in the order of the
//! boards' names, with counts of done and total tasks.
use vstd::prelude::*;

use crate::item::{Item, ItemType, ItemView, Status};
use crate::store::{lemma_filter_push, ref_views, views};
use crate::text::{chars_of, copy_string, lemma_text_lt_asymmetric, lemma_text_lt_irreflexive, lemma_text_lt_total, lemma_text_lt_transitive, same_text, text_less, text_lt};

verus! {

/// One board with its items and how many of its tasks are done.
pub struct BoardStats {
    pub name: String,
    pub done: usize,
    pub total: usize,
    pub items: Vec<Item>,
}

/// Whether an item takes part in a grouping restricted to one kind (or to
/// none).
pub open spec fn selected(v: ItemView, only: Option<ItemType>) -> bool {
    match only {
        Some(t) => v.item_type == t,
        None => true,
    }
}

/// Whether an item takes part and sits on the named board.
pub open spec fn on_board(v: ItemView, only: Option<ItemType>, name: Seq<char>) -> bool {
    selected(v, only) && v.board == name
}

/// The items of `input` that belong to the named board, in input order.
pub open spec fn members(input: Seq<ItemView>, only: Option<ItemType>, name: Seq<char>) -> Seq<ItemView> {
    input.filter(|v: ItemView| on_board(v, only, name))
}

/// Whether some group has the given name.
pub open spec fn has_group(groups: Seq<(Seq<char>, Seq<ItemView>)>, name: Seq<char>) -> bool {
    exists|i: int| 0 <= i < groups.len() && #[trigger] groups[i].0 == name
}

/// `groups` is the grouping of the selected items of `input` by board: one
/// group per board that a selected item sits on, in increasing order of the
/// board's name, each with that board's items in input order.
pub open spec fn is_grouping(
    input: Seq<ItemView>,
    only: Option<ItemType>,
    groups: Seq<(Seq<char>, Seq<ItemView>)>,
) -> bool {
    &&& forall|i: int, j: int|
        0 <= i < j < groups.len() ==> text_lt(#[trigger] groups[i].0, #[trigger] groups[j].0)
    &&& forall|i: int|
        0 <= i < groups.len() ==> #[trigger] groups[i].1 == members(input, only, groups[i].0)
    &&& forall|i: int| 0 <= i < groups.len() ==> (#[trigger] groups[i].1).len() > 0
    &&& forall|k: int|
        0 <= k < input.len() && selected(input[k], only) ==> has_group(groups, #[trigger] input[k].board)
}

pub open spec fn group_views(gs: Seq<(String, Vec<Item>)>) -> Seq<(Seq<char>, Seq<ItemView>)> {
    gs.map_values(|g: (String, Vec<Item>)| (g.0@, views(g.1@)))
}

proof fn lemma_filter_none<A>(s: Seq<A>, pred: spec_fn(A) -> bool)
    requires
        forall|k: int| 0 <= k < s.len() ==> !pred(#[trigger] s[k]),
    ensures
        s.filter(pred) == Seq::<A>::empty(),
    decreases s.len(),
{
    reveal(Seq::filter);
    if s.len() > 0 {
        let t = s.drop_last();
        assert forall|k: int| 0 <= k < t.len() implies !pred(#[trigger] t[k]) by {
            assert(t[k] == s[k]);
        }
        lemma_filter_none(t, pred);
        assert(!pred(s[s.len() - 1]));
    } else {
        assert(s.filter(pred) =~= Seq::<A>::empty());
    }
}

/// Groups the selected items by board, in increasing order of board name.
fn group_by_board(items: &[&Item], only: Option<ItemType>) -> (groups: Vec<(String, Vec<Item>)>)
    ensures
        is_grouping(ref_views(items@), only, group_views(groups@)),
{
    let ghost input = ref_views(items@);
    let mut groups: Vec<(String, Vec<Item>)> = Vec::new();
    for n in 0..items.len()
        invariant
            input == ref_views(items@),
            is_grouping(input.take(n as int), only, group_views(groups@)),
    {
        let it: &Item = items[n];
        let ghost v = it@;
        let ghost pre = input.take(n as int);
        let ghost gv = group_views(groups@);
        assert(input.take(n + 1) =~= pre.push(v));
        assert(input[n as int] == v);
        let take = match only {
            Some(t) => it.item_type == t,
            None => true,
        };
        if !take {
            proof {
                assert forall|i: int| 0 <= i < gv.len() implies #[trigger] gv[i].1 == members(
                    pre.push(v),
                    only,
                    gv[i].0,
                ) by {
                    lemma_filter_push(pre, |w: ItemView| on_board(w, only, gv[i].0), v);
                }
                assert forall|k: int|
                    0 <= k < pre.push(v).len() && selected(pre.push(v)[k], only) implies has_group(
                    gv,
                    #[trigger] pre.push(v)[k].board,
                ) by {
                    assert(pre.push(v)[k] == pre[k]);
                }
            }
        } else {
            let board = chars_of(it.board.as_str());
            let mut p: usize = 0;
            while p < groups.len() && text_less(chars_of(groups[p].0.as_str()).as_slice(), board.as_slice())
                invariant
                    gv == group_views(groups@),
                    p <= groups@.len(),
                    board@ == v.board,
                    forall|i: int| 0 <= i < p ==> text_lt(#[trigger] gv[i].0, v.board),
                decreases groups@.len() - p,
            {
                p = p + 1;
            }
            // every group before `p` comes before the board, every group from `p` on after it or at it
            if p < groups.len() && same_text(groups[p].0.as_str(), it.board.as_str()) {
                assert(gv[p as int].0 == v.board);
                let ghost before = groups@;
                let mut g = groups.remove(p);
                let ghost g0 = g;
                assert(g0 == before[p as int]);
                let c = it.clone();
                g.1.push(c);
                assert(views(g.1@) =~= views(g0.1@).push(v));
                assert(g.0 == g0.0);
                groups.insert(p, g);
                assert(groups@ =~= before.update(p as int, g));
                proof {
                    let gv2 = group_views(groups@);
                    assert(gv2 =~= gv.update(p as int, (gv[p as int].0, gv[p as int].1.push(v))));
                    assert forall|i: int| 0 <= i < gv2.len() implies #[trigger] gv2[i].1 == members(
                        pre.push(v),
                        only,
                        gv2[i].0,
                    ) by {
                        lemma_filter_push(pre, |w: ItemView| on_board(w, only, gv[i].0), v);
                        if i != p {
                            if i < p {
                                lemma_text_lt_irreflexive(gv[p as int].0);
                                assert(text_lt(gv[i].0, gv[p as int].0));
                            } else {
                                assert(text_lt(gv[p as int].0, gv[i].0));
                                lemma_text_lt_irreflexive(gv[p as int].0);
                            }
                        }
                    }
                    assert forall|k: int|
                        0 <= k < pre.push(v).len() && selected(pre.push(v)[k], only) implies has_group(
                        gv2,
                        #[trigger] pre.push(v)[k].board,
                    ) by {
                        if k < pre.len() {
                            assert(pre.push(v)[k] == pre[k]);
                            let i = choose|i: int| 0 <= i < gv.len() && #[trigger] gv[i].0 == pre[k].board;
                            assert(gv2[i].0 == gv[i].0);
                        } else {
                            assert(gv2[p as int].0 == v.board);
                        }
                    }
                    assert forall|i: int| 0 <= i < gv2.len() implies (#[trigger] gv2[i].1).len() > 0 by {
                        if i != p {
                            assert(gv2[i] == gv[i]);
                        }
                    }
                    assert forall|i: int, j: int|
                        0 <= i < j < gv2.len() implies text_lt(#[trigger] gv2[i].0, #[trigger] gv2[j].0) by {
                        assert(gv2[i].0 == gv[i].0);
                        assert(gv2[j].0 == gv[j].0);
                    }
                }
            } else {
                proof {
                    // no group has the item's board
                    if p < groups.len() {
                        lemma_text_lt_total(gv[p as int].0, v.board);
                    }
                    assert forall|i: int| 0 <= i < gv.len() implies #[trigger] gv[i].0 != v.board by {
                        if i < p {
                            lemma_text_lt_irreflexive(v.board);
                        } else {
                            if i > p {
                                lemma_text_lt_transitive(v.board, gv[p as int].0, gv[i].0);
                            }
                            lemma_text_lt_irreflexive(v.board);
                        }
                    }
                    assert forall|k: int| 0 <= k < pre.len() implies !on_board(
                        #[trigger] pre[k],
                        only,
                        v.board,
                    ) by {
                        if on_board(pre[k], only, v.board) {
                            let i = choose|i: int| 0 <= i < gv.len() && #[trigger] gv[i].0 == pre[k].board;
                            assert(gv[i].0 != v.board);
                        }
                    }
                    lemma_filter_none(pre, |w: ItemView| on_board(w, only, v.board));
                    lemma_filter_push(pre, |w: ItemView| on_board(w, only, v.board), v);
                }
                let name = copy_string(&it.board);
                let mut fresh: Vec<Item> = Vec::new();
                fresh.push(it.clone());
                let ghost fresh_view = (name@, views(fresh@));
                assert(views(fresh@) =~= seq![v]);
                groups.insert(p, (name, fresh));
                proof {
                    let gv2 = group_views(groups@);
                    assert(gv2 =~= gv.insert(p as int, (v.board, seq![v])));
                    assert(members(pre.push(v), only, v.board) =~= seq![v]) by {
                        assert(Seq::<ItemView>::empty().push(v) =~= seq![v]);
                    }
                    assert forall|i: int| 0 <= i < gv2.len() implies #[trigger] gv2[i].1 == members(
                        pre.push(v),
                        only,
                        gv2[i].0,
                    ) by {
                        if i != p {
                            let o = if i < p { i } else { i - 1 };
                            assert(gv2[i] == gv[o]);
                            assert(gv[o].0 != v.board);
                            lemma_filter_push(pre, |w: ItemView| on_board(w, only, gv[o].0), v);
                        }
                    }
                    assert forall|i: int| 0 <= i < gv2.len() implies (#[trigger] gv2[i].1).len() > 0 by {
                        if i != p {
                            let o = if i < p { i } else { i - 1 };
                            assert(gv2[i] == gv[o]);
                        }
                    }
                    assert forall|k: int|
                        0 <= k < pre.push(v).len() && selected(pre.push(v)[k], only) implies has_group(
                        gv2,
                        #[trigger] pre.push(v)[k].board,
                    ) by {
                        if k < pre.len() {
                            assert(pre.push(v)[k] == pre[k]);
                            let i = choose|i: int| 0 <= i < gv.len() && #[trigger] gv[i].0 == pre[k].board;
                            let o = if i < p { i } else { i + 1 };
                            assert(gv2[o].0 == gv[i].0);
                        } else {
                            assert(gv2[p as int].0 == v.board);
                        }
                    }
                    assert forall|i: int, j: int|
                        0 <= i < j < gv2.len() implies text_lt(#[trigger] gv2[i].0, #[trigger] gv2[j].0) by {
                        let oi = if i < p { i } else { i - 1 };
                        let oj = if j < p { j } else { j - 1 };
                        if i < p && j < p {
                        } else if i < p && j == p {
                        } else if i < p {
                            assert(text_lt(gv[oi].0, gv[p as int].0) || oi == p as int - 1);
                            assert(text_lt(gv[oi].0, v.board));
                            if j > p + 1 {
                                lemma_text_lt_transitive(v.board, gv[p as int].0, gv[oj].0);
                            }
                            lemma_text_lt_transitive(gv[oi].0, v.board, gv[oj].0);
                        } else if i == p {
                            if j > p + 1 {
                                lemma_text_lt_transitive(v.board, gv[p as int].0, gv[oj].0);
                            }
                        } else {
                            assert(gv2[i] == gv[oi]);
                            assert(gv2[j] == gv[oj]);
                        }
                    }
                }
            }
        }
    }
    assert(input.take(items@.len() as int) =~= input);
    groups
}

/// Whether an item counts towards a board's figures: a task (where
/// `tasks_only`), and done (where `done_only`).
pub open spec fn counted(v: ItemView, tasks_only: bool, done_only: bool) -> bool {
    (!tasks_only || v.item_type == ItemType::Task) && (!done_only || v.status == Status::Done)
}

/// How many of the items count.
pub open spec fn count_of(items: Seq<ItemView>, tasks_only: bool, done_only: bool) -> nat {
    items.filter(|v: ItemView| counted(v, tasks_only, done_only)).len()
}

proof fn lemma_count_everything(items: Seq<ItemView>)
    ensures
        count_of(items, false, false) == items.len(),
    decreases items.len(),
{
    reveal(Seq::filter);
    if items.len() > 0 {
        lemma_count_everything(items.drop_last());
    }
}

fn count_items(items: &Vec<Item>, tasks_only: bool, done_only: bool) -> (n: usize)
    ensures
        n == count_of(views(items@), tasks_only, done_only),
{
    let mut n: usize = 0;
    for i in 0..items.len()
        invariant
            n == count_of(views(items@.take(i as int)), tasks_only, done_only),
            n <= i,
    {
        proof {
            assert(views(items@.take(i + 1)) =~= views(items@.take(i as int)).push(items@[i as int]@));
            lemma_filter_push(
                views(items@.take(i as int)),
                |v: ItemView| counted(v, tasks_only, done_only),
                items@[i as int]@,
            );
            views(items@.take(i as int)).lemma_filter_len(|v: ItemView| counted(v, tasks_only, done_only));
        }
        let it = &items[i];
        if (!tasks_only || it.item_type == ItemType::Task) && (!done_only || it.status == Status::Done) {
            n = n + 1;
        }
    }
    assert(items@.take(items@.len() as int) =~= items@);
    n
}

/// A board's name and items, by their views.
pub open spec fn stats_groups(bs: Seq<BoardStats>) -> Seq<(Seq<char>, Seq<ItemView>)> {
    bs.map_values(|b: BoardStats| (b.name@, views(b.items@)))
}

/// Boards with their counts: `done` and `total` count the items that are
/// done tasks and tasks (where `tasks_only_total`), or done items and all
/// items.
fn boards_with_counts(groups: Vec<(String, Vec<Item>)>, tasks_only: bool) -> (r: Vec<BoardStats>)
    ensures
        stats_groups(r@) == group_views(groups@),
        forall|i: int| 0 <= i < r@.len() ==> {
            &&& #[trigger] r@[i].done == count_of(views(r@[i].items@), tasks_only, true)
            &&& r@[i].total == count_of(views(r@[i].items@), tasks_only, false)
        },
{
    let ghost all = group_views(groups@);
    let mut rest = groups;
    let mut r: Vec<BoardStats> = Vec::new();
    while rest.len() > 0
        invariant
            all == stats_groups(r@) + group_views(rest@),
            forall|i: int| 0 <= i < r@.len() ==> {
                &&& #[trigger] r@[i].done == count_of(views(r@[i].items@), tasks_only, true)
                &&& r@[i].total == count_of(views(r@[i].items@), tasks_only, false)
            },
        decreases rest@.len(),
    {
        let ghost before = rest@;
        let g = rest.remove(0);
        assert(group_views(before) =~= seq![(g.0@, views(g.1@))] + group_views(rest@));
        let done = count_items(&g.1, tasks_only, true);
        let total = count_items(&g.1, tasks_only, false);
        let ghost prev = r@;
        r.push(BoardStats { name: g.0, done, total, items: g.1 });
        assert(stats_groups(r@) =~= stats_groups(prev).push((g.0@, views(g.1@))));
        assert forall|i: int| 0 <= i < r@.len() implies {
            &&& #[trigger] r@[i].done == count_of(views(r@[i].items@), tasks_only, true)
            &&& r@[i].total == count_of(views(r@[i].items@), tasks_only, false)
        } by {
            if i < prev.len() {
                assert(r@[i] == prev[i]);
            }
        }
    }
    assert(all =~= stats_groups(r@));
    r
}

/// The active tasks grouped by board, boards in order of name; `done` and
/// `total` count each board's done tasks and all its tasks.
pub fn group_tasks_by_board(items: &[&Item]) -> (r: Vec<BoardStats>)
    ensures
        stats_groups(r@) == grouping(ref_views(items@), Some(ItemType::Task)),
        is_grouping(ref_views(items@), Some(ItemType::Task), stats_groups(r@)),
        forall|i: int| 0 <= i < r@.len() ==> {
            &&& #[trigger] r@[i].done == count_of(views(r@[i].items@), false, true)
            &&& r@[i].total == r@[i].items@.len()
        },
{
    let groups = group_by_board(items, Some(ItemType::Task));
    let r = boards_with_counts(groups, false);
    proof {
        lemma_is_the_grouping(ref_views(items@), Some(ItemType::Task), stats_groups(r@));
    }
    assert forall|i: int| 0 <= i < r@.len() implies {
        &&& #[trigger] r@[i].done == count_of(views(r@[i].items@), false, true)
        &&& r@[i].total == r@[i].items@.len()
    } by {
        assert(r@[i].done == count_of(views(r@[i].items@), false, true));
        lemma_count_everything(views(r@[i].items@));
    }
    r
}

/// The notes grouped by board, boards in order of name.
pub fn group_notes_by_board(items: &[&Item]) -> (r: Vec<(String, Vec<Item>)>)
    ensures
        group_views(r@) == grouping(ref_views(items@), Some(ItemType::Note)),
        is_grouping(ref_views(items@), Some(ItemType::Note), group_views(r@)),
{
    let r = group_by_board(items, Some(ItemType::Note));
    proof {
        lemma_is_the_grouping(ref_views(items@), Some(ItemType::Note), group_views(r@));
    }
    r
}

/// All items grouped by board, boards in order of name; `done` and `total`
/// count each board's done tasks and its tasks (notes count in neither).
pub fn group_all_by_board(items: &[&Item]) -> (r: Vec<BoardStats>)
    ensures
        stats_groups(r@) == grouping(ref_views(items@), None),
        is_grouping(ref_views(items@), None, stats_groups(r@)),
        forall|i: int| 0 <= i < r@.len() ==> {
            &&& #[trigger] r@[i].done == count_of(views(r@[i].items@), true, true)
            &&& r@[i].total == count_of(views(r@[i].items@), true, false)
        },
{
    let groups = group_by_board(items, None);
    let r = boards_with_counts(groups, true);
    proof {
        lemma_is_the_grouping(ref_views(items@), None, stats_groups(r@));
    }
    assert forall|i: int| 0 <= i < r@.len() implies {
        &&& #[trigger] r@[i].done == count_of(views(r@[i].items@), true, true)
        &&& r@[i].total == count_of(views(r@[i].items@), true, false)
    } by {
        assert(r@[i].done == count_of(views(r@[i].items@), true, true));
    }
    r
}

/// The grouping of the selected items of `input` by board.
pub open spec fn grouping(input: Seq<ItemView>, only: Option<ItemType>) -> Seq<(Seq<char>, Seq<ItemView>)> {
    choose|g: Seq<(Seq<char>, Seq<ItemView>)>| is_grouping(input, only, g)
}

/// A group's name is the board of one of the selected input items.
proof fn lemma_group_name_is_board(
    input: Seq<ItemView>,
    only: Option<ItemType>,
    g: Seq<(Seq<char>, Seq<ItemView>)>,
    i: int,
) -> (k: int)
    requires
        is_grouping(input, only, g),
        0 <= i < g.len(),
    ensures
        0 <= k < input.len(),
        selected(input[k], only),
        input[k].board == g[i].0,
{
    let pred = |v: ItemView| on_board(v, only, g[i].0);
    assert(g[i].1 == members(input, only, g[i].0));
    assert(g[i].1.len() > 0);
    input.lemma_filter_pred(pred, 0);
    let w = input.filter(pred)[0];
    assert(pred(w));
    #[allow(deprecated)]
    input.filter_lemma(pred);
    lemma_filter_member(input, pred, 0);
    let k = choose|k: int| 0 <= k < input.len() && input[k] == w;
    k
}

proof fn lemma_filter_member<A>(s: Seq<A>, pred: spec_fn(A) -> bool, j: int)
    requires
        0 <= j < s.filter(pred).len(),
    ensures
        exists|k: int| 0 <= k < s.len() && s[k] == s.filter(pred)[j],
    decreases s.len(),
{
    reveal(Seq::filter);
    if s.len() > 0 {
        let t = s.drop_last();
        if pred(s.last()) && j == s.filter(pred).len() - 1 {
            assert(s[s.len() - 1] == s.filter(pred)[j]);
        } else {
            assert(s.filter(pred)[j] == t.filter(pred)[j]);
            lemma_filter_member(t, pred, j);
            let k = choose|k: int| 0 <= k < t.len() && t[k] == t.filter(pred)[j];
            assert(s[k] == t[k]);
        }
    }
}

/// Each name of one grouping stands in the other.
proof fn lemma_names_shared(
    input: Seq<ItemView>,
    only: Option<ItemType>,
    g1: Seq<(Seq<char>, Seq<ItemView>)>,
    g2: Seq<(Seq<char>, Seq<ItemView>)>,
    i: int,
) -> (j: int)
    requires
        is_grouping(input, only, g1),
        is_grouping(input, only, g2),
        0 <= i < g1.len(),
    ensures
        0 <= j < g2.len(),
        g2[j].0 == g1[i].0,
{
    let k = lemma_group_name_is_board(input, only, g1, i);
    assert(has_group(g2, input[k].board));
    choose|j: int| 0 <= j < g2.len() && #[trigger] g2[j].0 == input[k].board
}

proof fn lemma_same_names_upto(
    input: Seq<ItemView>,
    only: Option<ItemType>,
    g1: Seq<(Seq<char>, Seq<ItemView>)>,
    g2: Seq<(Seq<char>, Seq<ItemView>)>,
    n: int,
)
    requires
        is_grouping(input, only, g1),
        is_grouping(input, only, g2),
        0 <= n <= g1.len(),
        n <= g2.len(),
    ensures
        forall|j: int| 0 <= j < n ==> #[trigger] g1[j].0 == g2[j].0,
    decreases n,
{
    if n > 0 {
        lemma_same_names_upto(input, only, g1, g2, n - 1);
        let i = n - 1;
        lemma_text_lt_total(g1[i].0, g2[i].0);
        if text_lt(g1[i].0, g2[i].0) {
            let j = lemma_names_shared(input, only, g1, g2, i);
            if j < i {
                assert(g1[j].0 == g2[j].0);
                assert(text_lt(g1[j].0, g1[i].0));
                lemma_text_lt_irreflexive(g1[i].0);
            } else if j > i {
                assert(text_lt(g2[i].0, g2[j].0));
                lemma_text_lt_asymmetric(g1[i].0, g2[i].0);
                lemma_text_lt_transitive(g1[i].0, g2[i].0, g2[j].0);
                lemma_text_lt_irreflexive(g1[i].0);
            } else {
                lemma_text_lt_irreflexive(g1[i].0);
            }
        } else if text_lt(g2[i].0, g1[i].0) {
            let j = lemma_names_shared(input, only, g2, g1, i);
            if j < i {
                assert(g1[j].0 == g2[j].0);
                assert(text_lt(g2[j].0, g2[i].0));
                lemma_text_lt_irreflexive(g2[i].0);
            } else if j > i {
                assert(text_lt(g1[i].0, g1[j].0));
                lemma_text_lt_transitive(g2[i].0, g1[i].0, g1[j].0);
                lemma_text_lt_irreflexive(g2[i].0);
            } else {
                lemma_text_lt_irreflexive(g2[i].0);
            }
        }
    }
}

/// The grouping of items by board is determined by the items: two groupings
/// of the same items are the same.
pub proof fn grouping_is_unique(
    input: Seq<ItemView>,
    only: Option<ItemType>,
    g1: Seq<(Seq<char>, Seq<ItemView>)>,
    g2: Seq<(Seq<char>, Seq<ItemView>)>,
)
    requires
        is_grouping(input, only, g1),
        is_grouping(input, only, g2),
    ensures
        g1 == g2,
{
    let n = if g1.len() <= g2.len() { g1.len() as int } else { g2.len() as int };
    lemma_same_names_upto(input, only, g1, g2, n);
    if g1.len() > g2.len() {
        let i = g2.len() as int;
        let j = lemma_names_shared(input, only, g1, g2, i);
        assert(g1[j].0 == g2[j].0);
        assert(text_lt(g1[j].0, g1[i].0));
        lemma_text_lt_irreflexive(g1[i].0);
    } else if g2.len() > g1.len() {
        let i = g1.len() as int;
        let j = lemma_names_shared(input, only, g2, g1, i);
        assert(g1[j].0 == g2[j].0);
        assert(text_lt(g2[j].0, g2[i].0));
        lemma_text_lt_irreflexive(g2[i].0);
    }
    assert forall|i: int| 0 <= i < g1.len() implies g1[i] == g2[i] by {
        assert(g1[i].0 == g2[i].0);
        assert(g1[i].1 == members(input, only, g1[i].0));
        assert(g2[i].1 == members(input, only, g2[i].0));
    }
    assert(g1 =~= g2);
}

/// A grouping is the grouping.
pub proof fn lemma_is_the_grouping(
    input: Seq<ItemView>,
    only: Option<ItemType>,
    g: Seq<(Seq<char>, Seq<ItemView>)>,
)
    requires
        is_grouping(input, only, g),
    ensures
        grouping(input, only) == g,
{
    grouping_is_unique(input, only, g, grouping(input, only));
}

/// The number of items over all groups.
pub open spec fn total_size(g: Seq<(Seq<char>, Seq<ItemView>)>) -> nat
    decreases g.len(),
{
    if g.len() == 0 {
        0
    } else {
        total_size(g.drop_last()) + g.last().1.len()
    }
}

/// The members of `input` over all the named boards.
spec fn count_over(input: Seq<ItemView>, only: Option<ItemType>, names: Seq<Seq<char>>) -> nat
    decreases names.len(),
{
    if names.len() == 0 {
        0
    } else {
        count_over(input, only, names.drop_last()) + members(input, only, names.last()).len()
    }
}

/// How many of the names are the board of `v` (where `v` takes part).
spec fn occurrences(names: Seq<Seq<char>>, v: ItemView, only: Option<ItemType>) -> nat
    decreases names.len(),
{
    if names.len() == 0 {
        0
    } else {
        occurrences(names.drop_last(), v, only) + if on_board(v, only, names.last()) {
            1nat
        } else {
            0nat
        }
    }
}

proof fn lemma_count_over_push(p: Seq<ItemView>, v: ItemView, only: Option<ItemType>, names: Seq<Seq<char>>)
    ensures
        count_over(p.push(v), only, names) == count_over(p, only, names) + occurrences(names, v, only),
    decreases names.len(),
{
    if names.len() > 0 {
        lemma_count_over_push(p, v, only, names.drop_last());
        lemma_filter_push(p, |w: ItemView| on_board(w, only, names.last()), v);
    }
}

proof fn lemma_count_over_empty(only: Option<ItemType>, names: Seq<Seq<char>>)
    ensures
        count_over(Seq::<ItemView>::empty(), only, names) == 0,
    decreases names.len(),
{
    if names.len() > 0 {
        lemma_count_over_empty(only, names.drop_last());
        reveal(Seq::filter);
    }
}

proof fn lemma_occurrences(names: Seq<Seq<char>>, v: ItemView, only: Option<ItemType>)
    requires
        forall|i: int, j: int| 0 <= i < j < names.len() ==> names[i] != names[j],
        selected(v, only) ==> names.contains(v.board),
    ensures
        occurrences(names, v, only) == if selected(v, only) { 1nat } else { 0nat },
    decreases names.len(),
{
    if names.len() > 0 {
        let front = names.drop_last();
        assert forall|i: int, j: int| 0 <= i < j < front.len() implies front[i] != front[j] by {
            assert(front[i] == names[i] && front[j] == names[j]);
        }
        if selected(v, only) && names.last() == v.board {
            lemma_occurrences_none(front, v, only);
        } else {
            if selected(v, only) {
                let k = choose|k: int| 0 <= k < names.len() && names[k] == v.board;
                assert(k < names.len() - 1);
                assert(front[k] == v.board);
            }
            lemma_occurrences(front, v, only);
        }
    } else {
        if selected(v, only) {
            assert(!names.contains(v.board));
        }
    }
}

proof fn lemma_occurrences_none(names: Seq<Seq<char>>, v: ItemView, only: Option<ItemType>)
    requires
        !names.contains(v.board),
    ensures
        occurrences(names, v, only) == 0,
    decreases names.len(),
{
    if names.len() > 0 {
        assert(names.last() != v.board) by {
            assert(names[names.len() - 1] == names.last());
        }
        let front = names.drop_last();
        assert(!front.contains(v.board)) by {
            if front.contains(v.board) {
                let k = choose|k: int| 0 <= k < front.len() && front[k] == v.board;
                assert(names[k] == v.board);
            }
        }
        lemma_occurrences_none(front, v, only);
    }
}

proof fn lemma_count_over(input: Seq<ItemView>, only: Option<ItemType>, names: Seq<Seq<char>>)
    requires
        forall|i: int, j: int| 0 <= i < j < names.len() ==> names[i] != names[j],
        forall|k: int| 0 <= k < input.len() && selected(input[k], only) ==> names.contains(#[trigger] input[k].board),
    ensures
        count_over(input, only, names) == input.filter(|v: ItemView| selected(v, only)).len(),
    decreases input.len(),
{
    reveal(Seq::filter);
    if input.len() == 0 {
        lemma_count_over_empty(only, names);
        assert(input =~= Seq::<ItemView>::empty());
    } else {
        let p = input.drop_last();
        let v = input.last();
        assert forall|k: int| 0 <= k < p.len() && selected(p[k], only) implies names.contains(#[trigger] p[k].board) by {
            assert(p[k] == input[k]);
        }
        lemma_count_over(p, only, names);
        assert(input =~= p.push(v));
        lemma_count_over_push(p, v, only, names);
        assert(selected(v, only) ==> names.contains(input[input.len() - 1].board));
        lemma_occurrences(names, v, only);
        lemma_filter_push(p, |w: ItemView| selected(w, only), v);
    }
}

/// Every item that takes part in a grouping by board lands in exactly one
/// board: the boards hold as many items as there are such items.
pub proof fn grouping_holds_every_item_once(
    input: Seq<ItemView>,
    only: Option<ItemType>,
    g: Seq<(Seq<char>, Seq<ItemView>)>,
)
    requires
        is_grouping(input, only, g),
    ensures
        total_size(g) == input.filter(|v: ItemView| selected(v, only)).len(),
{
    let names = g.map_values(|x: (Seq<char>, Seq<ItemView>)| x.0);
    assert forall|i: int, j: int| 0 <= i < j < names.len() implies names[i] != names[j] by {
        assert(text_lt(g[i].0, g[j].0));
        lemma_text_lt_irreflexive(g[i].0);
    }
    assert forall|k: int| 0 <= k < input.len() && selected(input[k], only) implies names.contains(
        #[trigger] input[k].board,
    ) by {
        assert(has_group(g, input[k].board));
        let i = choose|i: int| 0 <= i < g.len() && #[trigger] g[i].0 == input[k].board;
        assert(names[i] == input[k].board);
    }
    lemma_count_over(input, only, names);
    lemma_total_is_count(input, only, g);
}

proof fn lemma_total_is_count(input: Seq<ItemView>, only: Option<ItemType>, g: Seq<(Seq<char>, Seq<ItemView>)>)
    requires
        forall|i: int| 0 <= i < g.len() ==> #[trigger] g[i].1 == members(input, only, g[i].0),
    ensures
        total_size(g) == count_over(input, only, g.map_values(|x: (Seq<char>, Seq<ItemView>)| x.0)),
    decreases g.len(),
{
    if g.len() > 0 {
        let f = g.drop_last();
        assert forall|i: int| 0 <= i < f.len() implies #[trigger] f[i].1 == members(input, only, f[i].0) by {
            assert(f[i] == g[i]);
        }
        lemma_total_is_count(input, only, f);
        assert(g.map_values(|x: (Seq<char>, Seq<ItemView>)| x.0).drop_last() =~= f.map_values(
            |x: (Seq<char>, Seq<ItemView>)| x.0,
        ));
        assert(g[g.len() - 1].1 == members(input, only, g[g.len() - 1].0));
    }
}

/// Where a group for board `b` goes among the groups: after every group
/// whose name comes before `b`.
pub open spec fn group_pos(g: Seq<(Seq<char>, Seq<ItemView>)>, b: Seq<char>) -> int
    decreases g.len(),
{
    if g.len() == 0 {
        0
    } else {
        let p = group_pos(g.drop_last(), b);
        if p < g.len() - 1 {
            p
        } else if !text_lt(g.last().0, b) {
            g.len() - 1
        } else {
            g.len() as int
        }
    }
}

/// The grouping with one more item: the item joins its board's group, or a
/// new group for its board is put in its place.
pub open spec fn insert_group(g: Seq<(Seq<char>, Seq<ItemView>)>, v: ItemView, only: Option<ItemType>) -> Seq<(Seq<char>, Seq<ItemView>)> {
    if !selected(v, only) {
        g
    } else {
        let p = group_pos(g, v.board);
        if p < g.len() && g[p].0 == v.board {
            g.update(p, (g[p].0, g[p].1.push(v)))
        } else {
            g.insert(p, (v.board, seq![v]))
        }
    }
}

/// The grouping built item by item.
pub open spec fn build_grouping(input: Seq<ItemView>, only: Option<ItemType>) -> Seq<(Seq<char>, Seq<ItemView>)>
    decreases input.len(),
{
    if input.len() == 0 {
        Seq::<(Seq<char>, Seq<ItemView>)>::empty()
    } else {
        insert_group(build_grouping(input.drop_last(), only), input.last(), only)
    }
}

proof fn lemma_group_pos(g: Seq<(Seq<char>, Seq<ItemView>)>, b: Seq<char>)
    ensures
        0 <= group_pos(g, b) <= g.len(),
        forall|i: int| 0 <= i < group_pos(g, b) ==> text_lt(#[trigger] g[i].0, b),
        group_pos(g, b) < g.len() ==> !text_lt(g[group_pos(g, b)].0, b),
    decreases g.len(),
{
    if g.len() > 0 {
        lemma_group_pos(g.drop_last(), b);
        assert forall|i: int| 0 <= i < group_pos(g, b) implies text_lt(#[trigger] g[i].0, b) by {
            if i < g.len() - 1 {
                assert(g[i] == g.drop_last()[i]);
            }
        }
    }
}

proof fn lemma_insert_group(pre: Seq<ItemView>, v: ItemView, only: Option<ItemType>, gv: Seq<(Seq<char>, Seq<ItemView>)>)
    requires
        is_grouping(pre, only, gv),
    ensures
        is_grouping(pre.push(v), only, insert_group(gv, v, only)),
{
    if !selected(v, only) {
        assert forall|i: int| 0 <= i < gv.len() implies #[trigger] gv[i].1 == members(
            pre.push(v),
            only,
            gv[i].0,
        ) by {
            lemma_filter_push(pre, |w: ItemView| on_board(w, only, gv[i].0), v);
        }
        assert forall|k: int|
            0 <= k < pre.push(v).len() && selected(pre.push(v)[k], only) implies has_group(
            gv,
            #[trigger] pre.push(v)[k].board,
        ) by {
            assert(pre.push(v)[k] == pre[k]);
        }
    } else {
        let p = group_pos(gv, v.board);
        lemma_group_pos(gv, v.board);
        if p < gv.len() && gv[p].0 == v.board {
            let gv2 = gv.update(p, (gv[p].0, gv[p].1.push(v)));
            assert forall|i: int| 0 <= i < gv2.len() implies #[trigger] gv2[i].1 == members(
                pre.push(v),
                only,
                gv2[i].0,
            ) by {
                lemma_filter_push(pre, |w: ItemView| on_board(w, only, gv[i].0), v);
                if i != p {
                    if i < p {
                        lemma_text_lt_irreflexive(gv[p].0);
                        assert(text_lt(gv[i].0, gv[p].0));
                    } else {
                        assert(text_lt(gv[p].0, gv[i].0));
                        lemma_text_lt_irreflexive(gv[p].0);
                    }
                }
            }
            assert forall|k: int|
                0 <= k < pre.push(v).len() && selected(pre.push(v)[k], only) implies has_group(
                gv2,
                #[trigger] pre.push(v)[k].board,
            ) by {
                if k < pre.len() {
                    assert(pre.push(v)[k] == pre[k]);
                    let i = choose|i: int| 0 <= i < gv.len() && #[trigger] gv[i].0 == pre[k].board;
                    assert(gv2[i].0 == gv[i].0);
                } else {
                    assert(gv2[p].0 == v.board);
                }
            }
            assert forall|i: int| 0 <= i < gv2.len() implies (#[trigger] gv2[i].1).len() > 0 by {
                if i != p {
                    assert(gv2[i] == gv[i]);
                }
            }
            assert forall|i: int, j: int|
                0 <= i < j < gv2.len() implies text_lt(#[trigger] gv2[i].0, #[trigger] gv2[j].0) by {
                assert(gv2[i].0 == gv[i].0);
                assert(gv2[j].0 == gv[j].0);
            }
        } else {
            if p < gv.len() {
                lemma_text_lt_total(gv[p].0, v.board);
            }
            assert forall|i: int| 0 <= i < gv.len() implies #[trigger] gv[i].0 != v.board by {
                if i < p {
                    lemma_text_lt_irreflexive(v.board);
                } else {
                    if i > p {
                        lemma_text_lt_transitive(v.board, gv[p].0, gv[i].0);
                    }
                    lemma_text_lt_irreflexive(v.board);
                }
            }
            assert forall|k: int| 0 <= k < pre.len() implies !on_board(#[trigger] pre[k], only, v.board) by {
                if on_board(pre[k], only, v.board) {
                    let i = choose|i: int| 0 <= i < gv.len() && #[trigger] gv[i].0 == pre[k].board;
                    assert(gv[i].0 != v.board);
                }
            }
            lemma_filter_none(pre, |w: ItemView| on_board(w, only, v.board));
            lemma_filter_push(pre, |w: ItemView| on_board(w, only, v.board), v);
            let gv2 = gv.insert(p, (v.board, seq![v]));
            assert(members(pre.push(v), only, v.board) =~= seq![v]) by {
                assert(Seq::<ItemView>::empty().push(v) =~= seq![v]);
            }
            assert forall|i: int| 0 <= i < gv2.len() implies #[trigger] gv2[i].1 == members(
                pre.push(v),
                only,
                gv2[i].0,
            ) by {
                if i != p {
                    let o = if i < p { i } else { i - 1 };
                    assert(gv2[i] == gv[o]);
                    assert(gv[o].0 != v.board);
                    lemma_filter_push(pre, |w: ItemView| on_board(w, only, gv[o].0), v);
                }
            }
            assert forall|i: int| 0 <= i < gv2.len() implies (#[trigger] gv2[i].1).len() > 0 by {
                if i != p {
                    let o = if i < p { i } else { i - 1 };
                    assert(gv2[i] == gv[o]);
                }
            }
            assert forall|k: int|
                0 <= k < pre.push(v).len() && selected(pre.push(v)[k], only) implies has_group(
                gv2,
                #[trigger] pre.push(v)[k].board,
            ) by {
                if k < pre.len() {
                    assert(pre.push(v)[k] == pre[k]);
                    let i = choose|i: int| 0 <= i < gv.len() && #[trigger] gv[i].0 == pre[k].board;
                    let o = if i < p { i } else { i + 1 };
                    assert(gv2[o].0 == gv[i].0);
                } else {
                    assert(gv2[p].0 == v.board);
                }
            }
            assert forall|i: int, j: int|
                0 <= i < j < gv2.len() implies text_lt(#[trigger] gv2[i].0, #[trigger] gv2[j].0) by {
                let oi = if i < p { i } else { i - 1 };
                let oj = if j < p { j } else { j - 1 };
                if i < p && j < p {
                } else if i < p && j == p {
                } else if i < p {
                    assert(text_lt(gv[oi].0, v.board));
                    if j > p + 1 {
                        lemma_text_lt_transitive(v.board, gv[p].0, gv[oj].0);
                    }
                    lemma_text_lt_transitive(gv[oi].0, v.board, gv[oj].0);
                } else if i == p {
                    if j > p + 1 {
                        lemma_text_lt_transitive(v.board, gv[p].0, gv[oj].0);
                    }
                } else {
                    assert(gv2[i] == gv[oi]);
                    assert(gv2[j] == gv[oj]);
                }
            }
        }
    }
}

proof fn lemma_build_grouping(input: Seq<ItemView>, only: Option<ItemType>)
    ensures
        is_grouping(input, only, build_grouping(input, only)),
    decreases input.len(),
{
    if input.len() == 0 {
    } else {
        lemma_build_grouping(input.drop_last(), only);
        lemma_insert_group(input.drop_last(), input.last(), only, build_grouping(input.drop_last(), only));
        assert(input.drop_last().push(input.last()) =~= input);
    }
}

/// Every list of items has a grouping by board, and `grouping` is it.
pub proof fn grouping_exists(input: Seq<ItemView>, only: Option<ItemType>)
    ensures
        is_grouping(input, only, grouping(input, only)),
{
    lemma_build_grouping(input, only);
    lemma_is_the_grouping(input, only, build_grouping(input, only));
}

} // verus!
