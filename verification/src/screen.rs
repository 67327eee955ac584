//! What the interactive views draw: the task view with its boards, the
//! archive view, the column header and the footer with the key hints.
use vstd::prelude::*;

use crate::board::{count_of, group_tasks_by_board, grouping, stats_groups};
use crate::item::{Item, ItemType, ItemView, Priority, Status};
use crate::render::{counted_header, active_of, Color, Content, ContentView, LineView, SpanView, Style, StyledLine, StyledSpan, line_views, style, texts, txt, wrap_spec, wrap_text, wrapped_lines_nonempty};
use crate::store::{Store, active_items, archived_items, is_archived, lemma_filter_push, ref_views, views};
use crate::text::{decimal, pad_left, pad_left_chars, pad_right, pad_right_chars, push_str_chars, spaces, space_chars, chars_of, string_of, decimal_chars};
use crate::tui::{InputMode, TuiState, TuiStateView};

verus! {

/// Columns before an item's description: cursor 2, ID 4, icon 2, priority 9,
/// dates 23.
pub const PREFIX_LEN: usize = 40;

pub open spec fn raw() -> Style {
    style(Color::Plain, false, false, false)
}

pub open spec fn gray() -> Style {
    style(Color::DarkGray, false, false, false)
}

pub open spec fn bold_in(c: Color) -> Style {
    style(c, true, false, false)
}

pub open spec fn in_color(c: Color) -> Style {
    style(c, false, false, false)
}

/// A line of one span.
pub open spec fn one_span_line(s: Seq<char>, st: Style, highlighted: bool) -> LineView {
    LineView { spans: seq![txt(s, st)], highlighted }
}

/// The column header of a board.
pub open spec fn col_header_text() -> Seq<char> {
    pad_right(""@, 2) + pad_right("ID"@, 4) + pad_right(""@, 2) + pad_right("PRIORITY"@, 9) + pad_right(
        "CREATED/DONE"@,
        23,
    ) + "DESCRIPTION"@
}

pub open spec fn col_header_spec() -> LineView {
    one_span_line(col_header_text(), gray(), false)
}

pub open spec fn separator_spec() -> LineView {
    one_span_line("  ─────────────────────────────────────────────────────"@, gray(), false)
}

/// A priority label padded to 9 columns, in its colour.
pub open spec fn priority_cell(p: Priority) -> SpanView {
    match p {
        Priority::Low => txt(pad_right("LOW"@, 9), in_color(Color::Cyan)),
        Priority::Medium => txt(pad_right("MEDIUM"@, 9), bold_in(Color::Yellow)),
        Priority::High => txt(pad_right("HIGH"@, 9), bold_in(Color::Red)),
    }
}

pub open spec fn priority_or_blank(v: ItemView) -> SpanView {
    match v.priority {
        None => txt(spaces(9), raw()),
        Some(p) => priority_cell(p),
    }
}

/// The icon of an item in the task view, by its status.
pub open spec fn status_icon(v: ItemView) -> SpanView {
    match v.status {
        Status::Done => txt("✔ "@, in_color(Color::Green)),
        Status::InProgress => txt("● "@, in_color(Color::Cyan)),
        Status::Pending => txt("● "@, in_color(Color::White)),
    }
}

/// The icon of an item in the archive view, by its kind and status.
pub open spec fn archive_icon(v: ItemView) -> SpanView {
    match v.item_type {
        ItemType::Task => if v.status == Status::Done {
            txt("✔ "@, in_color(Color::Green))
        } else {
            txt("● "@, in_color(Color::White))
        },
        ItemType::Note => txt("◆ "@, in_color(Color::Blue)),
    }
}

/// The rows of one item: the first with all columns and the first part of
/// the wrapped description, then one row per further part, indented to the
/// description column.
pub open spec fn item_rows(v: ItemView, selected: bool, icon: SpanView, desc_style: Style, desc_width: nat) -> Seq<LineView> {
    let chunks = wrap_spec(v.description, if desc_width < 1 { 1 } else { desc_width });
    let first = LineView {
        spans: seq![
            txt(if selected { "▶ "@ } else { "  "@ }, raw()),
            txt(pad_left(decimal(v.id as nat), 3) + " "@, gray()),
            icon,
            priority_or_blank(v),
            SpanView { content: ContentView::DateRange(v.created_at, v.completed_at), style: gray() },
            txt(chunks[0], desc_style),
        ],
        highlighted: selected,
    };
    seq![first] + chunks.skip(1).map_values(
        |c: Seq<char>| one_span_line(spaces(PREFIX_LEN as nat) + c, desc_style, selected),
    )
}

/// The style of a description in the task view: green and struck through
/// once done, white before.
pub open spec fn task_desc_style(v: ItemView) -> Style {
    if v.status == Status::Done {
        style(Color::Green, false, false, true)
    } else {
        in_color(Color::White)
    }
}

fn mk(color: Color, bold: bool, dimmed: bool, crossed_out: bool) -> (r: Style)
    ensures
        r == style(color, bold, dimmed, crossed_out),
{
    Style { color, bold, dimmed, crossed_out }
}

fn span_of(s: String, st: Style) -> (r: StyledSpan)
    ensures
        r@ == txt(s@, st),
{
    StyledSpan { content: Content::Text(s), style: st }
}

fn single_span_line(s: String, st: Style, highlighted: bool) -> (r: StyledLine)
    ensures
        r@ == one_span_line(s@, st, highlighted),
{
    let mut spans: Vec<StyledSpan> = Vec::new();
    spans.push(span_of(s, st));
    let r = StyledLine { spans, highlighted };
    assert(r@.spans =~= seq![txt(s@, st)]);
    r
}

fn padded_right(s: &str, width: usize) -> (r: String)
    ensures
        r@ == pad_right(s@, width as nat),
{
    let c = chars_of(s);
    let p = pad_right_chars(c.as_slice(), width);
    string_of(p.as_slice())
}

/// The column header of a board.
pub fn col_header_line() -> (r: StyledLine)
    ensures
        r@ == col_header_spec(),
{
    let mut t = padded_right("", 2);
    push_str_chars(&mut t, padded_right("ID", 4).as_str());
    push_str_chars(&mut t, padded_right("", 2).as_str());
    push_str_chars(&mut t, padded_right("PRIORITY", 9).as_str());
    push_str_chars(&mut t, padded_right("CREATED/DONE", 23).as_str());
    push_str_chars(&mut t, "DESCRIPTION");
    single_span_line(t, mk(Color::DarkGray, false, false, false), false)
}

/// The rule under a board's column header.
pub fn separator_line() -> (r: StyledLine)
    ensures
        r@ == separator_spec(),
{
    single_span_line("  ─────────────────────────────────────────────────────".to_owned(), mk(Color::DarkGray, false, false, false), false)
}

/// A priority label padded to 9 columns, in its colour.
pub fn priority_span(p: &Priority) -> (r: StyledSpan)
    ensures
        r@ == priority_cell(*p),
{
    match p {
        Priority::Low => span_of(padded_right(p.label(), 9), mk(Color::Cyan, false, false, false)),
        Priority::Medium => span_of(padded_right(p.label(), 9), mk(Color::Yellow, true, false, false)),
        Priority::High => span_of(padded_right(p.label(), 9), mk(Color::Red, true, false, false)),
    }
}

fn priority_or_blank_span(item: &Item) -> (r: StyledSpan)
    ensures
        r@ == priority_or_blank(item@),
{
    match &item.priority {
        None => span_of(string_of(space_chars(9).as_slice()), mk(Color::Plain, false, false, false)),
        Some(p) => priority_span(p),
    }
}

fn push_row(lines: &mut Vec<StyledLine>, l: StyledLine)
    ensures
        line_views(final(lines)@) == line_views(old(lines)@).push(l@),
{
    let ghost prev = lines@;
    lines.push(l);
    assert(line_views(lines@) =~= line_views(prev).push(l@));
}

/// Appends the rows of one item.
fn push_item_rows(
    lines: &mut Vec<StyledLine>,
    item: &Item,
    selected: bool,
    icon: StyledSpan,
    desc_style: Style,
    desc_width: usize,
)
    ensures
        line_views(final(lines)@) == line_views(old(lines)@) + item_rows(
            item@,
            selected,
            icon@,
            desc_style,
            desc_width as nat,
        ),
{
    let ghost start = line_views(lines@);
    let ghost icon_view = icon@;
    let w: usize = if desc_width < 1 { 1 } else { desc_width };
    let chunks = wrap_text(item.description.as_str(), w);
    proof {
        wrapped_lines_nonempty(item.description@, w as nat);
    }
    let ghost cs = texts(chunks@);
    assert(cs[0] == chunks@[0]@);
    let mut id_text = string_of(pad_left_chars(decimal_chars(item.id as u64).as_slice(), 3).as_slice());
    push_str_chars(&mut id_text, " ");
    let mut spans: Vec<StyledSpan> = Vec::new();
    spans.push(span_of((if selected { "▶ " } else { "  " }).to_owned(), mk(Color::Plain, false, false, false)));
    spans.push(span_of(id_text, mk(Color::DarkGray, false, false, false)));
    spans.push(icon);
    spans.push(priority_or_blank_span(item));
    spans.push(StyledSpan {
        content: Content::DateRange(item.created_at, item.completed_at),
        style: mk(Color::DarkGray, false, false, false),
    });
    spans.push(span_of(chunks[0].clone(), desc_style));
    let first = StyledLine { spans, highlighted: selected };
    let ghost rows = item_rows(item@, selected, icon_view, desc_style, desc_width as nat);
    assert(first@.spans =~= rows[0].spans);
    push_row(lines, first);
    for k in 1..chunks.len()
        invariant
            cs == texts(chunks@),
            chunks@.len() >= 1,
            line_views(lines@) == start + rows.take(k as int),
            rows == item_rows(item@, selected, icon_view, desc_style, desc_width as nat),
            rows.len() == chunks@.len(),
            forall|j: int| 1 <= j < rows.len() ==> #[trigger] rows[j] == one_span_line(
                spaces(PREFIX_LEN as nat) + cs[j],
                desc_style,
                selected,
            ),
    {
        let mut t = string_of(space_chars(PREFIX_LEN).as_slice());
        push_str_chars(&mut t, chunks[k].as_str());
        assert(cs[k as int] == chunks@[k as int]@);
        let l = single_span_line(t, desc_style, selected);
        push_row(lines, l);
        assert(rows.take(k + 1) =~= rows.take(k as int).push(rows[k as int]));
    }
    assert(rows.take(rows.len() as int) =~= rows);
}

/// The width left for descriptions in a view `width` columns wide.
pub open spec fn desc_width_of(width: nat) -> nat {
    if width > PREFIX_LEN {
        (width - PREFIX_LEN) as nat
    } else {
        0
    }
}

/// The line that closes a board: one empty span.
pub open spec fn blank_row() -> LineView {
    one_span_line(""@, raw(), false)
}

/// The rows of the items of a board in the task view; the item whose ID is
/// the selected one is highlighted.
pub open spec fn task_item_rows(items: Seq<ItemView>, selected: Option<u32>, dw: nat) -> Seq<LineView>
    decreases items.len(),
{
    if items.len() == 0 {
        Seq::<LineView>::empty()
    } else {
        let v = items.last();
        task_item_rows(items.drop_last(), selected, dw) + item_rows(
            v,
            selected == Some(v.id),
            status_icon(v),
            task_desc_style(v),
            dw,
        )
    }
}

/// A board in the task view: its header with counts, the column header, the
/// rule, its items, a blank line.
pub open spec fn task_board_rows(g: (Seq<char>, Seq<ItemView>), selected: Option<u32>, dw: nat) -> Seq<LineView> {
    task_board_head(g) + task_item_rows(g.1, selected, dw) + seq![blank_row()]
}

/// The lines above a board's items in the task view.
pub open spec fn task_board_head(g: (Seq<char>, Seq<ItemView>)) -> Seq<LineView> {
    seq![
        one_span_line(
            "  "@ + counted_header(g.0, count_of(g.1, false, true), g.1.len()),
            bold_in(Color::White),
            false,
        ),
        col_header_spec(),
        separator_spec(),
    ]
}

pub open spec fn task_boards_rows(g: Seq<(Seq<char>, Seq<ItemView>)>, selected: Option<u32>, dw: nat) -> Seq<LineView>
    decreases g.len(),
{
    if g.len() == 0 {
        Seq::<LineView>::empty()
    } else {
        task_boards_rows(g.drop_last(), selected, dw) + task_board_rows(g.last(), selected, dw)
    }
}

/// The lines of the task view: the active tasks board by board.
pub open spec fn task_view_lines(items: Seq<ItemView>, s: TuiStateView, width: nat) -> Seq<LineView> {
    task_boards_rows(
        grouping(active_of(items), Some(ItemType::Task)),
        s.selected(),
        desc_width_of(width),
    )
}

fn blank_row_line() -> (r: StyledLine)
    ensures
        r@ == blank_row(),
{
    single_span_line("".to_owned(), mk(Color::Plain, false, false, false), false)
}

fn push_task_item_rows(lines: &mut Vec<StyledLine>, items: &Vec<Item>, selected: Option<u32>, dw: usize)
    ensures
        line_views(final(lines)@) == line_views(old(lines)@) + task_item_rows(views(items@), selected, dw as nat),
{
    let ghost start = line_views(lines@);
    for i in 0..items.len()
        invariant
            line_views(lines@) == start + task_item_rows(views(items@.take(i as int)), selected, dw as nat),
    {
        let item = &items[i];
        let icon = match item.status {
            Status::Done => span_of("✔ ".to_owned(), mk(Color::Green, false, false, false)),
            Status::InProgress => span_of("● ".to_owned(), mk(Color::Cyan, false, false, false)),
            Status::Pending => span_of("● ".to_owned(), mk(Color::White, false, false, false)),
        };
        let desc_style = if item.status == Status::Done {
            mk(Color::Green, false, false, true)
        } else {
            mk(Color::White, false, false, false)
        };
        let is_sel = match selected {
            Some(id) => id == item.id,
            None => false,
        };
        let ghost before = line_views(lines@);
        push_item_rows(lines, item, is_sel, icon, desc_style, dw);
        assert(views(items@.take(i + 1)).drop_last() =~= views(items@.take(i as int)));
        assert(views(items@.take(i + 1)).last() == item@);
        assert(line_views(lines@) =~= start + task_item_rows(views(items@.take(i + 1)), selected, dw as nat));
    }
    assert(items@.take(items@.len() as int) =~= items@);
}

/// The lines of the task view, `width` columns wide.
pub fn render_lines(store: &Store, state: &TuiState, width: u16) -> (lines: Vec<StyledLine>)
    ensures
        line_views(lines@) == task_view_lines(views(store.items@), state@, width as nat),
{
    let active = active_items(store);
    let boards = group_tasks_by_board(active.as_slice());
    let ghost g = stats_groups(boards@);
    let dw: usize = if (width as usize) > PREFIX_LEN { (width as usize) - PREFIX_LEN } else { 0 };
    let selected = state.selected_id();
    let mut lines: Vec<StyledLine> = Vec::new();
    for b in 0..boards.len()
        invariant
            g == stats_groups(boards@),
            forall|i: int| 0 <= i < boards@.len() ==> {
                &&& #[trigger] boards@[i].done == count_of(views(boards@[i].items@), false, true)
                &&& boards@[i].total == boards@[i].items@.len()
            },
            dw == desc_width_of(width as nat),
            line_views(lines@) == task_boards_rows(g.take(b as int), selected, dw as nat),
    {
        let board = &boards[b];
        assert(boards@[b as int].done == count_of(views(boards@[b as int].items@), false, true));
        let ghost start = line_views(lines@);
        let ghost hv = "  "@ + counted_header(board.name@, board.done as nat, board.total as nat);
        let mut h = "  ".to_owned();
        push_str_chars(&mut h, board.name.as_str());
        push_str_chars(&mut h, " [");
        push_str_chars(&mut h, crate::text::decimal_string(board.done as u64).as_str());
        push_str_chars(&mut h, "/");
        push_str_chars(&mut h, crate::text::decimal_string(board.total as u64).as_str());
        push_str_chars(&mut h, "]");
        assert(h@ =~= hv);
        push_row(&mut lines, single_span_line(h, mk(Color::White, true, false, false), false));
        push_row(&mut lines, col_header_line());
        push_row(&mut lines, separator_line());
        push_task_item_rows(&mut lines, &board.items, selected, dw);
        push_row(&mut lines, blank_row_line());
        assert(g[b as int] == (board.name@, views(board.items@)));
        assert(line_views(lines@) =~= start + task_board_rows(g[b as int], selected, dw as nat));
        assert(g.take(b + 1).drop_last() =~= g.take(b as int));
    }
    assert(g.take(boards@.len() as int) =~= g);
    lines
}

/// The boards of the items in the order they first occur.
pub open spec fn first_seen_boards(a: Seq<ItemView>) -> Seq<Seq<char>>
    decreases a.len(),
{
    if a.len() == 0 {
        Seq::<Seq<char>>::empty()
    } else {
        let b = first_seen_boards(a.drop_last());
        if b.contains(a.last().board) {
            b
        } else {
            b.push(a.last().board)
        }
    }
}

/// The rows of archived items; the one whose ID is under the cursor is
/// highlighted.
pub open spec fn archive_item_rows(items: Seq<ItemView>, cursor_id: Option<u32>, dw: nat) -> Seq<LineView>
    decreases items.len(),
{
    if items.len() == 0 {
        Seq::<LineView>::empty()
    } else {
        let v = items.last();
        archive_item_rows(items.drop_last(), cursor_id, dw) + item_rows(
            v,
            cursor_id == Some(v.id),
            archive_icon(v),
            gray(),
            dw,
        )
    }
}

/// A board of the archive view: its name, the column header, the rule, the
/// archived items on it, a blank line.
pub open spec fn archive_board_rows(name: Seq<char>, a: Seq<ItemView>, cursor_id: Option<u32>, dw: nat) -> Seq<LineView> {
    archive_board_head(name) + archive_item_rows(a.filter(|v: ItemView| v.board == name), cursor_id, dw)
        + seq![blank_row()]
}

/// The lines above a board's items in the archive view.
pub open spec fn archive_board_head(name: Seq<char>) -> Seq<LineView> {
    seq![one_span_line("  "@ + name, bold_in(Color::White), false), col_header_spec(), separator_spec()]
}

pub open spec fn archive_boards_rows(names: Seq<Seq<char>>, a: Seq<ItemView>, cursor_id: Option<u32>, dw: nat) -> Seq<LineView>
    decreases names.len(),
{
    if names.len() == 0 {
        Seq::<LineView>::empty()
    } else {
        archive_boards_rows(names.drop_last(), a, cursor_id, dw) + archive_board_rows(
            names.last(),
            a,
            cursor_id,
            dw,
        )
    }
}

/// The lines of the archive view: the archived items by board, boards in the
/// order they first occur; a notice where the archive is empty.
pub open spec fn archive_view_lines(items: Seq<ItemView>, cursor_id: Option<u32>, width: nat) -> Seq<LineView> {
    let a = items.filter(|v: ItemView| is_archived(v));
    if a.len() == 0 {
        seq![one_span_line("  Archive is empty."@, gray(), false)]
    } else {
        archive_boards_rows(first_seen_boards(a), a, cursor_id, desc_width_of(width))
    }
}

/// The boards of the given items, in the order they first occur.
pub(crate) fn archive_board_names(archived: &Vec<&Item>) -> (boards: Vec<String>)
    ensures
        boards@.map_values(|n: String| n@) == first_seen_boards(ref_views(archived@)),
{
    let ghost a = ref_views(archived@);
    let mut boards: Vec<String> = Vec::new();
    for i in 0..archived.len()
        invariant
            a == ref_views(archived@),
            boards@.map_values(|n: String| n@) == first_seen_boards(a.take(i as int)),
    {
        let item: &Item = archived[i];
        assert(a.take(i + 1).drop_last() =~= a.take(i as int));
        assert(a.take(i + 1).last() == item@);
        if !contains_text(&boards, &item.board) {
            let ghost prev = boards@;
            boards.push(item.board.clone());
            assert(boards@.map_values(|n: String| n@) =~= prev.map_values(|n: String| n@).push(item.board@));
        }
    }
    assert(a.take(archived@.len() as int) =~= a);
    boards
}

fn contains_text(names: &Vec<String>, s: &String) -> (r: bool)
    ensures
        r == names@.map_values(|n: String| n@).contains(s@),
{
    let ghost nv = names@.map_values(|n: String| n@);
    for i in 0..names.len()
        invariant
            nv == names@.map_values(|n: String| n@),
            forall|j: int| 0 <= j < i ==> nv[j] != s@,
    {
        if crate::text::same_text(names[i].as_str(), s.as_str()) {
            assert(nv[i as int] == s@);
            return true;
        }
    }
    false
}

fn push_archive_item_rows(
    lines: &mut Vec<StyledLine>,
    archived: &Vec<&Item>,
    name: &String,
    cursor_id: Option<u32>,
    dw: usize,
)
    ensures
        line_views(final(lines)@) == line_views(old(lines)@) + archive_item_rows(
            ref_views(archived@).filter(|v: ItemView| v.board == name@),
            cursor_id,
            dw as nat,
        ),
{
    let ghost start = line_views(lines@);
    let ghost a = ref_views(archived@);
    for i in 0..archived.len()
        invariant
            a == ref_views(archived@),
            line_views(lines@) == start + archive_item_rows(
                a.take(i as int).filter(|v: ItemView| v.board == name@),
                cursor_id,
                dw as nat,
            ),
    {
        let item: &Item = archived[i];
        proof {
            assert(a.take(i + 1) =~= a.take(i as int).push(item@));
            lemma_filter_push(a.take(i as int), |v: ItemView| v.board == name@, item@);
        }
        if crate::text::same_text(item.board.as_str(), name.as_str()) {
            let icon = match item.item_type {
                ItemType::Task => if item.status == Status::Done {
                    span_of("✔ ".to_owned(), mk(Color::Green, false, false, false))
                } else {
                    span_of("● ".to_owned(), mk(Color::White, false, false, false))
                },
                ItemType::Note => span_of("◆ ".to_owned(), mk(Color::Blue, false, false, false)),
            };
            let is_sel = match cursor_id {
                Some(id) => id == item.id,
                None => false,
            };
            let ghost f = a.take(i as int).filter(|v: ItemView| v.board == name@);
            push_item_rows(lines, item, is_sel, icon, mk(Color::DarkGray, false, false, false), dw);
            assert(f.push(item@).drop_last() =~= f);
            assert(f.push(item@).last() == item@);
            assert(line_views(lines@) =~= start + archive_item_rows(f.push(item@), cursor_id, dw as nat));
        }
    }
    assert(a.take(archived@.len() as int) =~= a);
}

/// The lines of the archive view, `width` columns wide, with the item whose
/// ID is `cursor_id` highlighted.
pub fn render_archive_lines(store: &Store, cursor_id: Option<u32>, width: u16) -> (lines: Vec<StyledLine>)
    ensures
        line_views(lines@) == archive_view_lines(views(store.items@), cursor_id, width as nat),
{
    let archived = archived_items(store);
    let ghost a = ref_views(archived@);
    let mut lines: Vec<StyledLine> = Vec::new();
    if archived.len() == 0 {
        push_row(&mut lines, single_span_line("  Archive is empty.".to_owned(), mk(Color::DarkGray, false, false, false), false));
        assert(line_views(lines@) =~= seq![one_span_line("  Archive is empty."@, gray(), false)]);
        return lines;
    }
    let boards = archive_board_names(&archived);
    let ghost names = boards@.map_values(|n: String| n@);
    let dw: usize = if (width as usize) > PREFIX_LEN { (width as usize) - PREFIX_LEN } else { 0 };
    for b in 0..boards.len()
        invariant
            a == ref_views(archived@),
            names == boards@.map_values(|n: String| n@),
            dw == desc_width_of(width as nat),
            line_views(lines@) == archive_boards_rows(names.take(b as int), a, cursor_id, dw as nat),
    {
        let name = &boards[b];
        let ghost start = line_views(lines@);
        let mut h = "  ".to_owned();
        push_str_chars(&mut h, name.as_str());
        push_row(&mut lines, single_span_line(h, mk(Color::White, true, false, false), false));
        push_row(&mut lines, col_header_line());
        push_row(&mut lines, separator_line());
        push_archive_item_rows(&mut lines, &archived, name, cursor_id, dw);
        push_row(&mut lines, blank_row_line());
        assert(names[b as int] == name@);
        assert(line_views(lines@) =~= start + archive_board_rows(name@, a, cursor_id, dw as nat));
        assert(names.take(b + 1).drop_last() =~= names.take(b as int));
    }
    assert(names.take(boards@.len() as int) =~= names);
    lines
}

/// Key hints: `  `, then each key and its meaning, all in dark gray.
pub open spec fn hint_spans(pairs: Seq<(Seq<char>, Seq<char>)>) -> Seq<SpanView>
    decreases pairs.len(),
{
    if pairs.len() == 0 {
        seq![txt("  "@, raw())]
    } else {
        hint_spans(pairs.drop_last()) + seq![txt(pairs.last().0, gray()), txt(pairs.last().1, gray())]
    }
}

pub open spec fn pair_views(pairs: Seq<(&str, &str)>) -> Seq<(Seq<char>, Seq<char>)> {
    pairs.map_values(|p: (&str, &str)| (p.0@, p.1@))
}

/// A line of key hints.
pub fn hint_line(pairs: &[(&str, &str)]) -> (r: StyledLine)
    ensures
        r@ == (LineView { spans: hint_spans(pair_views(pairs@)), highlighted: false }),
{
    let mut spans: Vec<StyledSpan> = Vec::new();
    spans.push(span_of("  ".to_owned(), mk(Color::Plain, false, false, false)));
    let ghost pv = pair_views(pairs@);
    for i in 0..pairs.len()
        invariant
            pv == pair_views(pairs@),
            spans@.map_values(|s: StyledSpan| s@) == hint_spans(pv.take(i as int)),
    {
        let (key, label) = pairs[i];
        let ghost prev = spans@.map_values(|s: StyledSpan| s@);
        spans.push(span_of(key.to_owned(), mk(Color::DarkGray, false, false, false)));
        spans.push(span_of(label.to_owned(), mk(Color::DarkGray, false, false, false)));
        assert(pv.take(i + 1).drop_last() =~= pv.take(i as int));
        assert(pv.take(i + 1).last() == (key@, label@));
        assert(spans@.map_values(|s: StyledSpan| s@) =~= prev + seq![txt(key@, gray()), txt(label@, gray())]);
    }
    assert(pv.take(pairs@.len() as int) =~= pv);
    StyledLine { spans, highlighted: false }
}

/// The rule over the footer.
pub open spec fn footer_rule() -> LineView {
    one_span_line("  ─────────────────────────────────────────────────────────"@, gray(), false)
}

/// The key hints of the task view in normal mode.
pub open spec fn normal_hints() -> Seq<(Seq<char>, Seq<char>)> {
    seq![
        ("[↑↓]"@, " move  "@),
        ("[Enter]"@, " done/undone  "@),
        ("[e]"@, " edit  "@),
        ("[p]"@, " priority  "@),
        ("[d]"@, " delete  "@),
        ("[q]"@, " quit"@),
    ]
}

/// The key hints of the archive view.
pub open spec fn archive_hints() -> Seq<(Seq<char>, Seq<char>)> {
    seq![("[↑↓]"@, " move  "@), ("[r]"@, " restore  "@), ("[x]"@, " delete permanently  "@), ("[q]"@, " quit"@)]
}

/// The choices shown while picking a priority.
pub open spec fn priority_choice_spans() -> Seq<SpanView> {
    seq![
        txt("  Priority: "@, gray()),
        txt("[n]"@, bold_in(Color::White)),
        txt(" NONE  "@, gray()),
        txt("[l]"@, bold_in(Color::Cyan)),
        txt(" LOW  "@, gray()),
        txt("[m]"@, bold_in(Color::Yellow)),
        txt(" MEDIUM  "@, gray()),
        txt("[h]"@, bold_in(Color::Red)),
        txt(" HIGH  "@, gray()),
        txt("[Esc]"@, gray()),
        txt(" cancel"@, gray()),
    ]
}

/// The footer of the task view: the rule, and the hints for the mode.
pub open spec fn footer_spec(mode: InputMode) -> (LineView, LineView) {
    (
        footer_rule(),
        match mode {
            InputMode::Normal => LineView { spans: hint_spans(normal_hints()), highlighted: false },
            InputMode::PrioritySelect => LineView { spans: priority_choice_spans(), highlighted: false },
        },
    )
}

fn footer_rule_line() -> (r: StyledLine)
    ensures
        r@ == footer_rule(),
{
    single_span_line("  ─────────────────────────────────────────────────────────".to_owned(), mk(Color::DarkGray, false, false, false), false)
}

/// The footer of the task view.
pub fn render_footer(state: &TuiState) -> (r: (StyledLine, StyledLine))
    ensures
        (r.0@, r.1@) == footer_spec(state.mode),
{
    let sep = footer_rule_line();
    let hints = match state.mode {
        InputMode::Normal => {
            let pairs = vec![
                ("[↑↓]", " move  "),
                ("[Enter]", " done/undone  "),
                ("[e]", " edit  "),
                ("[p]", " priority  "),
                ("[d]", " delete  "),
                ("[q]", " quit"),
            ];
            assert(pair_views(pairs@) =~= normal_hints());
            hint_line(pairs.as_slice())
        },
        InputMode::PrioritySelect => {
            let mut spans: Vec<StyledSpan> = Vec::new();
            let dg = mk(Color::DarkGray, false, false, false);
            spans.push(span_of("  Priority: ".to_owned(), dg));
            spans.push(span_of("[n]".to_owned(), mk(Color::White, true, false, false)));
            spans.push(span_of(" NONE  ".to_owned(), dg));
            spans.push(span_of("[l]".to_owned(), mk(Color::Cyan, true, false, false)));
            spans.push(span_of(" LOW  ".to_owned(), dg));
            spans.push(span_of("[m]".to_owned(), mk(Color::Yellow, true, false, false)));
            spans.push(span_of(" MEDIUM  ".to_owned(), dg));
            spans.push(span_of("[h]".to_owned(), mk(Color::Red, true, false, false)));
            spans.push(span_of(" HIGH  ".to_owned(), dg));
            spans.push(span_of("[Esc]".to_owned(), dg));
            spans.push(span_of(" cancel".to_owned(), dg));
            let l = StyledLine { spans, highlighted: false };
            assert(l@.spans =~= priority_choice_spans());
            l
        },
    };
    (sep, hints)
}

/// The footer of the archive view: the rule and the archive's key hints.
pub fn archive_footer() -> (r: (StyledLine, StyledLine))
    ensures
        r.0@ == footer_rule(),
        r.1@ == (LineView { spans: hint_spans(archive_hints()), highlighted: false }),
{
    let sep = footer_rule_line();
    let pairs = vec![("[↑↓]", " move  "), ("[r]", " restore  "), ("[x]", " delete permanently  "), ("[q]", " quit")];
    assert(pair_views(pairs@) =~= archive_hints());
    (sep, hint_line(pairs.as_slice()))
}

// ---------------------------------------------------------------------------
// Which item each row shows
// ---------------------------------------------------------------------------

/// Lines paired with the ID of the item whose first row they are (`None`
/// for headers, rules, blank lines and continuation rows).
pub open spec fn untagged(rows: Seq<LineView>) -> Seq<(LineView, Option<u32>)> {
    rows.map_values(|l: LineView| (l, None::<u32>))
}

/// An item's rows, the first tagged with its ID.
pub open spec fn tagged_item(rows: Seq<LineView>, id: u32) -> Seq<(LineView, Option<u32>)> {
    seq![(rows[0], Some(id))] + untagged(rows.skip(1))
}

/// The lines of a tagged layout.
pub open spec fn lines_of(t: Seq<(LineView, Option<u32>)>) -> Seq<LineView> {
    t.map_values(|p: (LineView, Option<u32>)| p.0)
}

/// The IDs of the items whose first rows the layout holds, top to bottom.
pub open spec fn row_ids(t: Seq<(LineView, Option<u32>)>) -> Seq<u32>
    decreases t.len(),
{
    if t.len() == 0 {
        Seq::<u32>::empty()
    } else {
        match t.last().1 {
            Some(id) => row_ids(t.drop_last()).push(id),
            None => row_ids(t.drop_last()),
        }
    }
}

/// Every item's first row is highlighted and marked `▶ ` exactly where the
/// item is the selected one.
pub open spec fn marks_selection(t: Seq<(LineView, Option<u32>)>, selected: Option<u32>) -> bool {
    forall|i: int|
        0 <= i < t.len() && (#[trigger] t[i]).1 is Some ==> {
            &&& t[i].0.highlighted == (selected == t[i].1)
            &&& t[i].0.spans.len() > 0
            &&& t[i].0.spans[0] == txt(if selected == t[i].1 { "▶ "@ } else { "  "@ }, raw())
        }
}

proof fn lemma_lines_of_add(a: Seq<(LineView, Option<u32>)>, b: Seq<(LineView, Option<u32>)>)
    ensures
        lines_of(a + b) == lines_of(a) + lines_of(b),
{
    assert(lines_of(a + b) =~= lines_of(a) + lines_of(b));
}

proof fn lemma_row_ids_add(a: Seq<(LineView, Option<u32>)>, b: Seq<(LineView, Option<u32>)>)
    ensures
        row_ids(a + b) == row_ids(a) + row_ids(b),
    decreases b.len(),
{
    if b.len() == 0 {
        assert(a + b =~= a);
        assert(row_ids(a) + row_ids(b) =~= row_ids(a));
    } else {
        lemma_row_ids_add(a, b.drop_last());
        assert((a + b).drop_last() =~= a + b.drop_last());
        assert((a + b).last() == b.last());
        match b.last().1 {
            Some(id) => {
                assert(row_ids(a) + row_ids(b.drop_last()).push(id) =~= (row_ids(a) + row_ids(
                    b.drop_last(),
                )).push(id));
            },
            None => {},
        }
    }
}

proof fn lemma_marks_add(a: Seq<(LineView, Option<u32>)>, b: Seq<(LineView, Option<u32>)>, sel: Option<u32>)
    requires
        marks_selection(a, sel),
        marks_selection(b, sel),
    ensures
        marks_selection(a + b, sel),
{
    assert forall|i: int| 0 <= i < (a + b).len() && (#[trigger] (a + b)[i]).1 is Some implies {
        &&& (a + b)[i].0.highlighted == (sel == (a + b)[i].1)
        &&& (a + b)[i].0.spans.len() > 0
        &&& (a + b)[i].0.spans[0] == txt(if sel == (a + b)[i].1 { "▶ "@ } else { "  "@ }, raw())
    } by {
        if i < a.len() {
            assert((a + b)[i] == a[i]);
        } else {
            assert((a + b)[i] == b[i - a.len()]);
        }
    }
}

proof fn lemma_untagged(rows: Seq<LineView>, sel: Option<u32>)
    ensures
        lines_of(untagged(rows)) == rows,
        row_ids(untagged(rows)) == Seq::<u32>::empty(),
        marks_selection(untagged(rows), sel),
    decreases rows.len(),
{
    assert(lines_of(untagged(rows)) =~= rows);
    if rows.len() > 0 {
        lemma_untagged(rows.drop_last(), sel);
        assert(untagged(rows).drop_last() =~= untagged(rows.drop_last()));
    }
}

proof fn lemma_tagged_item(rows: Seq<LineView>, v: ItemView, sel: Option<u32>, icon: SpanView, st: Style, dw: nat)
    requires
        rows == item_rows(v, sel == Some(v.id), icon, st, dw),
    ensures
        lines_of(tagged_item(rows, v.id)) == rows,
        row_ids(tagged_item(rows, v.id)) == seq![v.id],
        marks_selection(tagged_item(rows, v.id), sel),
{
    let head = seq![(rows[0], Some(v.id))];
    let tail = untagged(rows.skip(1));
    lemma_untagged(rows.skip(1), sel);
    lemma_lines_of_add(head, tail);
    lemma_row_ids_add(head, tail);
    assert(lines_of(head) =~= seq![rows[0]]);
    assert(seq![rows[0]] + rows.skip(1) =~= rows);
    assert(head.drop_last() =~= Seq::<(LineView, Option<u32>)>::empty());
    assert(head.last().1 == Some(v.id));
    assert(row_ids(head.drop_last()) == Seq::<u32>::empty());
    assert(Seq::<u32>::empty().push(v.id) =~= seq![v.id]);
    assert(row_ids(head) == seq![v.id]);
    assert(seq![v.id] + Seq::<u32>::empty() =~= seq![v.id]);
    assert(marks_selection(head, sel));
    lemma_marks_add(head, tail, sel);
}

/// The task view's item rows, each item's first row tagged with its ID.
pub open spec fn task_item_rows_tagged(items: Seq<ItemView>, selected: Option<u32>, dw: nat) -> Seq<(LineView, Option<u32>)>
    decreases items.len(),
{
    if items.len() == 0 {
        Seq::<(LineView, Option<u32>)>::empty()
    } else {
        let v = items.last();
        task_item_rows_tagged(items.drop_last(), selected, dw) + tagged_item(
            item_rows(v, selected == Some(v.id), status_icon(v), task_desc_style(v), dw),
            v.id,
        )
    }
}

pub open spec fn task_boards_rows_tagged(g: Seq<(Seq<char>, Seq<ItemView>)>, selected: Option<u32>, dw: nat) -> Seq<(LineView, Option<u32>)>
    decreases g.len(),
{
    if g.len() == 0 {
        Seq::<(LineView, Option<u32>)>::empty()
    } else {
        task_boards_rows_tagged(g.drop_last(), selected, dw) + untagged(task_board_head(g.last()))
            + task_item_rows_tagged(g.last().1, selected, dw) + untagged(seq![blank_row()])
    }
}

/// The task view with each item's first row tagged with its ID.
pub open spec fn task_view_tagged(items: Seq<ItemView>, s: TuiStateView, width: nat) -> Seq<(LineView, Option<u32>)> {
    task_boards_rows_tagged(
        grouping(active_of(items), Some(ItemType::Task)),
        s.selected(),
        desc_width_of(width),
    )
}

proof fn lemma_task_item_rows_tagged(items: Seq<ItemView>, sel: Option<u32>, dw: nat)
    ensures
        lines_of(task_item_rows_tagged(items, sel, dw)) == task_item_rows(items, sel, dw),
        row_ids(task_item_rows_tagged(items, sel, dw)) == items.map_values(|v: ItemView| v.id),
        marks_selection(task_item_rows_tagged(items, sel, dw), sel),
    decreases items.len(),
{
    if items.len() == 0 {
        assert(lines_of(task_item_rows_tagged(items, sel, dw)) =~= task_item_rows(items, sel, dw));
        assert(items.map_values(|v: ItemView| v.id) =~= Seq::<u32>::empty());
    } else {
        let v = items.last();
        let prev = task_item_rows_tagged(items.drop_last(), sel, dw);
        let rows = item_rows(v, sel == Some(v.id), status_icon(v), task_desc_style(v), dw);
        lemma_task_item_rows_tagged(items.drop_last(), sel, dw);
        lemma_tagged_item(rows, v, sel, status_icon(v), task_desc_style(v), dw);
        lemma_lines_of_add(prev, tagged_item(rows, v.id));
        lemma_row_ids_add(prev, tagged_item(rows, v.id));
        lemma_marks_add(prev, tagged_item(rows, v.id), sel);
        assert(items.map_values(|v: ItemView| v.id) =~= items.drop_last().map_values(|v: ItemView| v.id)
            + seq![v.id]);
    }
}

proof fn lemma_task_boards_rows_tagged(g: Seq<(Seq<char>, Seq<ItemView>)>, sel: Option<u32>, dw: nat)
    ensures
        lines_of(task_boards_rows_tagged(g, sel, dw)) == task_boards_rows(g, sel, dw),
        row_ids(task_boards_rows_tagged(g, sel, dw)) == crate::tui::group_ids(g),
        marks_selection(task_boards_rows_tagged(g, sel, dw), sel),
    decreases g.len(),
{
    if g.len() == 0 {
        assert(lines_of(task_boards_rows_tagged(g, sel, dw)) =~= task_boards_rows(g, sel, dw));
    } else {
        let a = task_boards_rows_tagged(g.drop_last(), sel, dw);
        let h = untagged(task_board_head(g.last()));
        let m = task_item_rows_tagged(g.last().1, sel, dw);
        let z = untagged(seq![blank_row()]);
        lemma_task_boards_rows_tagged(g.drop_last(), sel, dw);
        lemma_untagged(task_board_head(g.last()), sel);
        lemma_untagged(seq![blank_row()], sel);
        lemma_task_item_rows_tagged(g.last().1, sel, dw);
        lemma_lines_of_add(a, h);
        lemma_lines_of_add(a + h, m);
        lemma_lines_of_add(a + h + m, z);
        lemma_row_ids_add(a, h);
        lemma_row_ids_add(a + h, m);
        lemma_row_ids_add(a + h + m, z);
        lemma_marks_add(a, h, sel);
        lemma_marks_add(a + h, m, sel);
        lemma_marks_add(a + h + m, z, sel);
        assert(lines_of(a + h + m + z) =~= task_boards_rows(g.drop_last(), sel, dw) + task_board_rows(
            g.last(),
            sel,
            dw,
        ));
        assert(row_ids(a + h + m + z) =~= crate::tui::group_ids(g.drop_last()) + g.last().1.map_values(
            |v: ItemView| v.id,
        ));
    }
}

/// In the task view the items' first rows show the selectable IDs in
/// selection order, top to bottom, and the row marked `▶ ` (and highlighted)
/// is the selected item's.
pub proof fn task_view_rows_follow_selection(items: Seq<ItemView>, s: TuiStateView, width: nat)
    requires
        s.selectable == crate::tui::selectable_tasks(items),
    ensures
        lines_of(task_view_tagged(items, s, width)) == task_view_lines(items, s, width),
        row_ids(task_view_tagged(items, s, width)) == s.selectable,
        marks_selection(task_view_tagged(items, s, width), s.selected()),
{
    assert(crate::tui::selectable_tasks(items) == crate::tui::group_ids(
        grouping(active_of(items), Some(ItemType::Task)),
    ));
    lemma_task_boards_rows_tagged(
        grouping(active_of(items), Some(ItemType::Task)),
        s.selected(),
        desc_width_of(width),
    );
}

/// The archive view's item rows, each item's first row tagged with its ID.
pub open spec fn archive_item_rows_tagged(items: Seq<ItemView>, cursor_id: Option<u32>, dw: nat) -> Seq<(LineView, Option<u32>)>
    decreases items.len(),
{
    if items.len() == 0 {
        Seq::<(LineView, Option<u32>)>::empty()
    } else {
        let v = items.last();
        archive_item_rows_tagged(items.drop_last(), cursor_id, dw) + tagged_item(
            item_rows(v, cursor_id == Some(v.id), archive_icon(v), gray(), dw),
            v.id,
        )
    }
}

pub open spec fn archive_boards_rows_tagged(names: Seq<Seq<char>>, a: Seq<ItemView>, cursor_id: Option<u32>, dw: nat) -> Seq<(LineView, Option<u32>)>
    decreases names.len(),
{
    if names.len() == 0 {
        Seq::<(LineView, Option<u32>)>::empty()
    } else {
        archive_boards_rows_tagged(names.drop_last(), a, cursor_id, dw) + untagged(
            archive_board_head(names.last()),
        ) + archive_item_rows_tagged(a.filter(|v: ItemView| v.board == names.last()), cursor_id, dw)
            + untagged(seq![blank_row()])
    }
}

/// The archive view with each item's first row tagged with its ID.
pub open spec fn archive_view_tagged(items: Seq<ItemView>, cursor_id: Option<u32>, width: nat) -> Seq<(LineView, Option<u32>)> {
    let a = items.filter(|v: ItemView| is_archived(v));
    if a.len() == 0 {
        untagged(seq![one_span_line("  Archive is empty."@, gray(), false)])
    } else {
        archive_boards_rows_tagged(first_seen_boards(a), a, cursor_id, desc_width_of(width))
    }
}

proof fn lemma_archive_item_rows_tagged(items: Seq<ItemView>, sel: Option<u32>, dw: nat)
    ensures
        lines_of(archive_item_rows_tagged(items, sel, dw)) == archive_item_rows(items, sel, dw),
        row_ids(archive_item_rows_tagged(items, sel, dw)) == items.map_values(|v: ItemView| v.id),
        marks_selection(archive_item_rows_tagged(items, sel, dw), sel),
    decreases items.len(),
{
    if items.len() == 0 {
        assert(lines_of(archive_item_rows_tagged(items, sel, dw)) =~= archive_item_rows(items, sel, dw));
        assert(items.map_values(|v: ItemView| v.id) =~= Seq::<u32>::empty());
    } else {
        let v = items.last();
        let prev = archive_item_rows_tagged(items.drop_last(), sel, dw);
        let rows = item_rows(v, sel == Some(v.id), archive_icon(v), gray(), dw);
        lemma_archive_item_rows_tagged(items.drop_last(), sel, dw);
        lemma_tagged_item(rows, v, sel, archive_icon(v), gray(), dw);
        lemma_lines_of_add(prev, tagged_item(rows, v.id));
        lemma_row_ids_add(prev, tagged_item(rows, v.id));
        lemma_marks_add(prev, tagged_item(rows, v.id), sel);
        assert(items.map_values(|v: ItemView| v.id) =~= items.drop_last().map_values(|v: ItemView| v.id)
            + seq![v.id]);
    }
}

proof fn lemma_archive_boards_rows_tagged(names: Seq<Seq<char>>, a: Seq<ItemView>, sel: Option<u32>, dw: nat)
    ensures
        lines_of(archive_boards_rows_tagged(names, a, sel, dw)) == archive_boards_rows(names, a, sel, dw),
        row_ids(archive_boards_rows_tagged(names, a, sel, dw)) == crate::tui::archive_ids(names, a),
        marks_selection(archive_boards_rows_tagged(names, a, sel, dw), sel),
    decreases names.len(),
{
    if names.len() == 0 {
        assert(lines_of(archive_boards_rows_tagged(names, a, sel, dw)) =~= archive_boards_rows(
            names,
            a,
            sel,
            dw,
        ));
    } else {
        let f = a.filter(|v: ItemView| v.board == names.last());
        let p = archive_boards_rows_tagged(names.drop_last(), a, sel, dw);
        let h = untagged(archive_board_head(names.last()));
        let m = archive_item_rows_tagged(f, sel, dw);
        let z = untagged(seq![blank_row()]);
        lemma_archive_boards_rows_tagged(names.drop_last(), a, sel, dw);
        lemma_untagged(archive_board_head(names.last()), sel);
        lemma_untagged(seq![blank_row()], sel);
        lemma_archive_item_rows_tagged(f, sel, dw);
        lemma_lines_of_add(p, h);
        lemma_lines_of_add(p + h, m);
        lemma_lines_of_add(p + h + m, z);
        lemma_row_ids_add(p, h);
        lemma_row_ids_add(p + h, m);
        lemma_row_ids_add(p + h + m, z);
        lemma_marks_add(p, h, sel);
        lemma_marks_add(p + h, m, sel);
        lemma_marks_add(p + h + m, z, sel);
        assert(lines_of(p + h + m + z) =~= archive_boards_rows(names.drop_last(), a, sel, dw)
            + archive_board_rows(names.last(), a, sel, dw));
        assert(row_ids(p + h + m + z) =~= crate::tui::archive_ids(names.drop_last(), a) + f.map_values(
            |v: ItemView| v.id,
        ));
    }
}

/// In the archive view the items' first rows show the selectable IDs in
/// selection order, top to bottom, and the row marked `▶ ` (and highlighted)
/// is the selected item's: moving the cursor down selects the item shown
/// below.
pub proof fn archive_view_rows_follow_selection(items: Seq<ItemView>, s: TuiStateView, width: nat)
    requires
        s.selectable == crate::tui::selectable_archived(items),
    ensures
        lines_of(archive_view_tagged(items, s.selected(), width)) == archive_view_lines(
            items,
            s.selected(),
            width,
        ),
        row_ids(archive_view_tagged(items, s.selected(), width)) == s.selectable,
        marks_selection(archive_view_tagged(items, s.selected(), width), s.selected()),
{
    let a = items.filter(|v: ItemView| is_archived(v));
    if a.len() == 0 {
        lemma_untagged(seq![one_span_line("  Archive is empty."@, gray(), false)], s.selected());
        assert(a =~= Seq::<ItemView>::empty());
        assert(first_seen_boards(a) =~= Seq::<Seq<char>>::empty());
    } else {
        lemma_archive_boards_rows_tagged(first_seen_boards(a), a, s.selected(), desc_width_of(width));
    }
}

} // verus!
