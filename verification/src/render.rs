//! Layout of what the views show: wrapping of descriptions, and the lines of
//! the command-line reports and the interactive views as styled text, which
//! the terminal program paints.
use vstd::prelude::*;

use crate::board::{count_of, group_all_by_board, group_notes_by_board, group_tasks_by_board, group_views, grouping, stats_groups};
use crate::item::{Item, ItemType, ItemView, Priority, Status, Timestamp, lowercase_of, to_lowercase};
use crate::store::{Store, active_items, is_active, lemma_filter_push, ref_views, views};
use crate::text::{chars_of, decimal, decimal_chars, pad_left, pad_left_chars, push_str_chars, spaces, space_chars, string_of, trim_end, trim_end_index, trim_start, trim_start_index};

verus! {

/// Index of the last space among the first `w` characters, or -1.
pub open spec fn last_space_before(r: Seq<char>, w: nat) -> int
    decreases w,
{
    if w == 0 {
        -1
    } else if r[w - 1] == ' ' {
        w - 1
    } else {
        last_space_before(r, (w - 1) as nat)
    }
}

/// Where a too-long line is broken: after the last space within the width,
/// or at the width where there is no such space (or it is the first
/// character).
pub open spec fn break_point(r: Seq<char>, w: nat) -> nat {
    let b = last_space_before(r, w);
    if b <= 0 {
        w
    } else {
        b as nat
    }
}

pub proof fn lemma_trim_start_len(s: Seq<char>)
    ensures
        trim_start(s).len() <= s.len(),
    decreases s.len(),
{
    if s.len() > 0 && crate::text::is_white_space(s[0]) {
        lemma_trim_start_len(s.drop_first());
    }
}

pub proof fn lemma_last_space_before(r: Seq<char>, w: nat)
    ensures
        -1 <= last_space_before(r, w) < w,
    decreases w,
{
    if w > 0 {
        lemma_last_space_before(r, (w - 1) as nat);
    }
}

/// The chunks of `r` (longer than nothing) wrapped at width `w`: each chunk
/// is the text up to the break point with trailing white space cut, the rest
/// continuing without its leading white space.
pub open spec fn wrap_rest(r: Seq<char>, w: nat) -> Seq<Seq<char>>
    decreases r.len(),
{
    if w == 0 || r.len() <= w {
        if r.len() == 0 {
            Seq::<Seq<char>>::empty()
        } else {
            seq![r]
        }
    } else {
        let b = break_point(r, w);
        proof {
            lemma_last_space_before(r, w);
            lemma_trim_start_len(r.skip(b as int));
        }
        seq![trim_end(r.take(b as int))] + wrap_rest(trim_start(r.skip(b as int)), w)
    }
}

/// A description wrapped to `width` characters per line. Text that fits, or
/// a width of 0, gives the text as the one line.
pub open spec fn wrap_spec(text: Seq<char>, width: nat) -> Seq<Seq<char>> {
    if width == 0 || text.len() <= width {
        seq![text]
    } else {
        wrap_rest(text, width)
    }
}

/// The texts of a vector of strings.
pub open spec fn texts(v: Seq<String>) -> Seq<Seq<char>> {
    v.map_values(|s: String| s@)
}

fn copy_range(s: &[char], from: usize, to: usize) -> (r: Vec<char>)
    requires
        from <= to <= s@.len(),
    ensures
        r@ == s@.subrange(from as int, to as int),
{
    let mut r: Vec<char> = Vec::new();
    for i in from..to
        invariant
            from <= to <= s@.len(),
            r@ == s@.subrange(from as int, i as int),
    {
        r.push(s[i]);
        assert(s@.subrange(from as int, i + 1) =~= s@.subrange(from as int, i as int).push(
            s@[i as int],
        ));
    }
    r
}

fn break_index(r: &[char], w: usize) -> (b: usize)
    requires
        w < r@.len(),
        w > 0,
    ensures
        b == break_point(r@, w as nat),
        1 <= b <= w,
{
    proof {
        lemma_last_space_before(r@, w as nat);
    }
    let mut k: usize = w;
    while k > 0 && r[k - 1] != ' '
        invariant
            k <= w < r@.len(),
            last_space_before(r@, w as nat) == last_space_before(r@, k as nat),
        decreases k,
    {
        k = k - 1;
    }
    if k == 0 {
        w
    } else {
        let b = k - 1;
        if b == 0 {
            w
        } else {
            b
        }
    }
}

/// Wraps a description into lines of at most `width` characters, breaking at
/// the last space that fits.
pub fn wrap_text(text: &str, width: usize) -> (lines: Vec<String>)
    ensures
        texts(lines@) == wrap_spec(text@, width as nat),
{
    let all = chars_of(text);
    if width == 0 || all.len() <= width {
        let mut v: Vec<String> = Vec::new();
        v.push(string_of(all.as_slice()));
        assert(texts(v@) =~= seq![text@]);
        return v;
    }
    let mut result: Vec<String> = Vec::new();
    let mut rem = all;
    assert(texts(result@) + wrap_rest(rem@, width as nat) =~= wrap_rest(text@, width as nat));
    while rem.len() > width
        invariant
            width > 0,
            texts(result@) + wrap_rest(rem@, width as nat) == wrap_rest(text@, width as nat),
        decreases rem@.len(),
    {
        let b = break_index(rem.as_slice(), width);
        let head = copy_range(rem.as_slice(), 0, b);
        let he = trim_end_index(head.as_slice());
        let head_text = copy_range(head.as_slice(), 0, he);
        let tail = copy_range(rem.as_slice(), b, rem.len());
        let ts = trim_start_index(tail.as_slice());
        let next = copy_range(tail.as_slice(), ts, tail.len());
        proof {
            assert(head@ =~= rem@.take(b as int));
            assert(tail@ =~= rem@.skip(b as int));
            assert(head_text@ == trim_end(rem@.take(b as int)));
            assert(next@ == trim_start(rem@.skip(b as int)));
            assert(wrap_rest(rem@, width as nat) == seq![head_text@] + wrap_rest(next@, width as nat));
            lemma_trim_start_len(rem@.skip(b as int));
        }
        let ghost prev = result@;
        result.push(string_of(head_text.as_slice()));
        assert(texts(result@) =~= texts(prev).push(head_text@));
        assert(texts(result@) + wrap_rest(next@, width as nat) =~= texts(prev) + (seq![head_text@]
            + wrap_rest(next@, width as nat)));
        rem = next;
    }
    if rem.len() > 0 {
        let ghost prev = result@;
        result.push(string_of(rem.as_slice()));
        assert(texts(result@) =~= texts(prev) + seq![rem@]);
    } else {
        assert(texts(result@) =~= texts(result@) + Seq::<Seq<char>>::empty());
    }
    result
}

proof fn lemma_trim_end_len(s: Seq<char>)
    ensures
        trim_end(s).len() <= s.len(),
    decreases s.len(),
{
    if s.len() > 0 && crate::text::is_white_space(s.last()) {
        lemma_trim_end_len(s.drop_last());
    }
}

proof fn lemma_wrap_rest_fits(r: Seq<char>, w: nat)
    requires
        w > 0,
    ensures
        forall|i: int| 0 <= i < wrap_rest(r, w).len() ==> (#[trigger] wrap_rest(r, w)[i]).len() <= w,
        r.len() > 0 ==> wrap_rest(r, w).len() >= 1,
    decreases r.len(),
{
    if r.len() > w {
        let b = break_point(r, w);
        lemma_last_space_before(r, w);
        lemma_trim_start_len(r.skip(b as int));
        lemma_trim_end_len(r.take(b as int));
        lemma_wrap_rest_fits(trim_start(r.skip(b as int)), w);
        let rest = wrap_rest(trim_start(r.skip(b as int)), w);
        assert forall|i: int| 0 <= i < wrap_rest(r, w).len() implies (#[trigger] wrap_rest(
            r,
            w,
        )[i]).len() <= w by {
            if i > 0 {
                assert(wrap_rest(r, w)[i] == rest[i - 1]);
            }
        }
    }
}

/// Wrapping to a positive width gives at least one line, and no line is
/// longer than the width.
pub proof fn wrapped_lines_fit(text: Seq<char>, width: nat)
    requires
        width > 0,
    ensures
        wrap_spec(text, width).len() >= 1,
        forall|i: int|
            0 <= i < wrap_spec(text, width).len() ==> (#[trigger] wrap_spec(text, width)[i]).len()
                <= width,
{
    lemma_wrap_rest_fits(text, width);
}

/// Wrapping always gives at least one line.
pub proof fn wrapped_lines_nonempty(text: Seq<char>, width: nat)
    ensures
        wrap_spec(text, width).len() >= 1,
{
    if width > 0 {
        lemma_wrap_rest_fits(text, width);
    }
}

// ---------------------------------------------------------------------------
// Styled text
// ---------------------------------------------------------------------------

/// Foreground colour of a piece of text.
#[derive(Clone, Copy, Debug, PartialEq, Eq, Structural)]
pub enum Color {
    Plain,
    White,
    DarkGray,
    Green,
    Cyan,
    Yellow,
    Red,
    Blue,
}

/// How a piece of text is painted.
#[derive(Clone, Copy, Debug, PartialEq, Eq, Structural)]
pub struct Style {
    pub color: Color,
    pub bold: bool,
    pub dimmed: bool,
    pub crossed_out: bool,
}

/// What a piece of text shows: text, or a date that the terminal program
/// writes in the user's time zone (`YYYY-MM-DD`), or the pair
/// `created/done` of such dates padded to 23 columns, the done date empty
/// where there is none.
pub enum Content {
    Text(String),
    Date(Timestamp),
    DateRange(Timestamp, Option<Timestamp>),
}

pub enum ContentView {
    Text(Seq<char>),
    Date(Timestamp),
    DateRange(Timestamp, Option<Timestamp>),
}

/// A piece of text and its style.
pub struct StyledSpan {
    pub content: Content,
    pub style: Style,
}

pub struct SpanView {
    pub content: ContentView,
    pub style: Style,
}

/// One line of output; a highlighted line is the one under the cursor.
pub struct StyledLine {
    pub spans: Vec<StyledSpan>,
    pub highlighted: bool,
}

pub struct LineView {
    pub spans: Seq<SpanView>,
    pub highlighted: bool,
}

impl View for Content {
    type V = ContentView;

    open spec fn view(&self) -> ContentView {
        match self {
            Content::Text(s) => ContentView::Text(s@),
            Content::Date(t) => ContentView::Date(*t),
            Content::DateRange(a, b) => ContentView::DateRange(*a, *b),
        }
    }
}

impl View for StyledSpan {
    type V = SpanView;

    open spec fn view(&self) -> SpanView {
        SpanView { content: self.content@, style: self.style }
    }
}

impl View for StyledLine {
    type V = LineView;

    open spec fn view(&self) -> LineView {
        LineView { spans: self.spans@.map_values(|s: StyledSpan| s@), highlighted: self.highlighted }
    }
}

pub open spec fn line_views(lines: Seq<StyledLine>) -> Seq<LineView> {
    lines.map_values(|l: StyledLine| l@)
}

pub open spec fn style(color: Color, bold: bool, dimmed: bool, crossed_out: bool) -> Style {
    Style { color, bold, dimmed, crossed_out }
}

pub open spec fn plain() -> Style {
    style(Color::Plain, false, false, false)
}

pub open spec fn dimmed() -> Style {
    style(Color::Plain, false, true, false)
}

pub open spec fn heading() -> Style {
    style(Color::White, true, false, false)
}

pub open spec fn txt(s: Seq<char>, st: Style) -> SpanView {
    SpanView { content: ContentView::Text(s), style: st }
}

pub open spec fn line_of(spans: Seq<SpanView>) -> LineView {
    LineView { spans, highlighted: false }
}

pub open spec fn empty_line() -> LineView {
    line_of(Seq::<SpanView>::empty())
}

/// `  ` followed by the text in the style: how the reports set off their
/// headers and footers.
pub open spec fn indented(s: Seq<char>, st: Style) -> LineView {
    line_of(seq![txt("  "@, plain()), txt(s, st)])
}

fn mk_style(color: Color, bold: bool, dimmed: bool, crossed_out: bool) -> (r: Style)
    ensures
        r == style(color, bold, dimmed, crossed_out),
{
    Style { color, bold, dimmed, crossed_out }
}

fn text_span(s: &str, st: Style) -> (r: StyledSpan)
    ensures
        r@ == txt(s@, st),
{
    StyledSpan { content: Content::Text(s.to_owned()), style: st }
}

fn string_span(s: String, st: Style) -> (r: StyledSpan)
    ensures
        r@ == txt(s@, st),
{
    StyledSpan { content: Content::Text(s), style: st }
}

fn chars_span(s: &[char], st: Style) -> (r: StyledSpan)
    ensures
        r@ == txt(s@, st),
{
    StyledSpan { content: Content::Text(string_of(s)), style: st }
}

fn line_from(spans: Vec<StyledSpan>) -> (r: StyledLine)
    ensures
        r@ == line_of(spans@.map_values(|s: StyledSpan| s@)),
{
    StyledLine { spans, highlighted: false }
}

fn blank_line() -> (r: StyledLine)
    ensures
        r@ == empty_line(),
{
    let r = StyledLine { spans: Vec::new(), highlighted: false };
    assert(r@.spans =~= Seq::<SpanView>::empty());
    r
}

fn indented_line(s: String, st: Style) -> (r: StyledLine)
    ensures
        r@ == indented(s@, st),
{
    let mut spans: Vec<StyledSpan> = Vec::new();
    spans.push(text_span("  ", mk_style(Color::Plain, false, false, false)));
    spans.push(string_span(s, st));
    let r = line_from(spans);
    assert(r@.spans =~= seq![txt("  "@, plain()), txt(s@, st)]);
    r
}

// ---------------------------------------------------------------------------
// Item lines of the command-line reports
// ---------------------------------------------------------------------------

/// Width that the item lines of the reports are laid out to.
pub const COL_WIDTH: usize = 60;

/// Length in bytes of the UTF-8 encoding of a text (`str::len`).
pub open spec fn utf8_len(s: Seq<char>) -> nat {
    vstd::utf8::encode_utf8(s).len()
}

/// Spaces between an item's description and what stands at its right: the
/// room left of the 60 columns after the 11 columns before the description
/// and the description's length in bytes, but at least 2.
pub open spec fn item_padding(v: ItemView) -> nat {
    let l = (utf8_len(v.description) as usize) as nat;
    let available: int = if COL_WIDTH > 11 + l {
        COL_WIDTH - 11 - l
    } else {
        2
    };
    if available < 2 {
        2
    } else {
        available as nat
    }
}

/// The mark before an item: done, in progress or pending for tasks, a
/// diamond for notes.
pub open spec fn icon_span(v: ItemView) -> SpanView {
    match v.item_type {
        ItemType::Task => match v.status {
            Status::Done => txt("✔"@, style(Color::Green, false, false, false)),
            Status::InProgress => txt("●"@, style(Color::Cyan, false, false, false)),
            Status::Pending => txt("●"@, style(Color::White, false, false, false)),
        },
        ItemType::Note => txt("◆"@, style(Color::Blue, false, false, false)),
    }
}

/// A priority label in its colour.
pub open spec fn priority_label_span(p: Priority) -> SpanView {
    match p {
        Priority::Low => txt("LOW"@, style(Color::Cyan, false, false, false)),
        Priority::Medium => txt("MEDIUM"@, style(Color::Yellow, true, false, false)),
        Priority::High => txt("HIGH"@, style(Color::Red, true, false, false)),
    }
}

/// The description, struck through in green once done.
pub open spec fn description_span(v: ItemView) -> SpanView {
    if v.status == Status::Done {
        txt(v.description, style(Color::Green, false, false, true))
    } else {
        txt(v.description, plain())
    }
}

/// What stands at the right of an item line: the completion date where the
/// item was completed, else its priority, else nothing.
pub open spec fn right_span(v: ItemView) -> Option<SpanView> {
    match v.completed_at {
        Some(t) => Some(SpanView { content: ContentView::Date(t), style: dimmed() }),
        None => match v.priority {
            Some(p) => Some(priority_label_span(p)),
            None => None,
        },
    }
}

/// An item line of the reports: cursor mark, icon, ID right-aligned in 3
/// columns, ` · `, the description, then padding and the right-hand side
/// where there is one.
pub open spec fn item_line(v: ItemView, selected: bool) -> LineView {
    let base = seq![
        txt(if selected { "▶ "@ } else { "  "@ }, plain()),
        icon_span(v),
        txt(" "@, plain()),
        txt(pad_left(decimal(v.id as nat), 3), dimmed()),
        txt(" · "@, plain()),
        description_span(v),
    ];
    match right_span(v) {
        None => line_of(base),
        Some(r) => line_of(base + seq![txt(spaces(item_padding(v)), plain()), r]),
    }
}

fn icon_of(item: &Item) -> (r: StyledSpan)
    ensures
        r@ == icon_span(item@),
{
    match item.item_type {
        ItemType::Task => match item.status {
            Status::Done => text_span("✔", mk_style(Color::Green, false, false, false)),
            Status::InProgress => text_span("●", mk_style(Color::Cyan, false, false, false)),
            Status::Pending => text_span("●", mk_style(Color::White, false, false, false)),
        },
        ItemType::Note => text_span("◆", mk_style(Color::Blue, false, false, false)),
    }
}

/// The priority label in its colour, for the reports.
pub fn priority_colored(p: &Priority) -> (r: StyledSpan)
    ensures
        r@ == priority_label_span(*p),
{
    match p {
        Priority::Low => text_span(p.label(), mk_style(Color::Cyan, false, false, false)),
        Priority::Medium => text_span(p.label(), mk_style(Color::Yellow, true, false, false)),
        Priority::High => text_span(p.label(), mk_style(Color::Red, true, false, false)),
    }
}

fn padding_width(item: &Item) -> (n: usize)
    ensures
        n == item_padding(item@),
{
    let l = item.description.as_str().len();
    let available: usize = if l < COL_WIDTH - 11 {
        COL_WIDTH - 11 - l
    } else {
        2
    };
    if available < 2 {
        2
    } else {
        available
    }
}

/// The decimal numeral of `n` right-aligned in `width` columns.
fn number_field(n: u64, width: usize) -> (s: String)
    ensures
        s@ == pad_left(decimal(n as nat), width as nat),
{
    let d = decimal_chars(n);
    let p = pad_left_chars(d.as_slice(), width);
    string_of(p.as_slice())
}

/// Lays out one item for the reports.
pub fn format_item_line(item: &Item, selected: bool) -> (r: StyledLine)
    ensures
        r@ == item_line(item@, selected),
{
    let mut spans: Vec<StyledSpan> = Vec::new();
    spans.push(text_span(if selected { "▶ " } else { "  " }, mk_style(Color::Plain, false, false, false)));
    spans.push(icon_of(item));
    spans.push(text_span(" ", mk_style(Color::Plain, false, false, false)));
    spans.push(string_span(number_field(item.id as u64, 3), mk_style(Color::Plain, false, true, false)));
    spans.push(text_span(" · ", mk_style(Color::Plain, false, false, false)));
    let desc = item.description.clone();
    if item.status == Status::Done {
        spans.push(string_span(desc, mk_style(Color::Green, false, false, true)));
    } else {
        spans.push(string_span(desc, mk_style(Color::Plain, false, false, false)));
    }
    let right: Option<StyledSpan> = match item.completed_at {
        Some(t) => Some(StyledSpan { content: Content::Date(t), style: mk_style(Color::Plain, false, true, false) }),
        None => match &item.priority {
            Some(p) => Some(priority_colored(p)),
            None => None,
        },
    };
    let ghost v = item@;
    let ghost base = seq![
        txt(if selected { "▶ "@ } else { "  "@ }, plain()),
        icon_span(v),
        txt(" "@, plain()),
        txt(pad_left(decimal(v.id as nat), 3), dimmed()),
        txt(" · "@, plain()),
        description_span(v),
    ];
    assert(spans@.map_values(|s: StyledSpan| s@) =~= base);
    match right {
        None => {
            let r = line_from(spans);
            assert(r@.spans == item_line(v, selected).spans);
            r
        },
        Some(rs) => {
            let pad = space_chars(padding_width(item));
            spans.push(chars_span(pad.as_slice(), mk_style(Color::Plain, false, false, false)));
            spans.push(rs);
            let r = line_from(spans);
            assert(r@.spans =~= base + seq![txt(spaces(item_padding(v)), plain()), right_span(v)->0]);
            r
        },
    }
}

// ---------------------------------------------------------------------------
// The command-line reports
// ---------------------------------------------------------------------------

/// The rule under the reports.
pub const SEPARATOR: &'static str = "─────────────────────────────────────────────────────────";

/// The active items of a store.
pub open spec fn active_of(items: Seq<ItemView>) -> Seq<ItemView> {
    items.filter(|v: ItemView| is_active(v))
}

/// `name [done/total]`.
pub open spec fn counted_header(name: Seq<char>, done: nat, total: nat) -> Seq<char> {
    name + " ["@ + decimal(done) + "/"@ + decimal(total) + "]"@
}

/// The report lines of a list of items.
pub open spec fn item_lines(items: Seq<ItemView>) -> Seq<LineView> {
    items.map_values(|v: ItemView| item_line(v, false))
}

/// A board in a report: an empty line, the header, the board's items.
pub open spec fn board_block(header: Seq<char>, items: Seq<ItemView>) -> Seq<LineView> {
    seq![empty_line(), indented(header, heading())] + item_lines(items)
}

/// The boards of the task report, each headed `name [done/total]`.
pub open spec fn task_blocks(g: Seq<(Seq<char>, Seq<ItemView>)>) -> Seq<LineView>
    decreases g.len(),
{
    if g.len() == 0 {
        Seq::<LineView>::empty()
    } else {
        let last = g.last();
        task_blocks(g.drop_last()) + board_block(
            counted_header(last.0, count_of(last.1, false, true), last.1.len()),
            last.1,
        )
    }
}

/// The boards of the notes report, each headed by its name.
pub open spec fn note_blocks(g: Seq<(Seq<char>, Seq<ItemView>)>) -> Seq<LineView>
    decreases g.len(),
{
    if g.len() == 0 {
        Seq::<LineView>::empty()
    } else {
        note_blocks(g.drop_last()) + board_block(g.last().0, g.last().1)
    }
}

/// The header of a board in the report of everything: `name [done/total]`
/// counting tasks, or the bare name where the board has no tasks.
pub open spec fn all_header(name: Seq<char>, items: Seq<ItemView>) -> Seq<char> {
    if count_of(items, true, false) > 0 {
        counted_header(name, count_of(items, true, true), count_of(items, true, false))
    } else {
        name
    }
}

/// The boards of the report of everything.
pub open spec fn all_blocks(g: Seq<(Seq<char>, Seq<ItemView>)>) -> Seq<LineView>
    decreases g.len(),
{
    if g.len() == 0 {
        Seq::<LineView>::empty()
    } else {
        all_blocks(g.drop_last()) + board_block(all_header(g.last().0, g.last().1), g.last().1)
    }
}

/// `s` where `n` is not 1: the plural ending.
pub open spec fn plural(n: nat) -> Seq<char> {
    if n == 1 {
        ""@
    } else {
        "s"@
    }
}

/// Percentage of `done` in `total`, rounded down; 0 where there is nothing.
pub open spec fn percent(done: nat, total: nat) -> nat {
    if total > 0 {
        (done * 100) / total
    } else {
        0
    }
}

proof fn lemma_percent_at_most_100(done: nat, total: nat)
    requires
        done <= total,
    ensures
        percent(done, total) <= 100,
{
    if total > 0 {
        assert((done * 100) / total <= 100) by (nonlinear_arith)
            requires
                done <= total,
                total > 0,
        ;
    }
}

/// `P% of N tasks done · across B board(s)`.
pub open spec fn tasks_summary(done: nat, total: nat, boards: nat) -> Seq<char> {
    decimal(percent(done, total)) + "% of "@ + decimal(total) + " tasks done · across "@ + decimal(
        boards,
    ) + " board"@ + plural(boards)
}

/// `N note(s) · across B board(s)`.
pub open spec fn notes_summary(notes: nat, boards: nat) -> Seq<char> {
    decimal(notes) + " note"@ + plural(notes) + " · across "@ + decimal(boards) + " board"@
        + plural(boards)
}

/// A one-line report of an empty view.
pub open spec fn nothing_found(message: Seq<char>) -> Seq<LineView> {
    seq![line_of(seq![txt(message, dimmed())])]
}

/// The footer rule.
pub open spec fn separator_lines() -> Seq<LineView> {
    seq![empty_line(), indented(SEPARATOR@, dimmed())]
}

/// The report of the active tasks by board, with the share done overall.
pub open spec fn tasks_report_spec(items: Seq<ItemView>) -> Seq<LineView> {
    let a = active_of(items);
    let g = grouping(a, Some(ItemType::Task));
    if g.len() == 0 {
        nothing_found("No tasks found."@)
    } else {
        task_blocks(g) + separator_lines() + seq![
            indented(
                tasks_summary(count_of(a, true, true), count_of(a, true, false), g.len()),
                dimmed(),
            ),
        ]
    }
}

/// The report of the active notes by board, with their number.
pub open spec fn notes_report_spec(items: Seq<ItemView>) -> Seq<LineView> {
    let a = active_of(items);
    let g = grouping(a, Some(ItemType::Note));
    if g.len() == 0 {
        nothing_found("No notes found."@)
    } else {
        note_blocks(g) + separator_lines() + seq![
            indented(
                notes_summary(a.filter(|v: ItemView| v.item_type == ItemType::Note).len(), g.len()),
                dimmed(),
            ),
        ]
    }
}

/// The report of all active items by board.
pub open spec fn all_report_spec(items: Seq<ItemView>) -> Seq<LineView> {
    let a = active_of(items);
    let g = grouping(a, None);
    if g.len() == 0 {
        nothing_found("No items found."@)
    } else {
        all_blocks(g) + separator_lines()
    }
}

fn owned(s: &str) -> (r: String)
    ensures
        r@ == s@,
{
    s.to_owned()
}

fn mk_plain() -> (r: Style)
    ensures
        r == plain(),
{
    mk_style(Color::Plain, false, false, false)
}

fn mk_dimmed() -> (r: Style)
    ensures
        r == dimmed(),
{
    mk_style(Color::Plain, false, true, false)
}

fn mk_heading() -> (r: Style)
    ensures
        r == heading(),
{
    mk_style(Color::White, true, false, false)
}

fn numeral(n: u64) -> (s: String)
    ensures
        s@ == decimal(n as nat),
{
    crate::text::decimal_string(n)
}

fn header_with_counts(name: &String, done: usize, total: usize) -> (s: String)
    ensures
        s@ == counted_header(name@, done as nat, total as nat),
{
    let mut s = name.clone();
    push_str_chars(&mut s, " [");
    push_str_chars(&mut s, numeral(done as u64).as_str());
    push_str_chars(&mut s, "/");
    push_str_chars(&mut s, numeral(total as u64).as_str());
    push_str_chars(&mut s, "]");
    s
}

fn push_item_lines(lines: &mut Vec<StyledLine>, items: &Vec<Item>)
    ensures
        line_views(final(lines)@) == line_views(old(lines)@) + item_lines(views(items@)),
{
    let ghost start = line_views(lines@);
    for i in 0..items.len()
        invariant
            line_views(lines@) == start + item_lines(views(items@.take(i as int))),
    {
        let l = format_item_line(&items[i], false);
        let ghost prev = lines@;
        lines.push(l);
        assert(line_views(lines@) =~= line_views(prev).push(l@));
        assert(item_lines(views(items@.take(i + 1))) =~= item_lines(views(items@.take(i as int))).push(
            item_line(items@[i as int]@, false),
        ));
    }
    assert(items@.take(items@.len() as int) =~= items@);
}

fn push_line(lines: &mut Vec<StyledLine>, l: StyledLine)
    ensures
        line_views(final(lines)@) == line_views(old(lines)@).push(l@),
{
    let ghost prev = lines@;
    lines.push(l);
    assert(line_views(lines@) =~= line_views(prev).push(l@));
}

fn push_board_block(lines: &mut Vec<StyledLine>, header: String, items: &Vec<Item>)
    ensures
        line_views(final(lines)@) == line_views(old(lines)@) + board_block(header@, views(items@)),
{
    let ghost start = line_views(lines@);
    let ghost h = header@;
    push_line(lines, blank_line());
    push_line(lines, indented_line(header, mk_heading()));
    push_item_lines(lines, items);
    assert(line_views(lines@) =~= start + board_block(h, views(items@)));
}

fn push_separator(lines: &mut Vec<StyledLine>)
    ensures
        line_views(final(lines)@) == line_views(old(lines)@) + separator_lines(),
{
    let ghost start = line_views(lines@);
    push_line(lines, blank_line());
    push_line(lines, indented_line(owned(SEPARATOR), mk_dimmed()));
    assert(line_views(lines@) =~= start + separator_lines());
}

fn nothing_found_lines(message: &str) -> (lines: Vec<StyledLine>)
    ensures
        line_views(lines@) == nothing_found(message@),
{
    let mut spans: Vec<StyledSpan> = Vec::new();
    spans.push(text_span(message, mk_dimmed()));
    let l = line_from(spans);
    assert(l@.spans =~= seq![txt(message@, dimmed())]);
    let mut lines: Vec<StyledLine> = Vec::new();
    push_line(&mut lines, l);
    assert(line_views(lines@) =~= nothing_found(message@));
    lines
}

/// Counts the active items of a kind, and those of them that are done.
fn count_kind(items: &Vec<&Item>, kind: ItemType) -> (r: (usize, usize))
    ensures
        r.0 == ref_views(items@).filter(|v: ItemView| v.item_type == kind).len(),
        r.1 == ref_views(items@).filter(|v: ItemView| v.item_type == kind && v.status == Status::Done).len(),
        r.1 <= r.0,
{
    let mut all: usize = 0;
    let mut done: usize = 0;
    for i in 0..items.len()
        invariant
            all == ref_views(items@.take(i as int)).filter(|v: ItemView| v.item_type == kind).len(),
            done == ref_views(items@.take(i as int)).filter(
                |v: ItemView| v.item_type == kind && v.status == Status::Done,
            ).len(),
            done <= all <= i,
    {
        proof {
            let pre = ref_views(items@.take(i as int));
            assert(ref_views(items@.take(i + 1)) =~= pre.push(items@[i as int]@));
            lemma_filter_push(pre, |v: ItemView| v.item_type == kind, items@[i as int]@);
            lemma_filter_push(
                pre,
                |v: ItemView| v.item_type == kind && v.status == Status::Done,
                items@[i as int]@,
            );
        }
        if items[i].item_type == kind {
            all = all + 1;
            if items[i].status == Status::Done {
                done = done + 1;
            }
        }
    }
    assert(items@.take(items@.len() as int) =~= items@);
    (all, done)
}

proof fn lemma_count_tasks(s: Seq<ItemView>)
    ensures
        s.filter(|v: ItemView| v.item_type == ItemType::Task).len() == count_of(s, true, false),
        s.filter(|v: ItemView| v.item_type == ItemType::Task && v.status == Status::Done).len()
            == count_of(s, true, true),
{
    assert((|v: ItemView| v.item_type == ItemType::Task) =~= (|v: ItemView| crate::board::counted(v, true, false)));
    assert((|v: ItemView| v.item_type == ItemType::Task && v.status == Status::Done) =~= (|v: ItemView| crate::board::counted(v, true, true)));
}

/// The report of the active tasks by board.
pub fn tasks_report(store: &Store) -> (lines: Vec<StyledLine>)
    ensures
        line_views(lines@) == tasks_report_spec(views(store.items@)),
{
    let active = active_items(store);
    let boards = group_tasks_by_board(active.as_slice());
    if boards.len() == 0 {
        return nothing_found_lines("No tasks found.");
    }
    let ghost g = stats_groups(boards@);
    let mut lines: Vec<StyledLine> = Vec::new();
    for b in 0..boards.len()
        invariant
            g == stats_groups(boards@),
            forall|i: int| 0 <= i < boards@.len() ==> {
                &&& #[trigger] boards@[i].done == count_of(views(boards@[i].items@), false, true)
                &&& boards@[i].total == boards@[i].items@.len()
            },
            line_views(lines@) == task_blocks(g.take(b as int)),
    {
        let board = &boards[b];
        let header = header_with_counts(&board.name, board.done, board.total);
        push_board_block(&mut lines, header, &board.items);
        assert(g.take(b + 1).drop_last() =~= g.take(b as int));
        assert(g[b as int] == (board.name@, views(board.items@)));
    }
    assert(g.take(boards@.len() as int) =~= g);
    push_separator(&mut lines);
    let (total, done) = count_kind(&active, ItemType::Task);
    proof {
        lemma_count_tasks(ref_views(active@));
    }
    let pct: u128 = if total > 0 {
        (done as u128) * 100 / (total as u128)
    } else {
        0
    };
    proof {
        if total > 0 {
            assert(pct == percent(done as nat, total as nat));
            lemma_percent_at_most_100(done as nat, total as nat);
        }
    }
    let mut summary = numeral(pct as u64);
    push_str_chars(&mut summary, "% of ");
    push_str_chars(&mut summary, numeral(total as u64).as_str());
    push_str_chars(&mut summary, " tasks done · across ");
    push_str_chars(&mut summary, numeral(boards.len() as u64).as_str());
    push_str_chars(&mut summary, " board");
    push_str_chars(&mut summary, if boards.len() == 1 { "" } else { "s" });
    push_line(&mut lines, indented_line(summary, mk_dimmed()));
    lines
}

/// The report of the active notes by board.
pub fn notes_report(store: &Store) -> (lines: Vec<StyledLine>)
    ensures
        line_views(lines@) == notes_report_spec(views(store.items@)),
{
    let active = active_items(store);
    let boards = group_notes_by_board(active.as_slice());
    if boards.len() == 0 {
        return nothing_found_lines("No notes found.");
    }
    let ghost g = group_views(boards@);
    let mut lines: Vec<StyledLine> = Vec::new();
    for b in 0..boards.len()
        invariant
            g == group_views(boards@),
            line_views(lines@) == note_blocks(g.take(b as int)),
    {
        let board = &boards[b];
        push_board_block(&mut lines, board.0.clone(), &board.1);
        assert(g.take(b + 1).drop_last() =~= g.take(b as int));
        assert(g[b as int] == (board.0@, views(board.1@)));
    }
    assert(g.take(boards@.len() as int) =~= g);
    push_separator(&mut lines);
    let (notes, _) = count_kind(&active, ItemType::Note);
    let mut summary = numeral(notes as u64);
    push_str_chars(&mut summary, " note");
    push_str_chars(&mut summary, if notes == 1 { "" } else { "s" });
    push_str_chars(&mut summary, " · across ");
    push_str_chars(&mut summary, numeral(boards.len() as u64).as_str());
    push_str_chars(&mut summary, " board");
    push_str_chars(&mut summary, if boards.len() == 1 { "" } else { "s" });
    push_line(&mut lines, indented_line(summary, mk_dimmed()));
    lines
}

/// The report of all active items by board.
pub fn all_report(store: &Store) -> (lines: Vec<StyledLine>)
    ensures
        line_views(lines@) == all_report_spec(views(store.items@)),
{
    let active = active_items(store);
    let boards = group_all_by_board(active.as_slice());
    if boards.len() == 0 {
        return nothing_found_lines("No items found.");
    }
    let ghost g = stats_groups(boards@);
    let mut lines: Vec<StyledLine> = Vec::new();
    for b in 0..boards.len()
        invariant
            g == stats_groups(boards@),
            forall|i: int| 0 <= i < boards@.len() ==> {
                &&& #[trigger] boards@[i].done == count_of(views(boards@[i].items@), true, true)
                &&& boards@[i].total == count_of(views(boards@[i].items@), true, false)
            },
            line_views(lines@) == all_blocks(g.take(b as int)),
    {
        let board = &boards[b];
        assert(boards@[b as int].done == count_of(views(boards@[b as int].items@), true, true));
        let header = if board.total > 0 {
            header_with_counts(&board.name, board.done, board.total)
        } else {
            board.name.clone()
        };
        push_board_block(&mut lines, header, &board.items);
        assert(g.take(b + 1).drop_last() =~= g.take(b as int));
        assert(g[b as int] == (board.name@, views(board.items@)));
    }
    assert(g.take(boards@.len() as int) =~= g);
    push_separator(&mut lines);
    lines
}

/// Index of the first board whose name matches `name` ignoring case, or -1.
pub open spec fn board_named(g: Seq<(Seq<char>, Seq<ItemView>)>, name: Seq<char>) -> int
    decreases g.len(),
{
    if g.len() == 0 {
        -1
    } else {
        let k = board_named(g.drop_last(), name);
        if k >= 0 {
            k
        } else if lowercase_of(g.last().0) == lowercase_of(name) {
            g.len() - 1
        } else {
            -1
        }
    }
}

/// The error where no task board has the name.
pub open spec fn board_not_found(name: Seq<char>) -> Seq<char> {
    "Board '"@ + name + "' not found."@
}

/// The report of one task board, found by name ignoring case, or the error
/// where there is no such board.
pub open spec fn board_report_spec(items: Seq<ItemView>, name: Seq<char>) -> Result<Seq<LineView>, Seq<char>> {
    let g = grouping(active_of(items), Some(ItemType::Task));
    let k = board_named(g, name);
    if k < 0 {
        Err(board_not_found(name))
    } else {
        Ok(board_block(
            counted_header(g[k].0, count_of(g[k].1, false, true), g[k].1.len()),
            g[k].1,
        ) + separator_lines())
    }
}

proof fn lemma_board_named(g: Seq<(Seq<char>, Seq<ItemView>)>, name: Seq<char>)
    ensures
        -1 <= board_named(g, name) < g.len(),
        board_named(g, name) >= 0 ==> lowercase_of(g[board_named(g, name)].0) == lowercase_of(name),
        forall|j: int|
            0 <= j < g.len() && (board_named(g, name) < 0 || j < board_named(g, name))
                ==> lowercase_of(#[trigger] g[j].0) != lowercase_of(name),
    decreases g.len(),
{
    if g.len() > 0 {
        lemma_board_named(g.drop_last(), name);
        assert forall|j: int|
            0 <= j < g.len() && (board_named(g, name) < 0 || j < board_named(g, name))
                implies lowercase_of(#[trigger] g[j].0) != lowercase_of(name) by {
            if j < g.len() - 1 {
                assert(g[j] == g.drop_last()[j]);
            }
        }
    }
}

/// Position of the first text equal to `wanted`.
pub fn first_equal(texts: &Vec<String>, wanted: &str) -> (r: Option<usize>)
    ensures
        match r {
            Some(i) => {
                &&& i < texts@.len()
                &&& texts@[i as int]@ == wanted@
                &&& forall|j: int| 0 <= j < i ==> (#[trigger] texts@[j])@ != wanted@
            },
            None => forall|j: int| 0 <= j < texts@.len() ==> (#[trigger] texts@[j])@ != wanted@,
        },
{
    for i in 0..texts.len()
        invariant
            forall|j: int| 0 <= j < i ==> (#[trigger] texts@[j])@ != wanted@,
    {
        if crate::text::same_text(texts[i].as_str(), wanted) {
            return Some(i);
        }
    }
    None
}

/// The report of one task board; the error message where no task board has
/// the name (ignoring case).
pub fn board_report(store: &Store, board_name: &str) -> (r: Result<Vec<StyledLine>, String>)
    ensures
        match r {
            Ok(lines) => board_report_spec(views(store.items@), board_name@) == Ok::<
                Seq<LineView>,
                Seq<char>,
            >(line_views(lines@)),
            Err(e) => board_report_spec(views(store.items@), board_name@) == Err::<
                Seq<LineView>,
                Seq<char>,
            >(e@),
        },
{
    let active = active_items(store);
    let boards = group_tasks_by_board(active.as_slice());
    let ghost g = stats_groups(boards@);
    let wanted = to_lowercase(board_name);
    let mut lowered: Vec<String> = Vec::new();
    for i in 0..boards.len()
        invariant
            g == stats_groups(boards@),
            lowered@.len() == i,
            forall|j: int| 0 <= j < i ==> (#[trigger] lowered@[j])@ == lowercase_of(g[j].0),
    {
        let l = to_lowercase(boards[i].name.as_str());
        assert(g[i as int].0 == boards@[i as int].name@);
        lowered.push(l);
    }
    proof {
        lemma_board_named(g, board_name@);
    }
    match first_equal(&lowered, wanted.as_str()) {
        Some(b) => {
            let board = &boards[b];
            assert(lowered@[b as int]@ == lowercase_of(g[b as int].0));
            assert forall|j: int| 0 <= j < b implies lowercase_of(#[trigger] g[j].0) != lowercase_of(board_name@) by {
                assert(lowered@[j]@ == lowercase_of(g[j].0));
            }
            assert(board_named(g, board_name@) == b);
            assert(boards@[b as int].done == count_of(views(boards@[b as int].items@), false, true));
            let mut lines: Vec<StyledLine> = Vec::new();
            let header = header_with_counts(&board.name, board.done, board.total);
            push_board_block(&mut lines, header, &board.items);
            push_separator(&mut lines);
            assert(g[b as int] == (board.name@, views(board.items@)));
            Ok(lines)
        },
        None => {
            assert forall|j: int| 0 <= j < g.len() implies lowercase_of(#[trigger] g[j].0) != lowercase_of(board_name@) by {
                assert(lowered@[j]@ == lowercase_of(g[j].0));
            }
            let mut e = owned("Board '");
            push_str_chars(&mut e, board_name);
            push_str_chars(&mut e, "' not found.");
            Err(e)
        },
    }
}

// ---------------------------------------------------------------------------
// The timeline
// ---------------------------------------------------------------------------

/// Where an item created at `t` goes into a list in order of creation: before
/// the first item created after it, after all created no later.
pub open spec fn insert_pos(r: Seq<ItemView>, t: Timestamp) -> int
    decreases r.len(),
{
    if r.len() == 0 {
        0
    } else {
        let p = insert_pos(r.drop_last(), t);
        if p < r.len() - 1 {
            p
        } else if t.before(r.last().created_at) {
            r.len() - 1
        } else {
            r.len() as int
        }
    }
}

/// Items in order of creation, items created at the same time in their
/// original order (a stable sort by creation time).
pub open spec fn timeline(s: Seq<ItemView>) -> Seq<ItemView>
    decreases s.len(),
{
    if s.len() == 0 {
        s
    } else {
        let r = timeline(s.drop_last());
        r.insert(insert_pos(r, s.last().created_at), s.last())
    }
}

/// Whether the items are in order of creation.
pub open spec fn in_creation_order(r: Seq<ItemView>) -> bool {
    forall|i: int, j: int| 0 <= i < j < r.len() ==> !(#[trigger] r[j].created_at).before(#[trigger] r[i].created_at)
}

proof fn lemma_insert_pos(r: Seq<ItemView>, t: Timestamp)
    ensures
        0 <= insert_pos(r, t) <= r.len(),
        forall|j: int| 0 <= j < insert_pos(r, t) ==> !t.before(#[trigger] r[j].created_at),
        insert_pos(r, t) < r.len() ==> t.before(r[insert_pos(r, t)].created_at),
    decreases r.len(),
{
    if r.len() > 0 {
        lemma_insert_pos(r.drop_last(), t);
        assert forall|j: int| 0 <= j < insert_pos(r, t) implies !t.before(#[trigger] r[j].created_at) by {
            if j < r.len() - 1 {
                assert(r[j] == r.drop_last()[j]);
            }
        }
    }
}

proof fn lemma_timeline_len(s: Seq<ItemView>)
    ensures
        timeline(s).len() == s.len(),
    decreases s.len(),
{
    if s.len() > 0 {
        lemma_timeline_len(s.drop_last());
        lemma_insert_pos(timeline(s.drop_last()), s.last().created_at);
    }
}

/// The timeline lists items in order of creation.
pub proof fn timeline_is_in_creation_order(s: Seq<ItemView>)
    ensures
        in_creation_order(timeline(s)),
        timeline(s).len() == s.len(),
    decreases s.len(),
{
    lemma_timeline_len(s);
    if s.len() > 0 {
        timeline_is_in_creation_order(s.drop_last());
        let r = timeline(s.drop_last());
        let t = s.last().created_at;
        let p = insert_pos(r, t);
        lemma_insert_pos(r, t);
        let q = r.insert(p, s.last());
        assert forall|i: int, j: int| 0 <= i < j < q.len() implies !(#[trigger] q[j].created_at).before(
            #[trigger] q[i].created_at,
        ) by {
            if j < p {
                assert(q[i] == r[i] && q[j] == r[j]);
            } else if j == p {
                assert(q[i] == r[i]);
                assert(!t.before(r[i].created_at));
            } else if i < p {
                assert(q[i] == r[i] && q[j] == r[j - 1]);
            } else if i == p {
                assert(q[j] == r[j - 1]);
                assert(t.before(r[p].created_at));
                assert(!r[j - 1].created_at.before(r[p].created_at) || j - 1 == p);
            } else {
                assert(q[i] == r[i - 1] && q[j] == r[j - 1]);
            }
        }
    }
}

/// The timeline holds exactly the items it was given, each as often.
pub proof fn timeline_keeps_every_item(s: Seq<ItemView>)
    ensures
        timeline(s).to_multiset() == s.to_multiset(),
    decreases s.len(),
{
    if s.len() > 0 {
        timeline_keeps_every_item(s.drop_last());
        let r = timeline(s.drop_last());
        lemma_insert_pos(r, s.last().created_at);
        vstd::seq_lib::to_multiset_insert(r, insert_pos(r, s.last().created_at), s.last());
        vstd::seq_lib::to_multiset_build(s.drop_last(), s.last());
        assert(s.drop_last().push(s.last()) =~= s);
    }
}

/// The active tasks in order of creation.
pub fn timeline_tasks<'a>(items: &Vec<&'a Item>) -> (r: Vec<&'a Item>)
    ensures
        ref_views(r@) == timeline(ref_views(items@).filter(|v: ItemView| v.item_type == ItemType::Task)),
{
    let ghost input = ref_views(items@);
    let mut r: Vec<&Item> = Vec::new();
    for i in 0..items.len()
        invariant
            input == ref_views(items@),
            ref_views(r@) == timeline(input.take(i as int).filter(|v: ItemView| v.item_type == ItemType::Task)),
    {
        let it: &Item = items[i];
        let ghost pre = input.take(i as int).filter(|v: ItemView| v.item_type == ItemType::Task);
        proof {
            assert(input.take(i + 1) =~= input.take(i as int).push(it@));
            lemma_filter_push(input.take(i as int), |v: ItemView| v.item_type == ItemType::Task, it@);
        }
        if it.item_type == ItemType::Task {
            let ghost rv = ref_views(r@);
            proof {
                lemma_insert_pos(rv, it.created_at);
                assert(pre.push(it@).drop_last() =~= pre);
                lemma_timeline_len(pre);
            }
            let mut p: usize = 0;
            while p < r.len() && !it.created_at.is_before(&r[p].created_at)
                invariant
                    rv == ref_views(r@),
                    p <= r@.len(),
                    forall|j: int| 0 <= j < p ==> !it.created_at.before(#[trigger] rv[j].created_at),
                decreases r@.len() - p,
            {
                assert(rv[p as int] == r@[p as int]@);
                p = p + 1;
            }
            proof {
                lemma_insert_pos(rv, it.created_at);
                let q = insert_pos(rv, it.created_at);
                if (p as int) < q {
                    assert(rv[p as int] == r@[p as int]@);
                    assert(!it.created_at.before(rv[p as int].created_at));
                    assert(it.created_at.before(r@[p as int].created_at));
                }
                if q < p {
                    assert(!it.created_at.before(rv[q].created_at));
                    assert(it.created_at.before(rv[q].created_at));
                }
            }
            assert(p == insert_pos(rv, it.created_at));
            assert(pre.push(it@).last() == it@);
            assert(timeline(pre.push(it@)) == rv.insert(p as int, it@));
            r.insert(p, it);
            assert(ref_views(r@) =~= rv.insert(p as int, it@));
        }
    }
    assert(input.take(items@.len() as int) =~= input);
    r
}

/// The report of the active tasks in order of creation.
pub open spec fn timeline_report_spec(items: Seq<ItemView>) -> Seq<LineView> {
    let t = timeline(active_of(items).filter(|v: ItemView| v.item_type == ItemType::Task));
    if t.len() == 0 {
        nothing_found("No tasks found."@)
    } else {
        seq![empty_line(), indented("Timeline"@, heading())] + item_lines(t) + separator_lines()
            + seq![indented(decimal(t.len()) + " tasks"@, dimmed())]
    }
}

/// The report of the active tasks in order of creation.
pub fn timeline_report(store: &Store) -> (lines: Vec<StyledLine>)
    ensures
        line_views(lines@) == timeline_report_spec(views(store.items@)),
{
    let active = active_items(store);
    let tasks = timeline_tasks(&active);
    if tasks.len() == 0 {
        return nothing_found_lines("No tasks found.");
    }
    let mut lines: Vec<StyledLine> = Vec::new();
    push_line(&mut lines, blank_line());
    push_line(&mut lines, indented_line(owned("Timeline"), mk_heading()));
    let ghost start = line_views(lines@);
    for i in 0..tasks.len()
        invariant
            line_views(lines@) == start + item_lines(ref_views(tasks@).take(i as int)),
    {
        let l = format_item_line(tasks[i], false);
        push_line(&mut lines, l);
        assert(item_lines(ref_views(tasks@).take(i + 1)) =~= item_lines(ref_views(tasks@).take(i as int)).push(
            item_line(tasks@[i as int]@, false),
        ));
    }
    assert(ref_views(tasks@).take(tasks@.len() as int) =~= ref_views(tasks@));
    push_separator(&mut lines);
    let mut summary = numeral(tasks.len() as u64);
    push_str_chars(&mut summary, " tasks");
    push_line(&mut lines, indented_line(summary, mk_dimmed()));
    let ghost t = ref_views(tasks@);
    assert(line_views(lines@) =~= seq![empty_line(), indented("Timeline"@, heading())] + item_lines(t)
        + separator_lines() + seq![indented(decimal(t.len()) + " tasks"@, dimmed())]);
    lines
}

// ---------------------------------------------------------------------------
// Laws of the layouts
// ---------------------------------------------------------------------------

/// The timeline is chronological: an item listed before another was created
/// no later, times compared by their seconds first and by their nanoseconds
/// only within the same second.
pub proof fn timeline_is_chronological(s: Seq<ItemView>)
    ensures
        forall|i: int, j: int|
            0 <= i < j < timeline(s).len() ==> {
                ||| (#[trigger] timeline(s)[i]).created_at.secs < (#[trigger] timeline(s)[j]).created_at.secs
                ||| (timeline(s)[i].created_at.secs == timeline(s)[j].created_at.secs
                    && timeline(s)[i].created_at.nanos <= timeline(s)[j].created_at.nanos)
            },
{
    timeline_is_in_creation_order(s);
    let r = timeline(s);
    assert forall|i: int, j: int| 0 <= i < j < r.len() implies {
        ||| (#[trigger] r[i]).created_at.secs < (#[trigger] r[j]).created_at.secs
        ||| (r[i].created_at.secs == r[j].created_at.secs && r[i].created_at.nanos <= r[j].created_at.nanos)
    } by {
        assert(!r[j].created_at.before(r[i].created_at));
    }
}

/// An item line starts with `▶ ` on the selected item and two spaces
/// otherwise, and shows the description as given: struck through in green
/// once the item is done, plain before.
pub proof fn item_line_left_side(v: ItemView, selected: bool)
    ensures
        item_line(v, selected).spans.len() >= 6,
        (item_line(v, selected).spans[0].content == ContentView::Text(
            if selected {
                "▶ "@
            } else {
                "  "@
            },
        )),
        item_line(v, selected).spans[5].content == ContentView::Text(v.description),
        (v.status == Status::Done ==> item_line(v, selected).spans[5].style == (Style {
            color: Color::Green,
            bold: false,
            dimmed: false,
            crossed_out: true,
        })),
        (v.status != Status::Done ==> item_line(v, selected).spans[5].style == (Style {
            color: Color::Plain,
            bold: false,
            dimmed: false,
            crossed_out: false,
        })),
{
}

proof fn lemma_filter_none<A>(s: Seq<A>, pred: spec_fn(A) -> bool)
    requires
        forall|i: int| 0 <= i < s.len() ==> !pred(#[trigger] s[i]),
    ensures
        s.filter(pred) == Seq::<A>::empty(),
    decreases s.len(),
{
    if s.len() == 0 {
        assert(s.filter(pred) =~= Seq::<A>::empty()) by {
            reveal(Seq::filter);
        }
    } else {
        let t = s.drop_last();
        assert forall|i: int| 0 <= i < t.len() implies !pred(#[trigger] t[i]) by {
            assert(t[i] == s[i]);
        }
        lemma_filter_none(t, pred);
        assert(!pred(s[s.len() - 1]));
        lemma_filter_push(t, pred, s.last());
        assert(t.push(s.last()) =~= s);
    }
}

proof fn lemma_filter_insert<A>(r: Seq<A>, p: int, x: A, pred: spec_fn(A) -> bool)
    requires
        0 <= p <= r.len(),
        pred(x) ==> forall|j: int| p <= j < r.len() ==> !pred(#[trigger] r[j]),
    ensures
        r.insert(p, x).filter(pred) == if pred(x) {
            r.filter(pred).push(x)
        } else {
            r.filter(pred)
        },
{
    let a = r.take(p);
    let b = r.skip(p);
    assert(r.insert(p, x) =~= a.push(x) + b);
    assert(r =~= a + b);
    Seq::filter_distributes_over_add(a.push(x), b, pred);
    Seq::filter_distributes_over_add(a, b, pred);
    lemma_filter_push(a, pred, x);
    if pred(x) {
        assert forall|j: int| 0 <= j < b.len() implies !pred(#[trigger] b[j]) by {
            assert(b[j] == r[p + j]);
        }
        lemma_filter_none(b, pred);
        assert(a.filter(pred).push(x) + b.filter(pred) =~= a.filter(pred).push(x));
        assert(a.filter(pred) + b.filter(pred) =~= a.filter(pred));
    } else {
    }
}

/// The timeline is stable: items created at the same time stay in the order
/// they were given in.
pub proof fn timeline_is_stable(s: Seq<ItemView>, t: Timestamp)
    ensures
        timeline(s).filter(|v: ItemView| v.created_at == t) == s.filter(|v: ItemView| v.created_at == t),
    decreases s.len(),
{
    let pred = |v: ItemView| v.created_at == t;
    if s.len() > 0 {
        let x = s.last();
        let r = timeline(s.drop_last());
        timeline_is_stable(s.drop_last(), t);
        timeline_is_in_creation_order(s.drop_last());
        lemma_insert_pos(r, x.created_at);
        let p = insert_pos(r, x.created_at);
        if pred(x) {
            assert forall|j: int| p <= j < r.len() implies !pred(#[trigger] r[j]) by {
                assert(x.created_at.before(r[p].created_at));
                if j > p {
                    assert(!r[j].created_at.before(r[p].created_at));
                }
            }
        }
        lemma_filter_insert(r, p, x, pred);
        lemma_filter_push(s.drop_last(), pred, x);
        assert(s.drop_last().push(x) =~= s);
    }
}

/// What stands at the right end of an item line: the completion date
/// (dimmed) for a completed item, whatever its priority; otherwise the
/// priority's label in its colour; otherwise nothing, the description ending
/// the line.
pub proof fn item_line_right_side(v: ItemView, selected: bool)
    ensures
        v.completed_at is Some ==> {
            &&& item_line(v, selected).spans.len() == 8
            &&& item_line(v, selected).spans.last() == SpanView {
                content: ContentView::Date(v.completed_at->0),
                style: Style { color: Color::Plain, bold: false, dimmed: true, crossed_out: false },
            }
        },
        v.completed_at is None && v.priority is Some ==> {
            &&& item_line(v, selected).spans.len() == 8
            &&& item_line(v, selected).spans.last().content == ContentView::Text(
                match v.priority->0 {
                    Priority::Low => "LOW"@,
                    Priority::Medium => "MEDIUM"@,
                    Priority::High => "HIGH"@,
                },
            )
        },
        v.completed_at is None && v.priority is None ==> {
            &&& item_line(v, selected).spans.len() == 6
            &&& item_line(v, selected).spans.last().content == ContentView::Text(v.description)
        },
{
}

/// Text that fits in the width, or any text at a width of 0, is one line,
/// unchanged.
pub proof fn short_text_is_one_line(text: Seq<char>, width: nat)
    requires
        width == 0 || text.len() <= width,
    ensures
        wrap_spec(text, width) == seq![text],
{
}

proof fn lemma_last_space_facts(r: Seq<char>, w: nat)
    requires
        w <= r.len(),
    ensures
        -1 <= last_space_before(r, w) < w,
        last_space_before(r, w) >= 0 ==> r[last_space_before(r, w)] == ' ',
        forall|j: int| last_space_before(r, w) < j < w ==> #[trigger] r[j] != ' ',
    decreases w,
{
    if w > 0 {
        lemma_last_space_facts(r, (w - 1) as nat);
    }
}

/// Wrapping is greedy. Text longer than the width is broken after `b`
/// characters, where `b` is the last space among the first `width`
/// characters (no later space fits), or the width itself where no space but
/// a leading one fits. The first line is the text before the break without
/// trailing white space, and the other lines wrap the rest, its leading
/// white space dropped.
pub proof fn wrap_breaks_at_last_fitting_space(text: Seq<char>, width: nat)
    requires
        0 < width < text.len(),
    ensures
        exists|b: int|
            {
                &&& 1 <= b <= width
                &&& (b < width ==> text[b] == ' ')
                &&& (forall|j: int| b < j < width ==> text[j] != ' ')
                &&& (b == width ==> forall|j: int| 0 < j < width ==> text[j] != ' ')
                &&& wrap_spec(text, width)[0] == trim_end(#[trigger] text.take(b))
                &&& wrap_spec(text, width).drop_first() == (if trim_start(text.skip(b)).len() == 0 {
                    Seq::<Seq<char>>::empty()
                } else {
                    wrap_spec(trim_start(text.skip(b)), width)
                })
            },
{
    lemma_last_space_facts(text, width);
    let b = break_point(text, width);
    let rest = trim_start(text.skip(b as int));
    let w = wrap_spec(text, width);
    assert(w == seq![trim_end(text.take(b as int))] + wrap_rest(rest, width));
    assert(w.drop_first() =~= wrap_rest(rest, width));
    assert(wrap_rest(rest, width) == (if rest.len() == 0 {
        Seq::<Seq<char>>::empty()
    } else {
        wrap_spec(rest, width)
    }));
    assert(w[0] == trim_end(text.take(b as int)));
}

} // verus!
