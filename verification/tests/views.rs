use tasknote::board::{group_all_by_board, group_notes_by_board, group_tasks_by_board};
use tasknote::item::{Item, Priority, Status, Timestamp};
use tasknote::render::{
    priority_colored, all_report, board_report, format_item_line, notes_report, tasks_report, timeline_report,
    wrap_text, Color, Content, StyledLine,
};
use tasknote::screen::{col_header_line, hint_line, render_archive_lines, render_footer, render_lines, separator_line};
use tasknote::store::{active_items, Store};
use tasknote::tui::{
    build_archive_selectable, build_selectable, finish_edit, handle_archive_key, handle_task_key,
    handle_task_key_at, InputMode, Key, TuiAction, TuiState,
};

fn at(secs: i64) -> Timestamp {
    Timestamp { secs, nanos: 0 }
}

fn text_of(line: &StyledLine) -> String {
    let mut s = String::new();
    for span in &line.spans {
        match &span.content {
            Content::Text(t) => s.push_str(t),
            Content::Date(t) => s.push_str(&format!("<{}>", t.secs)),
            Content::DateRange(a, b) => {
                s.push_str(&format!("<{}/{}>", a.secs, b.map(|t| t.secs.to_string()).unwrap_or_default()))
            }
        }
    }
    s
}

fn texts(lines: &[StyledLine]) -> Vec<String> {
    lines.iter().map(text_of).collect()
}

fn sample() -> Store {
    let mut a = Item::new_task_at(1, "write report".to_string(), "Work".to_string(), at(30));
    a.priority = Some(Priority::High);
    let b = Item::new_note_at(2, "wifi".to_string(), "Home".to_string(), at(20));
    let mut c = Item::new_task_at(3, "buy milk".to_string(), "Home".to_string(), at(10));
    c.mark_done_at(at(40));
    let d = Item::new_task_at(4, "call mom".to_string(), "Home".to_string(), at(10));
    let mut e = Item::new_task_at(5, "old".to_string(), "Attic".to_string(), at(5));
    e.archived = true;
    Store { items: vec![a, b, c, d, e], next_id: 6, default_board: None }
}

#[test]
fn tasks_grouped_by_board_in_name_order() {
    let s = sample();
    let active = active_items(&s);
    let boards = group_tasks_by_board(&active);
    let names: Vec<&str> = boards.iter().map(|b| b.name.as_str()).collect();
    assert_eq!(names, vec!["Home", "Work"]);
    assert_eq!((boards[0].done, boards[0].total), (1, 2));
    assert_eq!(boards[0].items.iter().map(|i| i.id).collect::<Vec<_>>(), vec![3, 4]);
    assert_eq!((boards[1].done, boards[1].total), (0, 1));
}

#[test]
fn board_names_order_by_code_point() {
    let items = vec![
        Item::new_task_at(1, "a".to_string(), "b".to_string(), at(1)),
        Item::new_task_at(2, "a".to_string(), "B".to_string(), at(1)),
        Item::new_task_at(3, "a".to_string(), "ab".to_string(), at(1)),
        Item::new_task_at(4, "a".to_string(), "a".to_string(), at(1)),
        Item::new_task_at(5, "a".to_string(), "é".to_string(), at(1)),
        Item::new_task_at(6, "a".to_string(), "b".to_string(), at(1)),
    ];
    let refs: Vec<&Item> = items.iter().collect();
    let boards = group_tasks_by_board(&refs);
    let names: Vec<String> = boards.iter().map(|b| b.name.clone()).collect();
    let mut expected: Vec<String> = items.iter().map(|i| i.board.clone()).collect();
    expected.sort();
    expected.dedup();
    assert_eq!(names, expected);
    assert_eq!(boards[3].items.iter().map(|i| i.id).collect::<Vec<_>>(), vec![1, 6]);
}

#[test]
fn every_active_task_lands_in_one_board() {
    let s = sample();
    let active = active_items(&s);
    let boards = group_tasks_by_board(&active);
    let sum: usize = boards.iter().map(|b| b.total).sum();
    assert_eq!(sum, 3);
}

#[test]
fn notes_and_all_grouping() {
    let s = sample();
    let active = active_items(&s);
    let notes = group_notes_by_board(&active);
    assert_eq!(notes.len(), 1);
    assert_eq!(notes[0].0, "Home");
    assert_eq!(notes[0].1.len(), 1);
    let all = group_all_by_board(&active);
    assert_eq!(all.len(), 2);
    assert_eq!((all[0].name.as_str(), all[0].done, all[0].total, all[0].items.len()), ("Home", 1, 2, 3));
}

#[test]
fn wrap_text_breaks_at_spaces() {
    assert_eq!(wrap_text("hello world foo", 7), vec!["hello", "world", "foo"]);
    assert_eq!(wrap_text("short", 10), vec!["short"]);
    assert_eq!(wrap_text("anything at all", 0), vec!["anything at all"]);
    assert_eq!(wrap_text("abcdefghij", 4), vec!["abcd", "efgh", "ij"]);
    assert_eq!(wrap_text("ab  cd ef", 3), vec!["ab", "cd", "ef"]);
}

#[test]
fn wrap_text_lines_fit() {
    let text = "the quick brown fox jumps over the lazy dog again and again";
    for w in 1..20 {
        let lines = wrap_text(text, w);
        assert!(!lines.is_empty());
        for l in &lines {
            assert!(l.chars().count() <= w);
        }
    }
}

#[test]
fn item_line_layout() {
    let s = sample();
    let line = format_item_line(&s.items[0], false);
    let padding = " ".repeat(60 - 11 - "write report".len());
    assert_eq!(text_of(&line), format!("  ● {:>3} · write report{}HIGH", 1, padding));
    let done = format_item_line(&s.items[2], true);
    assert!(text_of(&done).starts_with("▶ ✔   3 · buy milk"));
    assert!(text_of(&done).ends_with("<40>"));
    assert_eq!(done.spans[5].style.crossed_out, true);
    assert_eq!(done.spans[5].style.color, Color::Green);
    let note = format_item_line(&s.items[1], false);
    assert_eq!(text_of(&note), "  ◆   2 · wifi");
}

#[test]
fn item_line_padding_is_at_least_two() {
    let long = "x".repeat(70);
    let mut it = Item::new_task_at(1, long.clone(), "B".to_string(), at(1));
    it.priority = Some(Priority::Low);
    assert_eq!(text_of(&format_item_line(&it, false)), format!("  ●   1 · {}  LOW", long));
}

#[test]
fn tasks_report_summary() {
    let s = sample();
    let lines = texts(&tasks_report(&s));
    assert_eq!(lines[0], "");
    assert_eq!(lines[1], "  Home [1/2]");
    assert_eq!(lines.last().unwrap(), "  33% of 3 tasks done · across 2 boards");
    assert_eq!(lines[lines.len() - 2], format!("  {}", "─".repeat(57)));
}

#[test]
fn empty_reports() {
    let s = Store::fresh();
    assert_eq!(texts(&tasks_report(&s)), vec!["No tasks found."]);
    assert_eq!(texts(&notes_report(&s)), vec!["No notes found."]);
    assert_eq!(texts(&all_report(&s)), vec!["No items found."]);
    assert_eq!(texts(&timeline_report(&s)), vec!["No tasks found."]);
}

#[test]
fn notes_and_all_reports() {
    let s = sample();
    let notes = texts(&notes_report(&s));
    assert_eq!(notes[1], "  Home");
    assert_eq!(notes.last().unwrap(), "  1 note · across 1 board");
    let all = texts(&all_report(&s));
    assert_eq!(all[1], "  Home [1/2]");
}

#[test]
fn timeline_is_stable_by_creation() {
    let s = sample();
    let lines = texts(&timeline_report(&s));
    assert_eq!(lines[1], "  Timeline");
    assert!(lines[2].contains("buy milk"));
    assert!(lines[3].contains("call mom"));
    assert!(lines[4].contains("write report"));
    assert_eq!(lines.last().unwrap(), "  3 tasks");
}

#[test]
fn board_report_ignores_case() {
    let s = sample();
    let lines = texts(&board_report(&s, "hOmE").unwrap());
    assert_eq!(lines[1], "  Home [1/2]");
    assert_eq!(board_report(&s, "Garden").err(), Some("Board 'Garden' not found.".to_string()));
    assert!(board_report(&s, "Attic").is_err());
}

#[test]
fn selectable_ids_follow_display_order() {
    let s = sample();
    assert_eq!(build_selectable(&s), vec![3, 4, 1]);
    assert_eq!(build_archive_selectable(&s), vec![5]);
}

#[test]
fn cursor_moves_stay_in_range() {
    let mut st = TuiState::new(vec![3, 4, 1]);
    assert_eq!(st.selected_id(), Some(3));
    st.move_up();
    assert_eq!(st.cursor, 0);
    st.move_down();
    st.move_down();
    st.move_down();
    assert_eq!(st.cursor, 2);
    assert_eq!(st.selected_id(), Some(1));
    let mut empty = TuiState::new(vec![]);
    empty.move_down();
    assert_eq!(empty.selected_id(), None);
    st.refresh(vec![8]);
    assert_eq!(st.cursor, 0);
}

#[test]
fn task_view_keys() {
    let mut s = sample();
    let mut st = TuiState::new(build_selectable(&s));
    assert!(matches!(handle_task_key(&mut st, &mut s, Key::Down), TuiAction::Stay));
    assert_eq!(st.selected_id(), Some(4));
    assert!(matches!(handle_task_key_at(&mut st, &mut s, Key::Enter, at(77)), TuiAction::Save));
    assert_eq!(s.items[3].status, Status::Done);
    assert_eq!(s.items[3].completed_at, Some(at(77)));
    assert!(matches!(handle_task_key(&mut st, &mut s, Key::Char(' ')), TuiAction::Save));
    assert_eq!(s.items[3].status, Status::Pending);
    match handle_task_key(&mut st, &mut s, Key::Char('e')) {
        TuiAction::Edit { id, current } => assert_eq!((id, current.as_str()), (4, "call mom")),
        _ => panic!("expected an edit"),
    }
    assert!(matches!(handle_task_key(&mut st, &mut s, Key::Char('p')), TuiAction::Stay));
    assert_eq!(st.mode, InputMode::PrioritySelect);
    assert!(matches!(handle_task_key(&mut st, &mut s, Key::Char('z')), TuiAction::Stay));
    assert_eq!(st.mode, InputMode::PrioritySelect);
    assert!(matches!(handle_task_key(&mut st, &mut s, Key::Char('m')), TuiAction::Save));
    assert_eq!(st.mode, InputMode::Normal);
    assert_eq!(s.items[3].priority, Some(Priority::Medium));
    assert!(matches!(handle_task_key(&mut st, &mut s, Key::Char('d')), TuiAction::Save));
    assert!(s.items[3].archived);
    assert_eq!(st.selectable, vec![3, 1]);
    assert_eq!(st.cursor, 1);
    assert!(matches!(handle_task_key(&mut st, &mut s, Key::Esc), TuiAction::Quit));
    assert!(matches!(handle_task_key(&mut st, &mut s, Key::Char('q')), TuiAction::Quit));
}

#[test]
fn priority_select_escape_cancels() {
    let mut s = sample();
    let mut st = TuiState::new(build_selectable(&s));
    handle_task_key(&mut st, &mut s, Key::Char('p'));
    assert!(matches!(handle_task_key(&mut st, &mut s, Key::Esc), TuiAction::Stay));
    assert_eq!(st.mode, InputMode::Normal);
    assert_eq!(s.items[2].priority, None);
}

#[test]
fn finish_edit_rules() {
    let mut s = sample();
    let cur = "call mom".to_string();
    assert!(!finish_edit(&mut s, 4, &cur, None));
    assert!(!finish_edit(&mut s, 4, &cur, Some("   ".to_string())));
    assert!(!finish_edit(&mut s, 4, &cur, Some(" call mom ".to_string())));
    assert!(finish_edit(&mut s, 4, &cur, Some(" call dad ".to_string())));
    assert_eq!(s.items[3].description, "call dad");
}

#[test]
fn archive_view_keys() {
    let mut s = sample();
    s.items[0].archived = true;
    let mut st = TuiState::new(build_archive_selectable(&s));
    assert_eq!(st.selectable, vec![1, 5]);
    st.move_down();
    assert!(matches!(handle_archive_key(&mut st, &mut s, Key::Char('r')), TuiAction::Save));
    assert!(!s.items[4].archived);
    assert_eq!(st.selectable, vec![1]);
    assert_eq!(st.cursor, 0);
    assert!(matches!(handle_archive_key(&mut st, &mut s, Key::Char('x')), TuiAction::Save));
    assert_eq!(s.items.len(), 4);
    assert!(st.selectable.is_empty());
    assert!(matches!(handle_archive_key(&mut st, &mut s, Key::Char('x')), TuiAction::Stay));
}

#[test]
fn task_view_loop_keeps_selection() {
    let mut s = sample();
    let ids: Vec<u32> = s.items.iter().map(|i| i.id).collect();
    let mut st = TuiState::new(build_selectable(&s));
    let keys = [
        Key::Down,
        Key::Enter,
        Key::Char('e'),
        Key::Char('p'),
        Key::Char('h'),
        Key::Char('d'),
        Key::Down,
        Key::Down,
        Key::Char(' '),
        Key::Char('d'),
        Key::Up,
        Key::Char('d'),
        Key::Char('d'),
    ];
    for (n, key) in keys.iter().enumerate() {
        let action = handle_task_key_at(&mut st, &mut s, *key, at(100 + n as i64));
        if let TuiAction::Edit { id, current } = action {
            finish_edit(&mut s, id, &current, Some("  renamed  ".to_string()));
        }
        assert_eq!(st.selectable, build_selectable(&s));
        assert!(st.selectable.is_empty() || st.cursor < st.selectable.len());
        assert_eq!(s.items.iter().map(|i| i.id).collect::<Vec<u32>>(), ids);
        assert_eq!(s.next_id, 6);
        assert_eq!(s.default_board, None);
    }
    assert!(st.selectable.is_empty());
    assert!(s.items.iter().any(|i| i.description == "renamed"));
}

#[test]
fn archive_cursor_follows_screen_order() {
    let mut items = Vec::new();
    for (id, board) in [(1u32, "Zeta"), (2, "Alpha"), (3, "Zeta")] {
        let mut it = Item::new_task_at(id, "x".to_string(), board.to_string(), at(id as i64));
        it.archived = true;
        items.push(it);
    }
    let mut s = Store { items, next_id: 4, default_board: None };
    let mut st = TuiState::new(build_archive_selectable(&s));
    assert_eq!(st.selectable, vec![1, 3, 2]);
    let t = texts(&render_archive_lines(&s, st.selected_id(), 80));
    let shown: Vec<&String> = t.iter().filter(|l| l.ends_with(">x")).collect();
    assert_eq!(shown.len(), 3);
    assert!(shown[0].starts_with("▶   1"));
    assert!(shown[1].starts_with("    3"));
    assert!(shown[2].starts_with("    2"));
    assert!(matches!(handle_archive_key(&mut st, &mut s, Key::Down), TuiAction::Stay));
    assert_eq!(st.selected_id(), Some(3));
    let t = texts(&render_archive_lines(&s, st.selected_id(), 80));
    let shown: Vec<&String> = t.iter().filter(|l| l.ends_with(">x")).collect();
    assert!(shown[1].starts_with("▶   3"));
    assert!(matches!(handle_archive_key(&mut st, &mut s, Key::Char('j')), TuiAction::Stay));
    assert_eq!(st.selected_id(), Some(2));
}

#[test]
fn task_view_lines() {
    let s = sample();
    let st = TuiState::new(build_selectable(&s));
    let lines = render_lines(&s, &st, 100);
    let t = texts(&lines);
    assert_eq!(t[0], "  Home [1/2]");
    assert_eq!(t[1], "  ID    PRIORITY CREATED/DONE           DESCRIPTION");
    assert_eq!(t[2], format!("  {}", "─".repeat(53)));
    assert_eq!(t[3], "▶   3 ✔          <10/40>buy milk");
    assert!(lines[3].highlighted);
    assert!(!lines[4].highlighted);
    assert_eq!(t[5], "");
    assert_eq!(t[9], "    1 ● HIGH     <30/>write report");
}

#[test]
fn task_view_wraps_descriptions() {
    let s = Store {
        items: vec![Item::new_task_at(1, "aaaa bbbb cccc".to_string(), "B".to_string(), at(1))],
        next_id: 2,
        default_board: None,
    };
    let st = TuiState::new(build_selectable(&s));
    let t = texts(&render_lines(&s, &st, 45));
    assert!(t[3].ends_with("aaaa"));
    assert_eq!(t[4], format!("{}bbbb", " ".repeat(40)));
    assert_eq!(t[5], format!("{}cccc", " ".repeat(40)));
}

#[test]
fn archive_view_lines() {
    let s = Store::fresh();
    assert_eq!(texts(&render_archive_lines(&s, None, 80)), vec!["  Archive is empty."]);
    let s = sample();
    let t = texts(&render_archive_lines(&s, Some(5), 80));
    assert_eq!(t[0], "  Attic");
    assert_eq!(t[3], "▶   5 ●          <5/>old");
}

#[test]
fn footer_and_hints() {
    let mut st = TuiState::new(vec![]);
    let (sep, hints) = render_footer(&st);
    assert_eq!(text_of(&sep), format!("  {}", "─".repeat(57)));
    assert_eq!(text_of(&hints), "  [↑↓] move  [Enter] done/undone  [e] edit  [p] priority  [d] delete  [q] quit");
    st.mode = InputMode::PrioritySelect;
    let (_, hints) = render_footer(&st);
    assert_eq!(text_of(&hints), "  Priority: [n] NONE  [l] LOW  [m] MEDIUM  [h] HIGH  [Esc] cancel");
    assert_eq!(text_of(&hint_line(&[("[a]", " b")])), "  [a] b");
    assert_eq!(text_of(&col_header_line()), "  ID    PRIORITY CREATED/DONE           DESCRIPTION");
    assert_eq!(text_of(&separator_line()).chars().count(), 55);
}

#[test]
fn priority_colors() {
    assert_eq!(priority_colored(&Priority::High).style.color, Color::Red);
    assert!(priority_colored(&Priority::High).style.bold);
    assert_eq!(priority_colored(&Priority::Medium).style.color, Color::Yellow);
    assert!(priority_colored(&Priority::Medium).style.bold);
    assert_eq!(priority_colored(&Priority::Low).style.color, Color::Cyan);
    assert!(!priority_colored(&Priority::Low).style.bold);
}

#[test]
fn grouping_is_deterministic() {
    let s = sample();
    let active = active_items(&s);
    let a: Vec<String> = group_all_by_board(&active).iter().map(|b| b.name.clone()).collect();
    let mut reversed: Vec<&Item> = active.clone();
    reversed.reverse();
    let b: Vec<String> = group_all_by_board(&reversed).iter().map(|b| b.name.clone()).collect();
    assert_eq!(a, b);
}
