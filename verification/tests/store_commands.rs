use tasknote::commands::{
    add_item, apply_bulk, apply_bulk_at, board_for_new_item, clear_archive, count_applied,
    current_description, default_board_name, delete_item, edit_description, edited_description,
    set_default_board, set_priority, BulkAction, BulkOutcome, PriorityChange, DEFAULT_BOARD,
};
use tasknote::item::{Item, ItemType, Priority, Status, Timestamp};
use tasknote::store::{active_items, archived_items, find_item_index, find_item_mut, Store};

fn at(secs: i64) -> Timestamp {
    Timestamp { secs, nanos: 0 }
}

fn store_with(items: Vec<Item>, next_id: u32) -> Store {
    Store { items, next_id, default_board: None }
}

fn sample() -> Store {
    let mut a = Item::new_task_at(1, "write report".to_string(), "Work".to_string(), at(10));
    a.priority = Some(Priority::High);
    let b = Item::new_note_at(2, "wifi password".to_string(), "Home".to_string(), at(20));
    let mut c = Item::new_task_at(3, "buy milk".to_string(), "Home".to_string(), at(30));
    c.archived = true;
    store_with(vec![a, b, c], 4)
}

#[test]
fn fresh_store() {
    let s = Store::fresh();
    assert!(s.items.is_empty());
    assert_eq!(s.next_id, 1);
    assert!(s.default_board.is_none());
}

#[test]
fn next_id_hands_out_consecutive_ids() {
    let mut s = Store::fresh();
    assert_eq!(s.next_id(), 1);
    assert_eq!(s.next_id(), 2);
    assert_eq!(s.next_id, 3);
}

#[test]
fn new_items_are_pending() {
    let t = Item::new_task(5, "x".to_string(), "B".to_string());
    assert_eq!(t.id, 5);
    assert_eq!(t.item_type, ItemType::Task);
    assert_eq!(t.status, Status::Pending);
    assert!(t.priority.is_none() && t.completed_at.is_none() && !t.archived);
    let n = Item::new_note(6, "y".to_string(), "B".to_string());
    assert_eq!(n.item_type, ItemType::Note);
    assert_eq!(n.description, "y");
    assert_eq!(n.board, "B");
}

#[test]
fn mark_done_and_undone() {
    let mut t = Item::new_task_at(1, "x".to_string(), "B".to_string(), at(1));
    assert!(!t.is_done());
    t.mark_done();
    assert!(t.is_done());
    assert!(t.completed_at.is_some());
    t.mark_undone();
    assert!(!t.is_done());
    assert_eq!(t.status, Status::Pending);
    assert!(t.completed_at.is_none());
    t.mark_done_at(at(99));
    assert_eq!(t.completed_at, Some(at(99)));
}

#[test]
fn active_and_archived_items_split_the_store() {
    let s = sample();
    let active: Vec<u32> = active_items(&s).iter().map(|i| i.id).collect();
    let archived: Vec<u32> = archived_items(&s).iter().map(|i| i.id).collect();
    assert_eq!(active, vec![1, 2]);
    assert_eq!(archived, vec![3]);
}

#[test]
fn find_item_mut_changes_the_first_match() {
    let mut s = sample();
    s.items.push(Item::new_task_at(2, "duplicate".to_string(), "X".to_string(), at(1)));
    match find_item_mut(&mut s, 2) {
        Some(it) => it.board = "Moved".to_string(),
        None => panic!("not found"),
    }
    assert_eq!(s.items[1].board, "Moved");
    assert_eq!(s.items[3].board, "X");
    assert!(find_item_mut(&mut s, 77).is_none());
    assert_eq!(find_item_index(&s.items, 3), Some(2));
}

#[test]
fn default_board_falls_back_to_my_board() {
    let mut s = Store::fresh();
    assert_eq!(default_board_name(&s), "My Board");
    assert_eq!(DEFAULT_BOARD, "My Board");
    assert_eq!(board_for_new_item(&s, None), "My Board");
    set_default_board(&mut s, "Personal".to_string());
    assert_eq!(default_board_name(&s), "Personal");
    assert_eq!(board_for_new_item(&s, None), "Personal");
    assert_eq!(board_for_new_item(&s, Some("Work".to_string())), "Work");
}

#[test]
fn add_item_appends_with_next_id() {
    let mut s = Store::fresh();
    let (id, board) = add_item(&mut s, ItemType::Task, "Buy coffee".to_string(), None);
    assert_eq!((id, board.as_str()), (1, "My Board"));
    let (id2, board2) = add_item(&mut s, ItemType::Note, "link".to_string(), Some("Work".to_string()));
    assert_eq!((id2, board2.as_str()), (2, "Work"));
    assert_eq!(s.next_id, 3);
    assert_eq!(s.items.len(), 2);
    assert_eq!(s.items[1].item_type, ItemType::Note);
    assert_eq!(s.items[0].description, "Buy coffee");
}

#[test]
fn edit_flow() {
    let mut s = sample();
    assert_eq!(current_description(&s, 2).as_deref(), Some("wifi password"));
    assert_eq!(current_description(&s, 9), None);
    assert_eq!(edited_description("  new text \n").as_deref(), Some("new text"));
    assert_eq!(edited_description("   "), None);
    assert!(edit_description(&mut s, 2, "router key".to_string()));
    assert_eq!(s.items[1].description, "router key");
    assert!(!edit_description(&mut s, 9, "nothing".to_string()));
}

#[test]
fn set_priority_outcomes() {
    let mut s = sample();
    assert_eq!(set_priority(&mut s, 1, "urgent"), PriorityChange::InvalidLevel);
    assert_eq!(set_priority(&mut s, 9, "low"), PriorityChange::NotFound);
    assert_eq!(set_priority(&mut s, 9, "bogus"), PriorityChange::InvalidLevel);
    assert_eq!(set_priority(&mut s, 2, "Medium"), PriorityChange::Updated);
    assert_eq!(s.items[1].priority, Some(Priority::Medium));
    assert_eq!(set_priority(&mut s, 1, "none"), PriorityChange::Updated);
    assert_eq!(s.items[0].priority, None);
}

#[test]
fn mark_done_only_marks_tasks() {
    let mut s = sample();
    let out = apply_bulk_at(&mut s, &vec![1, 2, 9], &BulkAction::MarkDone, at(500));
    assert_eq!(out, vec![BulkOutcome::Applied, BulkOutcome::NotTask, BulkOutcome::NotFound]);
    assert_eq!(count_applied(&out), 1);
    assert_eq!(s.items[0].status, Status::Done);
    assert_eq!(s.items[0].completed_at, Some(at(500)));
    assert_eq!(s.items[1].status, Status::Pending);
}

#[test]
fn mark_undone_applies_to_notes_too() {
    let mut s = sample();
    apply_bulk(&mut s, &vec![1], &BulkAction::MarkDone);
    let out = apply_bulk(&mut s, &vec![1, 2], &BulkAction::MarkUndone);
    assert_eq!(count_applied(&out), 2);
    assert_eq!(s.items[0].status, Status::Pending);
    assert!(s.items[0].completed_at.is_none());
}

#[test]
fn move_archive_restore() {
    let mut s = sample();
    let out = apply_bulk(&mut s, &vec![1, 2], &BulkAction::MoveTo("Later".to_string()));
    assert_eq!(count_applied(&out), 2);
    assert_eq!(s.items[0].board, "Later");
    assert_eq!(s.items[1].board, "Later");
    apply_bulk(&mut s, &vec![1], &BulkAction::Archive);
    assert!(s.items[0].archived);
    apply_bulk(&mut s, &vec![1, 3], &BulkAction::Restore);
    assert!(!s.items[0].archived && !s.items[2].archived);
}

#[test]
fn restore_undoes_archive_on_values() {
    let mut s = sample();
    let before: Vec<bool> = s.items.iter().map(|i| i.archived).collect();
    apply_bulk(&mut s, &vec![2], &BulkAction::Archive);
    apply_bulk(&mut s, &vec![2], &BulkAction::Restore);
    let after: Vec<bool> = s.items.iter().map(|i| i.archived).collect();
    assert_eq!(before, after);
}

#[test]
fn clear_archive_removes_archived_items() {
    let mut s = sample();
    assert_eq!(clear_archive(&mut s), 1);
    assert_eq!(s.items.iter().map(|i| i.id).collect::<Vec<_>>(), vec![1, 2]);
    assert_eq!(clear_archive(&mut s), 0);
}

#[test]
fn delete_item_removes_every_item_with_the_id() {
    let mut s = sample();
    s.items.push(Item::new_note_at(2, "again".to_string(), "H".to_string(), at(1)));
    delete_item(&mut s, 2);
    assert_eq!(s.items.iter().map(|i| i.id).collect::<Vec<_>>(), vec![1, 3]);
}
