use todoish::board::{Board, ItemOp, ListOp, SAVE_INTERVAL};
use todoish::model::{EditState, Item, List, TodoError};
use todoish::store::{decode_document, load, save};
use todoish::text::trim;

fn bytes(s: &str) -> Vec<u8> {
    s.as_bytes().to_vec()
}

#[test]
fn trim_strips_ascii_whitespace() {
    assert_eq!(trim(&bytes("  groceries  ")), bytes("groceries"));
    assert_eq!(trim(&bytes("\t a b \r\n")), bytes("a b"));
    assert_eq!(trim(&bytes("   ")), bytes(""));
    assert_eq!(trim(&bytes("")), bytes(""));
    assert_eq!(trim(&bytes("x")), bytes("x"));
}

#[test]
fn item_new_trims_and_starts_clean() {
    let it = Item::new(bytes("  groceries  "));
    assert_eq!(it.name, bytes("groceries"));
    assert!(!it.is_done);
    assert!(!it.is_important);
    assert_eq!(it.edit_state, EditState::Viewing);
    assert!(!it.focus_requested);
}

#[test]
fn item_edit_cycle() {
    let mut it = Item::new(bytes("a"));
    it.begin_edit();
    assert_eq!(it.edit_state, EditState::Editing);
    assert!(it.focus_requested);
    it.begin_edit();
    assert_eq!(it.edit_state, EditState::Editing);
    it.commit_edit(bytes("  b  "));
    assert_eq!(it.name, bytes("b"));
    assert_eq!(it.edit_state, EditState::Viewing);
    assert!(!it.focus_requested);
}

#[test]
fn item_toggles() {
    let mut it = Item::new(bytes("a"));
    it.toggle_done();
    assert!(it.is_done);
    it.toggle_done();
    assert!(!it.is_done);
    it.toggle_important();
    assert!(it.is_important);
}

#[test]
fn list_new_is_open_and_empty() {
    let l = List::new(bytes("  Home  "));
    assert_eq!(l.name, bytes("Home"));
    assert!(l.items.is_empty());
    assert!(l.is_open);
    assert_eq!(l.edit_state, EditState::Viewing);
    assert!(l.pending_new_item_text.is_empty());
}

#[test]
fn add_item_trims_and_ignores_blank() {
    let mut l = List::new(bytes("Home"));
    assert!(l.add_item(bytes("  groceries  ")));
    assert_eq!(l.items.len(), 1);
    assert_eq!(l.items[0].name, bytes("groceries"));
    assert!(!l.add_item(bytes("   ")));
    assert_eq!(l.items.len(), 1);
    assert!(!l.add_item(bytes("")));
    assert_eq!(l.items.len(), 1);
}

#[test]
fn remove_item_is_stable() {
    let mut l = List::new(bytes("Home"));
    assert!(l.add_item(bytes("a")));
    assert!(l.add_item(bytes("b")));
    assert!(l.add_item(bytes("c")));
    assert_eq!(l.remove_item(1), Ok(()));
    assert_eq!(l.items.len(), 2);
    assert_eq!(l.items[0].name, bytes("a"));
    assert_eq!(l.items[1].name, bytes("c"));
}

#[test]
fn remove_item_out_of_range_leaves_list_unmodified() {
    let mut l = List::new(bytes("Home"));
    assert!(l.add_item(bytes("a")));
    assert!(l.add_item(bytes("b")));
    assert!(l.add_item(bytes("c")));
    assert_eq!(l.remove_item(5), Err(TodoError::OutOfRange));
    assert_eq!(l.items.len(), 3);
    assert_eq!(l.items[0].name, bytes("a"));
    assert_eq!(l.items[1].name, bytes("b"));
    assert_eq!(l.items[2].name, bytes("c"));
}

#[test]
fn list_toggle_open_and_edit() {
    let mut l = List::new(bytes("Home"));
    l.toggle_open();
    assert!(!l.is_open);
    l.toggle_open();
    assert!(l.is_open);
    l.begin_edit();
    assert_eq!(l.edit_state, EditState::Editing);
    l.commit_edit(bytes(" Work "));
    assert_eq!(l.name, bytes("Work"));
    assert_eq!(l.edit_state, EditState::Viewing);
}

#[test]
fn add_list_trims_and_ignores_blank() {
    let mut b = Board::new(0);
    assert!(b.add_list(bytes("  Home  ")));
    assert_eq!(b.lists.len(), 1);
    assert_eq!(b.lists[0].name, bytes("Home"));
    assert!(b.dirty);
    assert!(!b.add_list(bytes("   ")));
    assert_eq!(b.lists.len(), 1);
}

#[test]
fn remove_list_swaps_in_the_last_list() {
    let mut b = Board::new(0);
    assert!(b.add_list(bytes("A")));
    assert!(b.add_list(bytes("B")));
    assert!(b.add_list(bytes("C")));
    assert_eq!(b.remove_list(0), Ok(()));
    // The delete is a swap delete: the last list takes the freed slot, so
    // the surviving order is not first-in-first-out.
    assert_eq!(b.lists.len(), 2);
    assert_eq!(b.lists[0].name, bytes("C"));
    assert_eq!(b.lists[1].name, bytes("B"));
}

#[test]
fn remove_list_out_of_range() {
    let mut b = Board::new(0);
    assert!(b.add_list(bytes("A")));
    assert_eq!(b.remove_list(1), Err(TodoError::OutOfRange));
    assert_eq!(b.lists.len(), 1);
    assert_eq!(b.lists[0].name, bytes("A"));
}

#[test]
fn mutate_item_routes_and_checks_indices() {
    let mut b = Board::new(0);
    assert!(b.add_list(bytes("Home")));
    assert_eq!(b.mutate_list(0, ListOp::AddItem(bytes("milk"))), Ok(()));
    assert_eq!(b.mutate_item(0, 0, ItemOp::ToggleDone), Ok(()));
    assert!(b.lists[0].items[0].is_done);
    assert_eq!(b.mutate_item(0, 0, ItemOp::ToggleImportant), Ok(()));
    assert!(b.lists[0].items[0].is_important);
    assert_eq!(b.mutate_item(0, 0, ItemOp::CommitEdit(bytes(" eggs "))), Ok(()));
    assert_eq!(b.lists[0].items[0].name, bytes("eggs"));
    assert_eq!(b.mutate_item(0, 1, ItemOp::ToggleDone), Err(TodoError::OutOfRange));
    assert_eq!(b.mutate_item(1, 0, ItemOp::ToggleDone), Err(TodoError::OutOfRange));
}

#[test]
fn mutate_list_routes_and_checks_indices() {
    let mut b = Board::new(0);
    assert!(b.add_list(bytes("Home")));
    assert_eq!(b.mutate_list(0, ListOp::AddItem(bytes("a"))), Ok(()));
    assert_eq!(b.mutate_list(0, ListOp::AddItem(bytes("  "))), Ok(()));
    assert_eq!(b.lists[0].items.len(), 1);
    assert_eq!(b.mutate_list(0, ListOp::ToggleOpen), Ok(()));
    assert!(!b.lists[0].is_open);
    assert_eq!(b.mutate_list(0, ListOp::CommitEdit(bytes("Work"))), Ok(()));
    assert_eq!(b.lists[0].name, bytes("Work"));
    assert_eq!(b.mutate_list(0, ListOp::RemoveItem(3)), Err(TodoError::OutOfRange));
    assert_eq!(b.lists[0].items.len(), 1);
    assert_eq!(b.mutate_list(0, ListOp::RemoveItem(0)), Ok(()));
    assert_eq!(b.lists[0].items.len(), 0);
    assert_eq!(b.mutate_list(1, ListOp::ToggleOpen), Err(TodoError::OutOfRange));
}

#[test]
fn begin_edit_does_not_dirty_the_board() {
    let mut b = Board::new(0);
    assert!(b.add_list(bytes("Home")));
    assert_eq!(b.mutate_list(0, ListOp::AddItem(bytes("a"))), Ok(()));
    let _ = b.tick(SAVE_INTERVAL);
    assert!(!b.dirty);
    assert_eq!(b.mutate_list(0, ListOp::BeginEdit), Ok(()));
    assert_eq!(b.mutate_item(0, 0, ItemOp::BeginEdit), Ok(()));
    assert_eq!(b.mutate_list(0, ListOp::ToggleOpen), Ok(()));
    assert!(!b.dirty);
}

#[test]
fn tick_on_clean_board_does_nothing() {
    let mut b = Board::new(7);
    assert!(b.tick(100).is_none());
    assert_eq!(b.last_save_time, 7);
    assert!(!b.dirty);
}

#[test]
fn tick_debounces_to_one_save_per_window() {
    let mut b = Board::new(0);
    // First mutation one time unit in, a second one a time unit later,
    // ticking every cycle: exactly one save comes out of the window.
    assert!(b.add_list(bytes("A")));
    assert!(b.tick(1).is_none());
    assert_eq!(b.mutate_list(0, ListOp::AddItem(bytes("x"))), Ok(()));
    assert!(b.tick(2).is_none());
    let snap = b.tick(3);
    assert!(snap.is_some());
    assert!(!b.dirty);
    assert_eq!(b.last_save_time, 3);
    assert!(b.tick(4).is_none());
    assert!(b.tick(5).is_none());
    // A mutation inside the next window waits for the interval again.
    assert_eq!(b.mutate_item(0, 0, ItemOp::ToggleDone), Ok(()));
    assert!(b.tick(5).is_none());
    assert!(b.tick(6).is_some());
}

#[test]
fn dispatch_failure_restores_dirty() {
    let mut b = Board::new(0);
    assert!(b.add_list(bytes("A")));
    assert!(b.tick(3).is_some());
    assert!(!b.dirty);
    b.dispatch_failed();
    assert!(b.dirty);
    assert_eq!(b.last_save_time, 3);
}

#[test]
fn scenario_add_toggle_tick_persists_the_document() {
    let mut b = Board::new(0);
    assert!(b.add_list(bytes("Home")));
    assert_eq!(b.mutate_list(0, ListOp::AddItem(bytes("Buy milk"))), Ok(()));
    assert_eq!(b.mutate_item(0, 0, ItemOp::ToggleDone), Ok(()));
    assert!(b.lists[0].items[0].is_done);
    assert!(b.dirty);
    let snap = b.tick(3).expect("a save is due");
    assert!(!b.dirty);
    let doc = save(&snap);
    assert_eq!(
        doc,
        bytes(r#"[{"name":"Home","items":[{"name":"Buy milk","is_done":true,"is_important":false}]}]"#)
    );
}

#[test]
fn from_lists_starts_clean() {
    let doc = bytes(r#"[{"name":"Home","items":[{"name":"a","is_done":true,"is_important":false}]}]"#);
    let lists = load(Some(&doc)).expect("loads");
    let b = Board::from_lists(lists, 42);
    assert!(!b.dirty);
    assert_eq!(b.last_save_time, 42);
    assert_eq!(b.lists.len(), 1);
    assert!(b.lists[0].items[0].is_done);
    assert!(b.pending_new_list_text.is_empty());
}

#[test]
fn snapshot_carries_persisted_state_only() {
    let mut b = Board::new(0);
    assert!(b.add_list(bytes("Home")));
    assert_eq!(b.mutate_list(0, ListOp::AddItem(bytes("a"))), Ok(()));
    assert_eq!(b.mutate_list(0, ListOp::BeginEdit), Ok(()));
    assert_eq!(b.mutate_list(0, ListOp::ToggleOpen), Ok(()));
    let snap = b.tick(3).expect("a save is due");
    // The snapshot has the same document but fresh view state.
    assert_eq!(snap[0].name, bytes("Home"));
    assert_eq!(snap[0].items[0].name, bytes("a"));
    assert_eq!(snap[0].edit_state, EditState::Viewing);
    assert!(snap[0].is_open);
    // The live board keeps its view state.
    assert_eq!(b.lists[0].edit_state, EditState::Editing);
    assert!(!b.lists[0].is_open);
}

#[test]
fn save_empty_collection() {
    let lists: Vec<List> = Vec::new();
    assert_eq!(save(&lists), bytes("[]"));
}

#[test]
fn round_trip_plain() {
    let mut b = Board::new(0);
    assert!(b.add_list(bytes("Home")));
    assert!(b.add_list(bytes("Work")));
    assert_eq!(b.mutate_list(0, ListOp::AddItem(bytes("Buy milk"))), Ok(()));
    assert_eq!(b.mutate_list(0, ListOp::AddItem(bytes("Walk dog"))), Ok(()));
    assert_eq!(b.mutate_item(0, 1, ItemOp::ToggleImportant), Ok(()));
    let doc = save(&b.lists);
    let loaded = load(Some(&doc)).expect("the saved document loads");
    assert_eq!(loaded.len(), 2);
    assert_eq!(loaded[0].name, bytes("Home"));
    assert_eq!(loaded[1].name, bytes("Work"));
    assert_eq!(loaded[0].items.len(), 2);
    assert_eq!(loaded[0].items[0].name, bytes("Buy milk"));
    assert!(!loaded[0].items[0].is_done);
    assert!(!loaded[0].items[0].is_important);
    assert_eq!(loaded[0].items[1].name, bytes("Walk dog"));
    assert!(loaded[0].items[1].is_important);
    assert!(loaded[1].items.is_empty());
    // Loaded lists come up with fresh view state.
    assert!(loaded[0].is_open);
    assert_eq!(loaded[0].edit_state, EditState::Viewing);
}

#[test]
fn round_trip_escaped_names() {
    let mut l = List::new(bytes("quotes \" and \\ and\ttabs"));
    assert!(l.add_item(bytes("line\u{1}feed embedded")));
    let lists = vec![l];
    let doc = save(&lists);
    let loaded = load(Some(&doc)).expect("the saved document loads");
    assert_eq!(loaded[0].name, bytes("quotes \" and \\ and\ttabs"));
    assert_eq!(loaded[0].items[0].name, bytes("line\u{1}feed embedded"));
}

#[test]
fn round_trip_non_ascii_names() {
    let lists = vec![List::new(bytes("grüne Äpfel — 林檎"))];
    let doc = save(&lists);
    let loaded = load(Some(&doc)).expect("the saved document loads");
    assert_eq!(loaded[0].name, bytes("grüne Äpfel — 林檎"));
}

#[test]
fn load_absent_file_means_empty_collection() {
    let loaded = load(None).expect("first run loads an empty collection");
    assert!(loaded.is_empty());
}

#[test]
fn load_empty_array() {
    let loaded = load(Some(&bytes("[]"))).expect("an empty document loads");
    assert!(loaded.is_empty());
}

#[test]
fn load_rejects_malformed_documents() {
    assert!(load(Some(&bytes(""))).is_none());
    assert!(load(Some(&bytes("{"))).is_none());
    assert!(load(Some(&bytes("[]x"))).is_none());
    assert!(load(Some(&bytes("[{\"name\":\"a\",\"items\":[]}"))).is_none());
    assert!(load(Some(&bytes("[{\"name\":\"a\"}]"))).is_none());
    assert!(load(Some(&bytes("[{\"name\":\"a\",\"items\":[]},]"))).is_none());
    assert!(decode_document(&bytes("null")).is_none());
}

#[test]
fn load_accepts_escapes_the_encoder_does_not_emit() {
    let loaded = load(Some(&bytes(r#"[{"name":"a\tb\u000ac\/d","items":[]}]"#)))
        .expect("short and unicode escapes load");
    assert_eq!(loaded[0].name, bytes("a\tb\nc/d"));
}

#[test]
fn item_flags_survive_the_document() {
    let mut l = List::new(bytes("L"));
    assert!(l.add_item(bytes("a")));
    assert!(l.add_item(bytes("b")));
    l.items[0].toggle_done();
    l.items[1].toggle_important();
    let lists = vec![l];
    let doc = save(&lists);
    assert_eq!(
        doc,
        bytes(
            r#"[{"name":"L","items":[{"name":"a","is_done":true,"is_important":false},{"name":"b","is_done":false,"is_important":true}]}]"#
        )
    );
    let loaded = load(Some(&doc)).expect("loads");
    assert!(loaded[0].items[0].is_done);
    assert!(!loaded[0].items[0].is_important);
    assert!(!loaded[0].items[1].is_done);
    assert!(loaded[0].items[1].is_important);
}
