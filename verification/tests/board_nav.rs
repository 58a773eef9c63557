//! Moving over a board and editing it: the cursor, the add button, the inline
//! edit buffer, deleting and the undo history.

use arte::board::{activate, add_column, begin_delete, commit_board_edit, confirm_delete, item_counts, move_item, Activation};
use arte::edit::{Button, Edit};
use arte::history::History;
use arte::nav::{
    board_select_horiz, board_select_vert, cards_header_move, cards_select_horiz, cards_select_vert, header_col,
    on_add_button, on_header, selected_flat, Cursor,
};
use arte::protocol::{BoardColumn, Item};

fn col(header: &str, key: Option<&str>, items: &[&str]) -> BoardColumn {
    BoardColumn {
        header: header.to_string(),
        key: key.map(|k| k.to_string()),
        items: items.iter().map(|t| Item::new(t)).collect(),
    }
}

/// WHO [a, b] and JOBS [x].
fn board_app() -> Vec<BoardColumn> {
    vec![col("WHO", Some("who"), &["a", "b"]), col("JOBS", Some("jobs"), &["x"])]
}

fn who_items(cols: &[BoardColumn]) -> Vec<String> {
    cols[0].items.iter().map(|it| it.text.clone()).collect()
}

fn cur(col: usize, row: usize) -> Cursor {
    Cursor { col, row }
}

fn editing(a: Activation) -> Edit {
    match a {
        Activation::EditNew(e) | Activation::EditItem(e) => e,
        Activation::EditHeader { edit, .. } => edit,
        Activation::Press(_) => panic!("not editing"),
    }
}

#[test]
fn add_item_via_plus() {
    let mut cols = board_app();
    let c = cur(0, 3); // WHO "+" (2 items → row 3)
    let mut e = editing(activate(&cols, c));
    for ch in "new".chars() {
        e.edit_char(ch);
    }
    commit_board_edit(&mut cols, c, &e.buffer, "", false);
    assert_eq!(who_items(&cols), vec!["a", "b", "new"]);
}

#[test]
fn edit_existing_replaces_on_type() {
    let mut cols = board_app();
    let c = cur(0, 2); // WHO item "b"
    let mut e = match activate(&cols, c) {
        Activation::EditItem(e) => e,
        _ => panic!("not editing"),
    };
    assert!(e.select_all && e.buffer == "b");
    e.edit_char('Z');
    e.edit_char('z');
    let r = commit_board_edit(&mut cols, c, &e.buffer, "", false);
    assert_eq!(who_items(&cols), vec!["a", "Zz"]);
    assert_eq!(r.renamed, Some(("b".to_string(), "Zz".to_string())));
}

#[test]
fn edit_arrow_collapses_selection_then_inserts() {
    let mut cols = board_app();
    let c = cur(0, 1); // item "a"
    let mut e = editing(activate(&cols, c)); // select_all
    e.edit_right(); // collapse to end
    e.edit_char('!');
    commit_board_edit(&mut cols, c, &e.buffer, "", false);
    assert_eq!(who_items(&cols), vec!["a!", "b"]);
}

#[test]
fn delete_item_needs_confirm() {
    let mut cols = board_app();
    let c = cur(0, 2); // WHO item "b"
    assert!(begin_delete(&cols, c));
    confirm_delete(&mut cols, c);
    assert_eq!(who_items(&cols), vec!["a"]);
}

#[test]
fn keyboard_add_delete_column_with_undo() {
    let mut doc = vec![("s".to_string(), board_app())];
    let mut h = History::new();
    let c0 = doc[0].1.len();
    h.snapshot("s", &doc[0].1);
    let c = add_column(&mut doc[0].1);
    assert_eq!(doc[0].1.len(), c0 + 1);
    assert!(on_header(&item_counts(&doc[0].1), c)); // cursor on the new header
    assert!(h.undo(&mut doc));
    assert_eq!(doc[0].1.len(), c0);

    let c = cur(0, 0); // a header
    assert!(begin_delete(&doc[0].1, c));
    h.snapshot("s", &doc[0].1);
    confirm_delete(&mut doc[0].1, c);
    assert_eq!(doc[0].1.len(), c0 - 1);
    assert!(h.undo(&mut doc));
    assert_eq!(doc[0].1.len(), c0);
}

#[test]
fn header_two_section_edit() {
    let mut cols = board_app();
    let c = cur(0, 0); // header
    let (mut e, mut other) = match activate(&cols, c) {
        Activation::EditHeader { edit, prompt } => (edit, prompt),
        _ => panic!("not a header edit"),
    };
    for ch in "USERS".chars() {
        e.edit_char(ch);
    }
    e.switch_part(&mut other); // → prompt half
    for ch in "who decides".chars() {
        e.edit_char(ch);
    }
    commit_board_edit(&mut cols, c, &e.buffer, &other, true);
    assert_eq!(cols[0].header, "USERS — who decides");
}

#[test]
fn vertical_flows_into_next_pillar_skipping_header() {
    // One lane → WHO above JOBS in one grid column.
    // From WHO "+" (col0,row3), down → JOBS first item (col1,row1) — header skipped.
    let k = item_counts(&board_app());
    assert_eq!(board_select_vert(&k, 1, cur(0, 3), 1), cur(1, 1));
}

#[test]
fn vertical_loops_around_through_button() {
    // One lane: WHO[a,b] · JOBS[x] · button(col2). Bottom of the items
    // is JOBS "+" (col1,row2); below that is the button, then it loops.
    let k = item_counts(&board_app());
    let c = board_select_vert(&k, 1, cur(1, 2), 1);
    assert_eq!(c, cur(2, 0), "down → button");
    let c = board_select_vert(&k, 1, c, 1);
    assert_eq!(c, cur(0, 1), "button → loops to top");
    // up from the top first item wraps to the bottom of the lane = the button.
    let c = board_select_vert(&k, 1, c, -1);
    assert_eq!(c, cur(2, 0), "up loops to the button");
}

#[test]
fn cards_header_vert_walks_sections_in_order() {
    let cols: Vec<BoardColumn> = ["A", "B", "C", "D"].iter().map(|h| col(h, None, &["x"])).collect();
    let k = item_counts(&cols);
    let mut c = cur(0, 0); // section A's header
    // header→header in section order, not by the row width
    for expect in [1usize, 2, 3] {
        c = cards_header_move(&k, c, 1);
        assert!(on_header(&k, c), "lands on a header");
        assert_eq!(c.col, expect, "next section header in order");
    }
    c = cards_header_move(&k, c, 1);
    assert!(on_add_button(&k, c), "after the last section → add-card button");
    c = cards_header_move(&k, c, 1);
    assert_eq!(c.col, 0, "rolls back to the first section");
    // and upward is the reverse order
    let c = cards_header_move(&k, cur(2, 0), -1);
    assert_eq!(c.col, 1, "previous section header");
}

#[test]
fn cards_2d_nav_rows_sections_and_button() {
    let cols = vec![col("FE", None, &["A", "B", "C", "D"]), col("BE", None, &["X"])];
    let k = item_counts(&cols);
    let per_row = 2;
    // FE boxes wrap: [A B] [C D] [+] ; BE: [X +]
    let c = cards_select_horiz(&k, per_row, cur(0, 1), 1);
    assert_eq!(c, cur(0, 2), "l → B (next box)");
    let c = cards_select_vert(&k, per_row, c, 1);
    assert_eq!(c, cur(0, 4), "j → D (down a visual row)");
    let c = cards_select_vert(&k, per_row, c, 1);
    assert_eq!(c, cur(1, 2), "j off FE bottom → BE, same column");
    let c = cards_select_vert(&k, per_row, c, 1);
    assert!(on_add_button(&k, c), "j off the last section → add-card button");
    let c = cards_select_vert(&k, per_row, c, -1);
    assert_eq!(c, cur(1, 2), "k from button → last section's last box");

    // overflow loops around
    let c = cards_select_vert(&k, per_row, cur(2, 0), 1);
    assert_eq!(c, cur(0, 1), "down off button loops to first box");
    let c = cards_select_vert(&k, per_row, c, -1);
    assert!(on_add_button(&k, c), "up off the top loops to the button");
    // horizontal wraps within the current visual row
    let c = cards_select_horiz(&k, per_row, cur(0, 1), 1);
    assert_eq!(c, cur(0, 2), "l → B (end of row 0)");
    let c = cards_select_horiz(&k, per_row, c, 1);
    assert_eq!(c, cur(0, 1), "l wraps within row 0 → A");
    let c = cards_select_horiz(&k, per_row, c, -1);
    assert_eq!(c, cur(0, 2), "h wraps within row 0 → B");
    // a lone box on its own row (the "+") stays put horizontally
    let c = cards_select_horiz(&k, per_row, cur(0, 5), 1);
    assert_eq!(c, cur(0, 5), "lone box row → no horizontal move");
}

#[test]
fn button_is_a_grid_cell() {
    let k = item_counts(&board_app()); // 2 pillars → button at col 2
    assert!(!on_add_button(&k, cur(0, 1)));
    let b = cur(2, 0);
    assert!(on_add_button(&k, b));
    // not a header, no item selected
    assert!(!on_header(&k, b) && selected_flat(&k, b).is_none() && header_col(&k, b).is_none());
}

#[test]
fn button_press_and_enter_add_a_pillar() {
    let mut cols = board_app();
    let before = cols.len();
    add_column(&mut cols);
    assert_eq!(cols.len(), before + 1, "press adds");
    // Enter on the button (the new button slot) presses it.
    let c = cur(cols.len(), 0);
    match activate(&cols, c) {
        Activation::Press(Button::AddPillar) => {
            add_column(&mut cols);
        }
        _ => panic!("Enter on the button must press it"),
    }
    assert_eq!(cols.len(), before + 2, "Enter on button adds");
}

#[test]
fn button_ignores_delete_and_move() {
    let mut cols = board_app();
    let c = cur(2, 0); // button
    assert!(!begin_delete(&cols, c), "no delete on the button");
    let before = cols.len();
    assert_eq!(move_item(&mut cols, c, 1), None, "move_item is a no-op on the button");
    assert_eq!(cols.len(), before);
    assert!(on_add_button(&item_counts(&cols), c), "still on the button");
}

fn pillars(n: usize) -> Vec<BoardColumn> {
    (0..n)
        .map(|i| {
            let h = format!("P{i}");
            let it = format!("i{i}");
            col(&h, None, &[it.as_str()])
        })
        .collect()
}

#[test]
fn horiz_reaches_button_in_its_row() {
    // 3 pillars, 2 lanes → grid row 1 holds P2 (col2) and the button (col3).
    let k = item_counts(&pillars(3));
    let c = board_select_horiz(&k, 2, cur(2, 1), 1); // → button to its right
    assert!(on_add_button(&k, c), "h/l reaches the button in the same grid row");
}

#[test]
fn grid_horiz_and_below() {
    // 4 pillars, 2 grid columns: (0,1 top row) (2,3 next row).
    let k = item_counts(&pillars(4));
    let c = board_select_horiz(&k, 2, cur(0, 1), 1); // → P1 (right)
    assert_eq!(c.col, 1);
    let c = board_select_horiz(&k, 2, c, 1); // last in row → wrap to P0
    assert_eq!(c.col, 0);
    let c = board_select_vert(&k, 2, cur(0, 2), 1); // P0 "+" → P2 first item
    assert_eq!(c, cur(2, 1));
}

#[test]
fn delete_on_plus_is_noop() {
    let cols = board_app();
    assert!(!begin_delete(&cols, cur(0, 3))); // can't delete the add affordance
}

#[test]
fn move_item_then_back_restores_the_order() {
    let mut cols = board_app();
    let c = move_item(&mut cols, cur(0, 1), 1).expect("a moves down");
    assert_eq!(c, cur(0, 2));
    assert_eq!(who_items(&cols), vec!["b", "a"]);
    let c = move_item(&mut cols, c, -1).expect("a moves back up");
    assert_eq!(c, cur(0, 1));
    assert_eq!(who_items(&cols), vec!["a", "b"]);
}

#[test]
fn typing_then_backspace_leaves_the_field() {
    let mut e = Edit::prefilled("abc".to_string(), false);
    e.edit_left();
    e.edit_char('X');
    assert_eq!(e.buffer, "abXc");
    e.edit_backspace();
    assert_eq!(e.buffer, "abc");
    assert_eq!(e.cursor, 2);
}

#[test]
fn undo_then_redo_brings_the_edit_back() {
    let mut doc = vec![("s".to_string(), board_app())];
    let mut h = History::new();
    h.snapshot("s", &doc[0].1);
    add_column(&mut doc[0].1);
    assert!(h.undo(&mut doc));
    assert_eq!(doc[0].1.len(), 2);
    assert!(h.redo(&mut doc));
    assert_eq!(doc[0].1.len(), 3);
    assert!(!h.redo(&mut doc), "nothing left to redo");
}
