//! The key map driving a one-lane list board: WHO[a] · JOBS[x] · button.

use arte::board::{add_column, commit_inspector_edit, edit_selected, item_counts, ItemEdit};
use arte::edit::{InspectorMode, PageKind};
use arte::keys::{board_keys, handle_key, BoardAction, Key, KeyAction, KeyContext, KeyPress};
use arte::nav::{
    board_select_horiz, board_select_vert, focus_header, focus_items, header_move, header_vert, on_add_button,
    on_header, Cursor,
};
use arte::protocol::{BoardColumn, Item, Status};

fn board_app() -> Vec<BoardColumn> {
    vec![
        BoardColumn { header: "WHO".into(), key: Some("who".into()), items: vec![Item::new("a")] },
        BoardColumn { header: "JOBS".into(), key: Some("jobs".into()), items: vec![Item::new("x")] },
    ]
}

fn ctx(on_header: bool) -> KeyContext {
    KeyContext {
        confirm_quit: false,
        confirm_delete: false,
        editing: false,
        help: false,
        glossary: false,
        sheet: false,
        sheet_filter: false,
        search: false,
        browse: false,
        inspect: false,
        inspector: InspectorMode::Idle,
        panel: false,
        page: PageKind::Board,
        selected: true,
        on_header,
        panel_list_focus: false,
    }
}

fn plain(code: Key) -> KeyPress {
    KeyPress { code, ctrl: false, shift: false }
}

/// One key on the board: the cursor after it, and the board.
fn press(cols: &mut Vec<BoardColumn>, c: Cursor, k: KeyPress) -> Cursor {
    let items = item_counts(cols);
    match handle_key(ctx(on_header(&items, c)), k) {
        KeyAction::Board(a) => match a {
            BoardAction::SelectVert(d) => board_select_vert(&items, 1, c, d as isize),
            BoardAction::SelectHoriz(d) => board_select_horiz(&items, 1, c, d as isize),
            BoardAction::HeaderVert(d) => header_vert(&items, 1, c, d as isize),
            BoardAction::HeaderMove(d) => header_move(&items, c, d as isize),
            BoardAction::FocusHeader => focus_header(&items, c),
            BoardAction::FocusItems => focus_items(c),
            BoardAction::Activate if on_add_button(&items, c) => {
                add_column(cols);
                c
            }
            other => panic!("unexpected board action {other:?}"),
        },
        other => panic!("not a board key: {other:?}"),
    }
}

#[test]
fn k_never_hits_header_t_does() {
    let mut a = board_app();
    let c = press(&mut a, Cursor { col: 0, row: 1 }, plain(Key::Char('k')));
    assert!(!on_header(&item_counts(&a), c), "k must not reach the header");
    let c = press(&mut a, Cursor { col: 0, row: 1 }, plain(Key::Char('t')));
    assert!(on_header(&item_counts(&a), c), "t goes to the header");
}

#[test]
fn jk_walk_through_button() {
    let mut a = board_app();
    let mut c = Cursor { col: 0, row: 1 };
    // down: WHO+ , JOBS item, JOBS+ , button , loop to top
    for _ in 0..4 {
        c = press(&mut a, c, plain(Key::Char('j')));
    }
    assert!(on_add_button(&item_counts(&a), c), "j reaches the button after the last item");
    let c = press(&mut a, c, plain(Key::Char('j')));
    assert!(!on_add_button(&item_counts(&a), c), "j past the button loops back to the top");
}

#[test]
fn enter_on_button_adds_pillar() {
    let mut a = board_app();
    let mut c = Cursor { col: 0, row: 1 };
    while !on_add_button(&item_counts(&a), c) {
        c = press(&mut a, c, plain(Key::Char('j')));
    }
    let before = a.len();
    press(&mut a, c, plain(Key::Enter));
    assert_eq!(a.len(), before + 1);
}

#[test]
fn header_nav_aliases() {
    for ev in [
        plain(Key::Char(']')),
        KeyPress { code: Key::Char('L'), ctrl: false, shift: true },
        KeyPress { code: Key::Right, ctrl: true, shift: false },
        plain(Key::Char('t')),
    ] {
        let mut a = board_app();
        let c = press(&mut a, Cursor { col: 0, row: 1 }, ev);
        assert!(on_header(&item_counts(&a), c), "{ev:?} should reach a header");
    }
}

#[test]
fn shift_kj_vertical_header_jump() {
    let mut a = board_app();
    let k = KeyPress { code: Key::Char('K'), ctrl: false, shift: true };
    let j = KeyPress { code: Key::Char('J'), ctrl: false, shift: true };
    // K from an item → that pillar's own header
    let c = press(&mut a, Cursor { col: 0, row: 1 }, k);
    assert!(on_header(&item_counts(&a), c) && c.col == 0, "K → own header");
    let c = press(&mut a, c, j);
    assert!(on_header(&item_counts(&a), c) && c.col == 1, "J → JOBS header");
    let c = press(&mut a, c, j);
    assert!(on_add_button(&item_counts(&a), c), "J → the add-pillar button");
    let c = press(&mut a, c, j);
    assert!(on_header(&item_counts(&a), c) && c.col == 0, "J rolls over to WHO");
}

#[test]
fn j_from_header_returns_to_items() {
    let mut a = board_app();
    let c = press(&mut a, Cursor { col: 0, row: 1 }, plain(Key::Char('t'))); // → header
    assert!(on_header(&item_counts(&a), c));
    let c = press(&mut a, c, plain(Key::Char('j'))); // → items
    assert!(!on_header(&item_counts(&a), c), "j leaves header to items");
}

#[test]
fn esc_on_a_header_is_focus_items_and_editing_takes_letters() {
    assert_eq!(board_keys(false, true, plain(Key::Esc)), BoardAction::FocusItems);
    assert_eq!(board_keys(true, false, plain(Key::Char('j'))), BoardAction::EditChar('j'));
    assert_eq!(board_keys(true, true, plain(Key::Tab)), BoardAction::SwitchHeaderPart);
    assert_eq!(board_keys(false, false, plain(Key::Char('q'))), BoardAction::Pass);
}

#[test]
fn ui_inspector_edits_every_field() {
    let mut a = board_app();
    let c = Cursor { col: 0, row: 1 }; // the WHO item "a"
    let mut cx = ctx(false);
    cx.inspect = true;
    assert_eq!(handle_key(cx, plain(Key::Char('e'))), KeyAction::BeginDetailEdit);
    commit_inspector_edit(&mut a, c, InspectorMode::Detail, "renamed", false);
    assert_eq!(handle_key(cx, plain(Key::Char('s'))), KeyAction::CycleStatus);
    edit_selected(&mut a, c, ItemEdit::CycleStatus);
    assert_eq!(handle_key(cx, plain(Key::Char('c'))), KeyAction::BeginCategoryEdit);
    commit_inspector_edit(&mut a, c, InspectorMode::Category, "authz", false);
    assert_eq!(handle_key(cx, plain(Key::Char('n'))), KeyAction::BeginNoteEdit);
    commit_inspector_edit(&mut a, c, InspectorMode::Note, "guard it", false);
    assert_eq!(handle_key(cx, plain(Key::Char('a'))), KeyAction::BeginAttachAdd);
    commit_inspector_edit(&mut a, c, InspectorMode::Attach, "f.pdf", false);

    let it = &a[0].items[0];
    assert_eq!(it.text, "renamed");
    assert_eq!(it.status, Some(Status::Okay));
    assert_eq!(it.category.as_deref(), Some("authz"));
    assert_eq!(it.note, vec!["guard it"]);
    assert_eq!(it.attachments, vec!["f.pdf"]);
}
