//! The viewer's key map: which action a key press asks for, given what is on
//! screen. Overlays own the keys while open; then the active page's
//! controls get the key; what they leave falls through to the global keys.
use vstd::prelude::*;

use crate::edit::{InspectorMode, PageKind};
use crate::ident::lower;

verus! {

/// A key, as the terminal reports it.
#[derive(Debug, Clone, Copy, PartialEq, Eq, Structural)]
pub enum Key {
    Char(char),
    Up,
    Down,
    Left,
    Right,
    Enter,
    Esc,
    Tab,
    BackTab,
    Backspace,
    Delete,
    /// Any other key.
    Other,
}

/// A key with its modifiers.
#[derive(Debug, Clone, Copy, PartialEq, Eq, Structural)]
pub struct KeyPress {
    pub code: Key,
    pub ctrl: bool,
    pub shift: bool,
}

/// What a key asks of a board page.
#[derive(Debug, Clone, Copy, PartialEq, Eq, Structural)]
pub enum BoardAction {
    /// While editing a header: swap the name and prompt halves.
    SwitchHeaderPart,
    /// Leave the edit.
    Cancel,
    /// Commit the edit.
    Commit,
    EditLeft,
    EditRight,
    EditBackspace,
    EditDeleteForward,
    EditChar(char),
    /// The editor takes the key and does nothing with it.
    Swallow,
    /// Leave a header down to the items.
    FocusItems,
    HeaderVert(i8),
    HeaderMove(i8),
    SelectHoriz(i8),
    SelectVert(i8),
    MoveItem(i8),
    OpenSearch,
    FocusHeader,
    AddColumn,
    Undo,
    Redo,
    Activate,
    BeginDelete,
    /// Not a board key: the global keys get it.
    Pass,
}

pub open spec fn is_upper(c: char) -> bool {
    'A' <= c && c <= 'Z'
}

/// The board's key map: an open edit takes every key; Esc on
/// a header goes back to the items; Ctrl+arrows and Shift+hjkl walk the
/// headers; hjkl and arrows walk the items; `<` `>` reorder; `/` searches;
/// `t` goes to the header, `[` `]` across headers; `n` adds a pillar; `u`
/// `r` undo and redo; Enter activates; Backspace and Delete delete.
pub open spec fn board_key(editing: bool, on_header: bool, k: KeyPress) -> BoardAction {
    if editing {
        if (k.ctrl && (k.code == Key::Left || k.code == Key::Right)) || k.code == Key::Tab || k.code
            == Key::BackTab {
            BoardAction::SwitchHeaderPart
        } else {
            match k.code {
                Key::Esc => BoardAction::Cancel,
                Key::Enter => BoardAction::Commit,
                Key::Left => BoardAction::EditLeft,
                Key::Right => BoardAction::EditRight,
                Key::Backspace => BoardAction::EditBackspace,
                Key::Delete => BoardAction::EditDeleteForward,
                Key::Char(c) => BoardAction::EditChar(c),
                _ => BoardAction::Swallow,
            }
        }
    } else if on_header && k.code == Key::Esc {
        BoardAction::FocusItems
    } else if k.ctrl && k.code == Key::Up {
        BoardAction::HeaderVert(-1i8)
    } else if k.ctrl && k.code == Key::Down {
        BoardAction::HeaderVert(1i8)
    } else if k.ctrl && k.code == Key::Left {
        BoardAction::HeaderMove(-1i8)
    } else if k.ctrl && k.code == Key::Right {
        BoardAction::HeaderMove(1i8)
    } else {
        match k.code {
            Key::Char(c) => {
                let lc = lower(c);
                let shift = k.shift || is_upper(c);
                if shift && lc == 'k' {
                    BoardAction::HeaderVert(-1i8)
                } else if shift && lc == 'j' {
                    BoardAction::HeaderVert(1i8)
                } else if shift && lc == 'h' {
                    BoardAction::HeaderMove(-1i8)
                } else if shift && lc == 'l' {
                    BoardAction::HeaderMove(1i8)
                } else if lc == 'h' {
                    BoardAction::SelectHoriz(-1i8)
                } else if lc == 'l' {
                    BoardAction::SelectHoriz(1i8)
                } else if lc == 'k' {
                    BoardAction::SelectVert(-1i8)
                } else if lc == 'j' {
                    BoardAction::SelectVert(1i8)
                } else if lc == '<' {
                    BoardAction::MoveItem(-1i8)
                } else if lc == '>' {
                    BoardAction::MoveItem(1i8)
                } else if lc == '/' {
                    BoardAction::OpenSearch
                } else if lc == 't' {
                    BoardAction::FocusHeader
                } else if lc == '[' {
                    BoardAction::HeaderMove(-1i8)
                } else if lc == ']' {
                    BoardAction::HeaderMove(1i8)
                } else if lc == 'n' {
                    BoardAction::AddColumn
                } else if lc == 'u' {
                    BoardAction::Undo
                } else if lc == 'r' {
                    BoardAction::Redo
                } else {
                    BoardAction::Pass
                }
            },
            Key::Up => BoardAction::SelectVert(-1i8),
            Key::Down => BoardAction::SelectVert(1i8),
            Key::Left => BoardAction::SelectHoriz(-1i8),
            Key::Right => BoardAction::SelectHoriz(1i8),
            Key::Enter => BoardAction::Activate,
            Key::Backspace | Key::Delete => BoardAction::BeginDelete,
            _ => BoardAction::Pass,
        }
    }
}

/// What a key asks of a board page.
pub fn board_keys(editing: bool, on_header: bool, k: KeyPress) -> (r: BoardAction)
    ensures
        r == board_key(editing, on_header, k),
{
    if editing {
        if (k.ctrl && (k.code == Key::Left || k.code == Key::Right)) || k.code == Key::Tab || k.code
            == Key::BackTab {
            return BoardAction::SwitchHeaderPart;
        }
        return match k.code {
            Key::Esc => BoardAction::Cancel,
            Key::Enter => BoardAction::Commit,
            Key::Left => BoardAction::EditLeft,
            Key::Right => BoardAction::EditRight,
            Key::Backspace => BoardAction::EditBackspace,
            Key::Delete => BoardAction::EditDeleteForward,
            Key::Char(c) => BoardAction::EditChar(c),
            _ => BoardAction::Swallow,
        };
    }
    if on_header && k.code == Key::Esc {
        return BoardAction::FocusItems;
    }
    if k.ctrl {
        match k.code {
            Key::Up => {
                return BoardAction::HeaderVert(-1i8);
            },
            Key::Down => {
                return BoardAction::HeaderVert(1i8);
            },
            Key::Left => {
                return BoardAction::HeaderMove(-1i8);
            },
            Key::Right => {
                return BoardAction::HeaderMove(1i8);
            },
            _ => {},
        }
    }
    match k.code {
        Key::Char(c) => {
            let lc = crate::ident::to_lower(c);
            let shift = k.shift || ('A' <= c && c <= 'Z');
            if shift {
                if lc == 'k' {
                    return BoardAction::HeaderVert(-1i8);
                } else if lc == 'j' {
                    return BoardAction::HeaderVert(1i8);
                } else if lc == 'h' {
                    return BoardAction::HeaderMove(-1i8);
                } else if lc == 'l' {
                    return BoardAction::HeaderMove(1i8);
                }
            }
            if lc == 'h' {
                BoardAction::SelectHoriz(-1i8)
            } else if lc == 'l' {
                BoardAction::SelectHoriz(1i8)
            } else if lc == 'k' {
                BoardAction::SelectVert(-1i8)
            } else if lc == 'j' {
                BoardAction::SelectVert(1i8)
            } else if lc == '<' {
                BoardAction::MoveItem(-1i8)
            } else if lc == '>' {
                BoardAction::MoveItem(1i8)
            } else if lc == '/' {
                BoardAction::OpenSearch
            } else if lc == 't' {
                BoardAction::FocusHeader
            } else if lc == '[' {
                BoardAction::HeaderMove(-1i8)
            } else if lc == ']' {
                BoardAction::HeaderMove(1i8)
            } else if lc == 'n' {
                BoardAction::AddColumn
            } else if lc == 'u' {
                BoardAction::Undo
            } else if lc == 'r' {
                BoardAction::Redo
            } else {
                BoardAction::Pass
            }
        },
        Key::Up => BoardAction::SelectVert(-1i8),
        Key::Down => BoardAction::SelectVert(1i8),
        Key::Left => BoardAction::SelectHoriz(-1i8),
        Key::Right => BoardAction::SelectHoriz(1i8),
        Key::Enter => BoardAction::Activate,
        Key::Backspace | Key::Delete => BoardAction::BeginDelete,
        _ => BoardAction::Pass,
    }
}

/// What a key asks of the registry panel.
#[derive(Debug, Clone, Copy, PartialEq, Eq, Structural)]
pub enum PanelAction {
    /// Type into the fine filter (leave the list).
    FocusFilter,
    /// Back from the filter to the list.
    FocusList,
    ToggleCategories,
    AddColumn,
    Delete,
    Move(i8),
    CategoryMove(i8),
    QuickEdit,
    Undo,
    Redo,
    FilterBackspace,
    FilterChar(char),
    /// Not a panel key: the global keys get it.
    Pass,
}

/// The registry panel's key map: on the list, `/` enters the
/// filter, `c` hides the categories, `n` adds, Backspace/Delete delete,
/// jk/arrows move, hl/arrows change category, Enter edits, `u` `r` undo and
/// redo; in the filter, Esc returns to the list, arrows and Enter still
/// work, other characters type.
pub open spec fn panel_key(list_focus: bool, k: KeyPress) -> PanelAction {
    if list_focus {
        match k.code {
            Key::Char('/') => PanelAction::FocusFilter,
            Key::Char('c') => PanelAction::ToggleCategories,
            Key::Char('n') => PanelAction::AddColumn,
            Key::Backspace | Key::Delete => PanelAction::Delete,
            Key::Char('j') | Key::Down => PanelAction::Move(1i8),
            Key::Char('k') | Key::Up => PanelAction::Move(-1i8),
            Key::Char('h') | Key::Left => PanelAction::CategoryMove(-1i8),
            Key::Char('l') | Key::Right => PanelAction::CategoryMove(1i8),
            Key::Enter => PanelAction::QuickEdit,
            Key::Char('u') => PanelAction::Undo,
            Key::Char('r') => PanelAction::Redo,
            _ => PanelAction::Pass,
        }
    } else {
        match k.code {
            Key::Esc => PanelAction::FocusList,
            Key::Enter => PanelAction::QuickEdit,
            Key::Up => PanelAction::Move(-1i8),
            Key::Down => PanelAction::Move(1i8),
            Key::Left => PanelAction::CategoryMove(-1i8),
            Key::Right => PanelAction::CategoryMove(1i8),
            Key::Backspace => PanelAction::FilterBackspace,
            Key::Char(c) => PanelAction::FilterChar(c),
            _ => PanelAction::Pass,
        }
    }
}

/// What a key asks of the registry panel.
pub fn panel_keys(list_focus: bool, k: KeyPress) -> (r: PanelAction)
    ensures
        r == panel_key(list_focus, k),
{
    if list_focus {
        match k.code {
            Key::Char('/') => PanelAction::FocusFilter,
            Key::Char('c') => PanelAction::ToggleCategories,
            Key::Char('n') => PanelAction::AddColumn,
            Key::Backspace | Key::Delete => PanelAction::Delete,
            Key::Char('j') | Key::Down => PanelAction::Move(1i8),
            Key::Char('k') | Key::Up => PanelAction::Move(-1i8),
            Key::Char('h') | Key::Left => PanelAction::CategoryMove(-1i8),
            Key::Char('l') | Key::Right => PanelAction::CategoryMove(1i8),
            Key::Enter => PanelAction::QuickEdit,
            Key::Char('u') => PanelAction::Undo,
            Key::Char('r') => PanelAction::Redo,
            _ => PanelAction::Pass,
        }
    } else {
        match k.code {
            Key::Esc => PanelAction::FocusList,
            Key::Enter => PanelAction::QuickEdit,
            Key::Up => PanelAction::Move(-1i8),
            Key::Down => PanelAction::Move(1i8),
            Key::Left => PanelAction::CategoryMove(-1i8),
            Key::Right => PanelAction::CategoryMove(1i8),
            Key::Backspace => PanelAction::FilterBackspace,
            Key::Char(c) => PanelAction::FilterChar(c),
            _ => PanelAction::Pass,
        }
    }
}

/// What is on screen when a key arrives.
#[derive(Debug, Clone, Copy)]
pub struct KeyContext {
    /// The quit prompt is up.
    pub confirm_quit: bool,
    /// A delete awaits y/n.
    pub confirm_delete: bool,
    /// A text edit is open.
    pub editing: bool,
    /// The help overlay is up.
    pub help: bool,
    /// The glossary pop-up is up.
    pub glossary: bool,
    /// The active board is a sheet.
    pub sheet: bool,
    /// A functional-area filter is on.
    pub sheet_filter: bool,
    /// The search overlay is up.
    pub search: bool,
    /// The file browser is up.
    pub browse: bool,
    /// The inspector overlay is up.
    pub inspect: bool,
    /// The inspector field being edited.
    pub inspector: InspectorMode,
    /// The active board is a registry panel.
    pub panel: bool,
    /// The kind of the active page.
    pub page: PageKind,
    /// An item is under the cursor.
    pub selected: bool,
    /// The cursor is on a header.
    pub on_header: bool,
    /// The panel's list (not its filter) has the focus.
    pub panel_list_focus: bool,
}

/// What a key asks of the viewer.
#[derive(Debug, Clone, Copy, PartialEq, Eq, Structural)]
pub enum KeyAction {
    /// Leave the viewer.
    Quit,
    /// Close the quit prompt.
    StayOpen,
    ConfirmDelete,
    /// Leave the current edit or prompt.
    Cancel,
    CloseHelp,
    OpenHelp,
    GlossaryMove(i8),
    GlossaryApply,
    CloseGlossary,
    OpenGlossary,
    ClearSheetFilter,
    CloseSearch,
    SearchJump,
    SearchMove(i8),
    SearchBackspace,
    SearchChar(char),
    /// The file browser takes the key.
    BrowseKey,
    /// Commit an inspector edit (`true`: open another line).
    InspectorCommit(bool),
    EditBackspace,
    EditLeft,
    EditRight,
    EditChar(char),
    CategoryPick(i8),
    LinkPickMove(i8),
    LinkPickToggle,
    CloseLinkPick,
    BeginDetailEdit,
    CycleStatus,
    BeginLinkPick,
    BeginNoteEdit,
    BeginCategoryEdit,
    BeginAttachAdd,
    BrowseAttach,
    BeginCommentEdit,
    ToggleDerived,
    OpenAttachment,
    CloseInspector,
    PanelCommit,
    PanelQuickTab,
    PanelOpen,
    Inspect,
    Board(BoardAction),
    Panel(PanelAction),
    AskQuit,
    CyclePage(i8),
    SetActive(u8),
    /// The key does nothing here.
    Nothing,
}

/// The key handed to the active page, then to the global keys.
pub open spec fn page_or_global(cx: KeyContext, k: KeyPress) -> KeyAction {
    let page = if cx.page == PageKind::Board && cx.panel {
        let a = panel_key(cx.panel_list_focus, k);
        if a == PanelAction::Pass { None } else { Some(KeyAction::Panel(a)) }
    } else if cx.page == PageKind::Board {
        let a = board_key(cx.editing, cx.on_header, k);
        if a == BoardAction::Pass { None } else { Some(KeyAction::Board(a)) }
    } else {
        None
    };
    match page {
        Some(a) => a,
        None => match k.code {
            Key::Char('q') => KeyAction::AskQuit,
            Key::Tab => KeyAction::CyclePage(1i8),
            Key::BackTab => KeyAction::CyclePage(-1i8),
            Key::Char(c) => if '1' <= c && c <= '9' {
                KeyAction::SetActive(((c as u32) - ('1' as u32)) as u8)
            } else {
                KeyAction::Nothing
            },
            _ => KeyAction::Nothing,
        },
    }
}

/// The viewer's key map, overlays first: the quit prompt,
/// the delete prompt, help, the glossary, the sheet's area filter, search,
/// the file browser, the inspector (its edit, its link picker, its field
/// keys), a panel's inline edit, `o` to inspect; then the page, then the
/// global keys (`q` asks to quit, Tab/BackTab switch pages, 1–9 pick one).
pub open spec fn key_action(cx: KeyContext, k: KeyPress) -> KeyAction {
    if cx.confirm_quit {
        match k.code {
            Key::Char('y') | Key::Char('Y') | Key::Char('q') => KeyAction::Quit,
            _ => KeyAction::StayOpen,
        }
    } else if cx.confirm_delete {
        match k.code {
            Key::Char('y') | Key::Char('Y') => KeyAction::ConfirmDelete,
            _ => KeyAction::Cancel,
        }
    } else if cx.help {
        KeyAction::CloseHelp
    } else if k.code == Key::Char('?') && !cx.editing {
        KeyAction::OpenHelp
    } else if cx.glossary {
        match k.code {
            Key::Up | Key::Char('k') => KeyAction::GlossaryMove(-1i8),
            Key::Down | Key::Char('j') => KeyAction::GlossaryMove(1i8),
            Key::Enter => KeyAction::GlossaryApply,
            Key::Esc | Key::Char('g') => KeyAction::CloseGlossary,
            _ => KeyAction::Nothing,
        }
    } else if cx.sheet && !cx.editing && k.code == Key::Char('g') {
        KeyAction::OpenGlossary
    } else if cx.sheet && !cx.editing && k.code == Key::Esc && cx.sheet_filter {
        KeyAction::ClearSheetFilter
    } else if cx.search {
        match k.code {
            Key::Esc => KeyAction::CloseSearch,
            Key::Enter => KeyAction::SearchJump,
            Key::Up => KeyAction::SearchMove(-1i8),
            Key::Down => KeyAction::SearchMove(1i8),
            Key::Backspace => KeyAction::SearchBackspace,
            Key::Char(c) => KeyAction::SearchChar(c),
            _ => KeyAction::Nothing,
        }
    } else if cx.browse {
        KeyAction::BrowseKey
    } else if cx.inspect {
        if cx.editing {
            match k.code {
                Key::Enter => KeyAction::InspectorCommit(
                    k.shift && (cx.inspector == InspectorMode::Note || cx.inspector == InspectorMode::Attach),
                ),
                Key::Esc => KeyAction::Cancel,
                Key::Backspace => KeyAction::EditBackspace,
                Key::Left => KeyAction::EditLeft,
                Key::Right => KeyAction::EditRight,
                Key::Up => if cx.inspector == InspectorMode::Category {
                    KeyAction::CategoryPick(-1i8)
                } else {
                    KeyAction::Nothing
                },
                Key::Down => if cx.inspector == InspectorMode::Category {
                    KeyAction::CategoryPick(1i8)
                } else {
                    KeyAction::Nothing
                },
                Key::Char(c) => KeyAction::EditChar(c),
                _ => KeyAction::Nothing,
            }
        } else if cx.inspector == InspectorMode::LinkPick {
            match k.code {
                Key::Char('j') | Key::Down => KeyAction::LinkPickMove(1i8),
                Key::Char('k') | Key::Up => KeyAction::LinkPickMove(-1i8),
                Key::Char(' ') => KeyAction::LinkPickToggle,
                _ => KeyAction::CloseLinkPick,
            }
        } else {
            match k.code {
                Key::Char('e') => KeyAction::BeginDetailEdit,
                Key::Char('s') => KeyAction::CycleStatus,
                Key::Char('l') => KeyAction::BeginLinkPick,
                Key::Char('n') => KeyAction::BeginNoteEdit,
                Key::Char('c') => KeyAction::BeginCategoryEdit,
                Key::Char('a') => KeyAction::BeginAttachAdd,
                Key::Char('b') => KeyAction::BrowseAttach,
                Key::Char('m') => KeyAction::BeginCommentEdit,
                Key::Char('d') => KeyAction::ToggleDerived,
                Key::Char('O') => KeyAction::OpenAttachment,
                _ => KeyAction::CloseInspector,
            }
        }
    } else if cx.panel && cx.editing {
        match k.code {
            Key::Enter => KeyAction::PanelCommit,
            Key::Tab => KeyAction::PanelQuickTab,
            Key::Esc => KeyAction::Cancel,
            Key::Up => if cx.inspector == InspectorMode::Category {
                KeyAction::CategoryPick(-1i8)
            } else {
                KeyAction::Nothing
            },
            Key::Down => if cx.inspector == InspectorMode::Category {
                KeyAction::CategoryPick(1i8)
            } else {
                KeyAction::Nothing
            },
            Key::Backspace => KeyAction::EditBackspace,
            Key::Left => KeyAction::EditLeft,
            Key::Right => KeyAction::EditRight,
            Key::Char(c) => KeyAction::EditChar(c),
            _ => KeyAction::Nothing,
        }
    } else if k.code == Key::Char('o') && !cx.editing && cx.panel {
        KeyAction::PanelOpen
    } else if k.code == Key::Char('o') && !cx.editing && cx.selected {
        KeyAction::Inspect
    } else {
        page_or_global(cx, k)
    }
}

fn page_or_global_keys(cx: KeyContext, k: KeyPress) -> (r: KeyAction)
    ensures
        r == page_or_global(cx, k),
{
    if cx.page == PageKind::Board && cx.panel {
        let a = panel_keys(cx.panel_list_focus, k);
        if a != PanelAction::Pass {
            return KeyAction::Panel(a);
        }
    } else if cx.page == PageKind::Board {
        let a = board_keys(cx.editing, cx.on_header, k);
        if a != BoardAction::Pass {
            return KeyAction::Board(a);
        }
    }
    match k.code {
        Key::Char('q') => KeyAction::AskQuit,
        Key::Tab => KeyAction::CyclePage(1i8),
        Key::BackTab => KeyAction::CyclePage(-1i8),
        Key::Char(c) => if '1' <= c && c <= '9' {
            KeyAction::SetActive(((c as u32) - ('1' as u32)) as u8)
        } else {
            KeyAction::Nothing
        },
        _ => KeyAction::Nothing,
    }
}

/// What a key asks of the viewer.
pub fn handle_key(cx: KeyContext, k: KeyPress) -> (r: KeyAction)
    ensures
        r == key_action(cx, k),
{
    if cx.confirm_quit {
        return match k.code {
            Key::Char('y') | Key::Char('Y') | Key::Char('q') => KeyAction::Quit,
            _ => KeyAction::StayOpen,
        };
    }
    if cx.confirm_delete {
        return match k.code {
            Key::Char('y') | Key::Char('Y') => KeyAction::ConfirmDelete,
            _ => KeyAction::Cancel,
        };
    }
    if cx.help {
        return KeyAction::CloseHelp;
    }
    if k.code == Key::Char('?') && !cx.editing {
        return KeyAction::OpenHelp;
    }
    if cx.glossary {
        return match k.code {
            Key::Up | Key::Char('k') => KeyAction::GlossaryMove(-1i8),
            Key::Down | Key::Char('j') => KeyAction::GlossaryMove(1i8),
            Key::Enter => KeyAction::GlossaryApply,
            Key::Esc | Key::Char('g') => KeyAction::CloseGlossary,
            _ => KeyAction::Nothing,
        };
    }
    let on_sheet = cx.sheet && !cx.editing;
    if on_sheet && k.code == Key::Char('g') {
        return KeyAction::OpenGlossary;
    }
    if on_sheet && k.code == Key::Esc && cx.sheet_filter {
        return KeyAction::ClearSheetFilter;
    }
    if cx.search {
        return match k.code {
            Key::Esc => KeyAction::CloseSearch,
            Key::Enter => KeyAction::SearchJump,
            Key::Up => KeyAction::SearchMove(-1i8),
            Key::Down => KeyAction::SearchMove(1i8),
            Key::Backspace => KeyAction::SearchBackspace,
            Key::Char(c) => KeyAction::SearchChar(c),
            _ => KeyAction::Nothing,
        };
    }
    if cx.browse {
        return KeyAction::BrowseKey;
    }
    let category = cx.inspector == InspectorMode::Category;
    if cx.inspect {
        if cx.editing {
            return match k.code {
                Key::Enter => KeyAction::InspectorCommit(
                    k.shift && (cx.inspector == InspectorMode::Note || cx.inspector == InspectorMode::Attach),
                ),
                Key::Esc => KeyAction::Cancel,
                Key::Backspace => KeyAction::EditBackspace,
                Key::Left => KeyAction::EditLeft,
                Key::Right => KeyAction::EditRight,
                Key::Up => if category { KeyAction::CategoryPick(-1i8) } else { KeyAction::Nothing },
                Key::Down => if category { KeyAction::CategoryPick(1i8) } else { KeyAction::Nothing },
                Key::Char(c) => KeyAction::EditChar(c),
                _ => KeyAction::Nothing,
            };
        }
        if cx.inspector == InspectorMode::LinkPick {
            return match k.code {
                Key::Char('j') | Key::Down => KeyAction::LinkPickMove(1i8),
                Key::Char('k') | Key::Up => KeyAction::LinkPickMove(-1i8),
                Key::Char(' ') => KeyAction::LinkPickToggle,
                _ => KeyAction::CloseLinkPick,
            };
        }
        return match k.code {
            Key::Char('e') => KeyAction::BeginDetailEdit,
            Key::Char('s') => KeyAction::CycleStatus,
            Key::Char('l') => KeyAction::BeginLinkPick,
            Key::Char('n') => KeyAction::BeginNoteEdit,
            Key::Char('c') => KeyAction::BeginCategoryEdit,
            Key::Char('a') => KeyAction::BeginAttachAdd,
            Key::Char('b') => KeyAction::BrowseAttach,
            Key::Char('m') => KeyAction::BeginCommentEdit,
            Key::Char('d') => KeyAction::ToggleDerived,
            Key::Char('O') => KeyAction::OpenAttachment,
            _ => KeyAction::CloseInspector,
        };
    }
    if cx.panel && cx.editing {
        return match k.code {
            Key::Enter => KeyAction::PanelCommit,
            Key::Tab => KeyAction::PanelQuickTab,
            Key::Esc => KeyAction::Cancel,
            Key::Up => if category { KeyAction::CategoryPick(-1i8) } else { KeyAction::Nothing },
            Key::Down => if category { KeyAction::CategoryPick(1i8) } else { KeyAction::Nothing },
            Key::Backspace => KeyAction::EditBackspace,
            Key::Left => KeyAction::EditLeft,
            Key::Right => KeyAction::EditRight,
            Key::Char(c) => KeyAction::EditChar(c),
            _ => KeyAction::Nothing,
        };
    }
    if k.code == Key::Char('o') && !cx.editing {
        if cx.panel {
            return KeyAction::PanelOpen;
        }
        if cx.selected {
            return KeyAction::Inspect;
        }
    }
    page_or_global_keys(cx, k)
}

} // verus!
