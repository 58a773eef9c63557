//! Edits to a board's columns driven by the cursor: reordering, deleting,
//! adding pillars and items, renaming, and the links between layers.
use vstd::prelude::*;

use crate::edit::{Button, Edit, EditModel};
use crate::state::{dedupe_items, deduped, split_header, spec_split_header, texts};
use crate::edit::InspectorMode;
use crate::protocol::{plain_item, ItemModel, Status};
use crate::text::{chars_of, push_str, str_eq, to_owned, trim, trim_str};
use crate::graph::strs;
use crate::protocol::svec;
use crate::sorted::{sorted_set, strictly_sorted};
use crate::nav::{clamp_to_pillar, clamped, on_add_button, on_button, small_counts, Cursor};
use crate::protocol::{BoardColumn, Item};

verus! {

/// Items per pillar.
pub open spec fn counts(cols: Seq<BoardColumn>) -> Seq<usize> {
    cols.map_values(|c: BoardColumn| c.items@.len() as usize)
}

/// The number of items in each pillar.
pub fn item_counts(cols: &Vec<BoardColumn>) -> (r: Vec<usize>)
    ensures
        r@ == counts(cols@),
{
    let mut out: Vec<usize> = Vec::new();
    let mut i: usize = 0;
    while i < cols.len()
        invariant
            i <= cols@.len(),
            out@ == counts(cols@).take(i as int),
        decreases cols.len() - i,
    {
        out.push(cols[i].items.len());
        assert(counts(cols@).take(i + 1) =~= counts(cols@).take(i as int).push(
            cols@[i as int].items@.len() as usize,
        ));
        i += 1;
    }
    assert(counts(cols@).take(cols@.len() as int) =~= counts(cols@));
    out
}

/// `s` with the values at `i` and `j` exchanged.
pub open spec fn swapped<T>(s: Seq<T>, i: int, j: int) -> Seq<T> {
    s.update(i, s[j]).update(j, s[i])
}

/// Exchanges two values of a vector.
pub(crate) fn swap_at<T>(v: &mut Vec<T>, i: usize, j: usize)
    requires
        i < old(v)@.len(),
        j < old(v)@.len(),
    ensures
        final(v)@ == swapped(old(v)@, i as int, j as int),
{
    if i == j {
        assert(swapped(v@, i as int, j as int) =~= v@);
        return;
    }
    let (lo, hi) = if i < j { (i, j) } else { (j, i) };
    let ghost s = v@;
    let b = v.remove(hi);
    let a = v.remove(lo);
    v.insert(lo, b);
    v.insert(hi, a);
    assert(v@ =~= swapped(s, i as int, j as int));
}

/// Where moving the selected item by `delta` goes: (pillar, from, to), or
/// nothing on the button, a header, a "+" slot, or past either end.
pub open spec fn move_target(k: Seq<usize>, c: Cursor, delta: int) -> Option<(int, int, int)> {
    let (col, row, items) = clamped(k, c);
    if on_button(k, c) || row == 0 || row > items {
        None
    } else if row - 1 + delta < 0 || row - 1 + delta >= items {
        None
    } else {
        Some((col, row - 1, row - 1 + delta))
    }
}

/// The board after a change to pillar `col` alone.
pub open spec fn only_col_changed(before: Seq<BoardColumn>, after: Seq<BoardColumn>, col: int) -> bool {
    &&& after.len() == before.len()
    &&& forall|j: int| 0 <= j < before.len() && j != col ==> after[j] == before[j]
    &&& after[col].header == before[col].header
    &&& after[col].key == before[col].key
}

/// Reorders the item under the cursor within its pillar; the cursor follows.
pub fn move_item(cols: &mut Vec<BoardColumn>, c: Cursor, delta: isize) -> (r: Option<Cursor>)
    requires
        small_counts(counts(old(cols)@)),
    ensures
        match move_target(counts(old(cols)@), c, delta as int) {
            None => r is None && final(cols)@ == old(cols)@,
            Some((col, i, t)) => {
                &&& r == Some(Cursor { col: col as usize, row: (t + 1) as usize })
                &&& only_col_changed(old(cols)@, final(cols)@, col)
                &&& final(cols)@[col].items@ == swapped(old(cols)@[col].items@, i, t)
            },
        },
{
    let k = item_counts(cols);
    if on_add_button(&k, c) {
        return None;
    }
    let (col, row, items) = clamp_to_pillar(&k, c);
    if row == 0 || row > items {
        return None;
    }
    let i = row - 1;
    let t: i128 = i as i128 + delta as i128;
    if t < 0 || t >= items as i128 {
        return None;
    }
    let t = t as usize;
    let ghost before = cols@;
    let mut column = cols.remove(col);
    swap_at(&mut column.items, i, t);
    cols.insert(col, column);
    assert forall|j: int| 0 <= j < before.len() && j != col implies cols@[j] == before[j] by {
        if j < col {
        } else {
        }
    }
    Some(Cursor { col, row: t + 1 })
}

/// The pillar a move happens in.
pub open spec fn target_col(k: Seq<usize>, c: Cursor, delta: int) -> int {
    match move_target(k, c, delta) {
        Some((col, _, _)) => col,
        None => 0,
    }
}

/// Moving an item back undoes the move: the reverse move is allowed from
/// where the cursor landed, goes back to where it started, and exchanging
/// the same two items again restores the pillar.
pub proof fn law_move_back_restores<T>(k: Seq<usize>, c: Cursor, delta: int, s: Seq<T>)
    requires
        small_counts(k),
        move_target(k, c, delta) is Some,
        s.len() == k[target_col(k, c, delta)],
    ensures
        ({
            let (col, i, t) = move_target(k, c, delta)->0;
            &&& move_target(k, Cursor { col: col as usize, row: (t + 1) as usize }, -delta) == Some(
                (col, t, i),
            )
            &&& swapped(swapped(s, i, t), t, i) == s
        }),
{
    let (col, i, t) = move_target(k, c, delta)->0;
    assert(swapped(swapped(s, i, t), t, i) =~= s);
}

/// Whether Delete asks to confirm: on a header (the whole pillar) or an
/// item, never on the button or a "+" slot.
pub open spec fn deletable(k: Seq<usize>, c: Cursor) -> bool {
    let (_, row, items) = clamped(k, c);
    !on_button(k, c) && (row == 0 || (1 <= row <= items))
}

/// Whether Delete asks to confirm.
pub fn begin_delete(cols: &Vec<BoardColumn>, c: Cursor) -> (r: bool)
    requires
        small_counts(counts(cols@)),
    ensures
        r == deletable(counts(cols@), c),
{
    let k = item_counts(cols);
    if on_add_button(&k, c) {
        return false;
    }
    let (_, row, items) = clamp_to_pillar(&k, c);
    row == 0 || (row >= 1 && row <= items)
}

/// A confirmed delete: on a header the pillar goes and the cursor returns to
/// the start; on an item the item goes and the cursor is kept within the
/// pillar. Returns the cursor and whether the
/// board changed.
pub fn confirm_delete(cols: &mut Vec<BoardColumn>, c: Cursor) -> (r: (Cursor, bool))
    requires
        small_counts(counts(old(cols)@)),
    ensures
        ({
            let (col, row, items) = clamped(counts(old(cols)@), c);
            if row == 0 {
                &&& r.0 == Cursor { col: 0, row: 1 }
                &&& r.1 == (col < old(cols)@.len())
                &&& final(cols)@ == (if col < old(cols)@.len() {
                    old(cols)@.remove(col)
                } else {
                    old(cols)@
                })
            } else if row <= items {
                &&& r.0 == Cursor { col: c.col, row: if c.row <= items { c.row } else { items as usize } }
                &&& r.1
                &&& only_col_changed(old(cols)@, final(cols)@, col)
                &&& final(cols)@[col].items@ == old(cols)@[col].items@.remove(row - 1)
            } else {
                &&& r.0 == c
                &&& !r.1
                &&& final(cols)@ == old(cols)@
            }
        }),
{
    let k = item_counts(cols);
    let (col, row, items) = clamp_to_pillar(&k, c);
    if row == 0 {
        let changed = col < cols.len();
        if changed {
            cols.remove(col);
        }
        (Cursor::default(), changed)
    } else if row <= items {
        let ghost before = cols@;
        let mut column = cols.remove(col);
        column.items.remove(row - 1);
        cols.insert(col, column);
        assert forall|j: int| 0 <= j < before.len() && j != col implies cols@[j] == before[j] by {
            if j < col {
            } else {
            }
        }
        (Cursor { col: c.col, row: if c.row <= items { c.row } else { items } }, true)
    } else {
        (c, false)
    }
}

/// The header a new pillar starts with.
pub const NEW_PILLAR_HEADER: &'static str = "NEW — rename";

/// Adds an empty pillar at the end; the cursor goes to its header to rename
/// it.
pub fn add_column(cols: &mut Vec<BoardColumn>) -> (r: Cursor)
    ensures
        final(cols)@.len() == old(cols)@.len() + 1,
        final(cols)@.take(old(cols)@.len() as int) == old(cols)@,
        final(cols)@.last().header@ == NEW_PILLAR_HEADER@,
        final(cols)@.last().key is None,
        final(cols)@.last().items@.len() == 0,
        r == (Cursor { col: old(cols)@.len() as usize, row: 0 }),
{
    let idx = cols.len();
    cols.push(BoardColumn { header: crate::text::to_owned(NEW_PILLAR_HEADER), key: None, items: Vec::new() });
    assert(cols@.take(idx as int) =~= old(cols)@);
    Cursor { col: idx, row: 0 }
}

/// What Enter does on the board.
pub enum Activation {
    /// The cursor is on a button: press it.
    Press(Button),
    /// Edit a header's name; its prompt half waits in `prompt`.
    EditHeader { edit: Edit, prompt: String },
    /// Type a new item into a "+" slot.
    EditNew(Edit),
    /// Edit an existing item's text.
    EditItem(Edit),
}

/// The header of pillar `col`, or nothing past the last pillar.
pub open spec fn header_of(cols: Seq<BoardColumn>, col: int) -> Seq<char> {
    if 0 <= col < cols.len() { cols[col].header@ } else { Seq::empty() }
}

/// Enter: on the button, press it; on a header, edit its name (all
/// selected) with the prompt half set aside; on a "+" slot, start a new item;
/// on an item, edit its text (all selected).
pub fn activate(cols: &Vec<BoardColumn>, c: Cursor) -> (r: Activation)
    requires
        small_counts(counts(cols@)),
    ensures
        ({
            let (col, row, items) = clamped(counts(cols@), c);
            if on_button(counts(cols@), c) {
                r == Activation::Press(Button::AddPillar)
            } else if row == 0 {
                let (name, prompt) = spec_split_header(header_of(cols@, col));
                r matches Activation::EditHeader { edit, prompt: p } && edit@ == (EditModel {
                    buffer: name,
                    cursor: name.len() as int,
                    select_all: true,
                }) && p@ == prompt
            } else if row == items + 1 {
                r matches Activation::EditNew(e) && e@ == (EditModel {
                    buffer: Seq::empty(),
                    cursor: 0,
                    select_all: false,
                })
            } else {
                let text = cols@[col].items@[row - 1].text@;
                r matches Activation::EditItem(e) && e@ == (EditModel {
                    buffer: text,
                    cursor: text.len() as int,
                    select_all: true,
                })
            }
        }),
{
    let k = item_counts(cols);
    if on_add_button(&k, c) {
        return Activation::Press(Button::AddPillar);
    }
    let (col, row, items) = clamp_to_pillar(&k, c);
    if row == 0 {
        let header = if col < cols.len() { to_owned(cols[col].header.as_str()) } else { String::new() };
        let (name, prompt) = split_header(header.as_str());
        return Activation::EditHeader { edit: Edit::prefilled(name, true), prompt };
    }
    if row == items + 1 {
        return Activation::EditNew(Edit { buffer: String::new(), cursor: 0, select_all: false });
    }
    let text = to_owned(cols[col].items[row - 1].text.as_str());
    Activation::EditItem(Edit::prefilled(text, true))
}

/// The board after item `idx` of pillar `col` became `it`, all else kept.
pub open spec fn item_set(before: Seq<BoardColumn>, after: Seq<BoardColumn>, col: int, idx: int, it: Item) -> bool {
    &&& only_col_changed(before, after, col)
    &&& after[col].items@ == before[col].items@.update(idx, it)
}

/// Puts `it` in place of item `idx` of pillar `col`; returns the item that
/// was there.
pub(crate) fn replace_item(cols: &mut Vec<BoardColumn>, col: usize, idx: usize, it: Item) -> (r: Item)
    requires
        col < old(cols)@.len(),
        idx < old(cols)@[col as int].items@.len(),
    ensures
        r == old(cols)@[col as int].items@[idx as int],
        item_set(old(cols)@, final(cols)@, col as int, idx as int, it),
{
    let ghost before = cols@;
    let mut column = cols.remove(col);
    let ghost items = column.items@;
    let old_it = column.items.remove(idx);
    column.items.insert(idx, it);
    assert(column.items@ =~= items.update(idx as int, it));
    cols.insert(col, column);
    assert forall|j: int| 0 <= j < before.len() && j != col implies cols@[j] == before[j] by {
        if j < col {
        } else {
        }
    }
    old_it
}

/// Two item replacements in a row leave the board as the second one alone.
pub(crate) proof fn lemma_item_set_twice(a: Seq<BoardColumn>, b: Seq<BoardColumn>, c: Seq<BoardColumn>, col: int, idx: int, x: Item, y: Item)
    requires
        0 <= col < a.len(),
        0 <= idx < a[col].items@.len(),
        item_set(a, b, col, idx, x),
        item_set(b, c, col, idx, y),
    ensures
        item_set(a, c, col, idx, y),
{
    assert(c[col].items@ =~= a[col].items@.update(idx, y));
}

/// Where an inspector edit lands: the clamped cursor's pillar, and its row
/// less one (floored at the first item).
pub open spec fn inspected(k: Seq<usize>, c: Cursor) -> (int, int) {
    let (col, row, _) = clamped(k, c);
    (col, if row >= 1 { row - 1 } else { 0 })
}

/// Whether there is an item at (`col`, `idx`).
pub open spec fn has_item(cols: Seq<BoardColumn>, col: int, idx: int) -> bool {
    0 <= col < cols.len() && 0 <= idx < cols[col].items@.len()
}

/// An optional value from a label: none when the label is empty.
pub open spec fn opt_label(label: Seq<char>) -> Option<Seq<char>> {
    if label.len() == 0 { None } else { Some(label) }
}

/// Whether a commit of `label` in `mode` changes the item.
pub open spec fn applies_to(mode: InspectorMode, label: Seq<char>) -> bool {
    match mode {
        InspectorMode::Detail | InspectorMode::Note | InspectorMode::Attach => label.len() > 0,
        InspectorMode::Category | InspectorMode::Comment => true,
        _ => false,
    }
}

/// The text of the item under the cursor (empty on a header, a "+" slot or
/// the button).
pub open spec fn selected_text(cols: Seq<BoardColumn>, c: Cursor) -> Seq<char> {
    let (col, idx) = inspected(counts(cols), c);
    if !on_button(counts(cols), c) && clamped(counts(cols), c).1 > 0 && has_item(cols, col, idx) {
        cols[col].items@[idx].text@
    } else {
        Seq::empty()
    }
}

/// The board after the item at (`col`, `idx`) took an inspector commit.
pub open spec fn item_edited(
    before: Seq<BoardColumn>,
    after: Seq<BoardColumn>,
    col: int,
    idx: int,
    mode: InspectorMode,
    label: Seq<char>,
) -> bool {
    &&& only_col_changed(before, after, col)
    &&& after[col].items@.len() == before[col].items@.len()
    &&& forall|j: int| 0 <= j < before[col].items@.len() && j != idx ==> after[col].items@[j] == before[col].items@[j]
    &&& inspector_applied(before[col].items@[idx]@, after[col].items@[idx]@, mode, label)
}

/// What committing an inspector edit did.
pub struct InspectorCommit {
    /// The edit was an inspector edit (else it is a board edit).
    pub handled: bool,
    /// The board changed.
    pub changed: bool,
    /// An item's text changed from the first to the second (links follow).
    pub renamed: Option<(String, String)>,
    /// The editor reopens empty for another line.
    pub keep_editing: bool,
}

/// The item model after an inspector commit of `label` in `mode`.
pub open spec fn inspector_applied(before: ItemModel, after: ItemModel, mode: InspectorMode, label: Seq<char>) -> bool {
    match mode {
        InspectorMode::Detail => after == (ItemModel { text: label, modified: after.modified, ..before }),
        InspectorMode::Category => after == (ItemModel {
            category: opt_label(label),
            modified: after.modified,
            ..before
        }),
        InspectorMode::Comment => after == (ItemModel {
            comment: opt_label(label),
            modified: after.modified,
            ..before
        }),
        InspectorMode::Note => after == (ItemModel {
            note: before.note.push(label),
            modified: after.modified,
            ..before
        }),
        InspectorMode::Attach => after == (ItemModel {
            attachments: before.attachments.push(label),
            modified: after.modified,
            ..before
        }),
        _ => after == before,
    }
}

/// Commits a trimmed `label` typed in the inspector to the item under the
/// cursor: the text (details; never
/// blanked, a rename reported so links follow), the category or comment
/// (empty clears), or one more note line or attachment (empty adds nothing;
/// with `continue_add` the editor reopens). Other modes are not inspector
/// edits.
pub fn commit_inspector_edit(
    cols: &mut Vec<BoardColumn>,
    c: Cursor,
    mode: InspectorMode,
    label: &str,
    continue_add: bool,
) -> (r: InspectorCommit)
    requires
        small_counts(counts(old(cols)@)),
    ensures
        r.handled == !(mode is Idle || mode is LinkPick),
        r.keep_editing == (continue_add && (mode is Note || mode is Attach)),
        r.changed == (applies_to(mode, label@) && has_item(
            old(cols)@,
            inspected(counts(old(cols)@), c).0,
            inspected(counts(old(cols)@), c).1,
        )),
        r.changed ==> item_edited(
            old(cols)@,
            final(cols)@,
            inspected(counts(old(cols)@), c).0,
            inspected(counts(old(cols)@), c).1,
            mode,
            label@,
        ),
        !r.changed ==> final(cols)@ == old(cols)@,
        match r.renamed {
            Some((a, b)) => mode is Detail && label@.len() > 0 && a@ == selected_text(old(cols)@, c)
                && b@ == label@ && selected_text(old(cols)@, c) != label@,
            None => !(mode is Detail && label@.len() > 0 && selected_text(old(cols)@, c) != label@),
        },
{
    let ghost before = cols@;
    let k = item_counts(cols);
    let handled = match mode {
        InspectorMode::Idle | InspectorMode::LinkPick => false,
        _ => true,
    };
    if !handled {
        return InspectorCommit { handled: false, changed: false, renamed: None, keep_editing: false };
    }
    let keep_editing = continue_add && match mode {
        InspectorMode::Note | InspectorMode::Attach => true,
        _ => false,
    };
    let nonempty = chars_of(label).len() > 0;
    let applies = match mode {
        InspectorMode::Detail | InspectorMode::Note | InspectorMode::Attach => nonempty,
        _ => true,
    };
    let (col, row, _) = clamp_to_pillar(&k, c);
    let idx = if row >= 1 { row - 1 } else { 0 };
    // the text shown as selected before the edit (none on a header or the button)
    let selected_text = if !on_add_button(&k, c) && row > 0 && col < cols.len() && idx < cols[col].items.len() {
        to_owned(cols[col].items[idx].text.as_str())
    } else {
        String::new()
    };
    let present = col < cols.len() && idx < cols[col].items.len();
    let mut changed = false;
    if applies && present {
        let ph = Item::new("");
        let ghost phv = ph;
        let mut it = replace_item(cols, col, idx, ph);
        let ghost mid = cols@;
        let ghost orig = it@;
        match mode {
            InspectorMode::Detail => {
                it.text = to_owned(label);
            },
            InspectorMode::Category => {
                it.category = if !nonempty { None } else { Some(to_owned(label)) };
            },
            InspectorMode::Comment => {
                it.comment = if !nonempty { None } else { Some(to_owned(label)) };
            },
            InspectorMode::Note => {
                it.note.push(to_owned(label));
                assert(crate::protocol::svec(it.note@) =~= orig.note.push(label@));
            },
            _ => {
                it.attachments.push(to_owned(label));
                assert(crate::protocol::svec(it.attachments@) =~= orig.attachments.push(label@));
            },
        }
        it.touch();
        let _ = replace_item(cols, col, idx, it);
        proof {
            lemma_item_set_twice(before, mid, cols@, col as int, idx as int, phv, it);
        }
        changed = true;
    }
    let renamed = match mode {
        InspectorMode::Detail => {
            if nonempty && !str_eq(selected_text.as_str(), label) {
                Some((selected_text, to_owned(label)))
            } else {
                None
            }
        },
        _ => None,
    };
    InspectorCommit { handled: true, changed, renamed, keep_editing }
}

/// A header from its name and prompt halves: `"<name> — <prompt>"`, or the
/// name alone when the prompt is empty.
pub open spec fn joined_header(name: Seq<char>, prompt: Seq<char>) -> Seq<char> {
    if prompt.len() == 0 { name } else { name + " — "@ + prompt }
}

/// What committing a board edit did.
pub struct BoardCommit {
    /// The board changed.
    pub changed: bool,
    /// The board before this commit belongs in the undo history.
    pub undoable: bool,
    /// An item's text changed from the first to the second (links follow).
    pub renamed: Option<(String, String)>,
}

fn join_header(name: String, prompt: String) -> (r: String)
    ensures
        r@ == joined_header(name@, prompt@),
{
    if chars_of(prompt.as_str()).len() == 0 {
        name
    } else {
        let mut h = name;
        proof {
            reveal_strlit(" — ");
        }
        push_str(&mut h, " — ");
        push_str(&mut h, prompt.as_str());
        h
    }
}

/// Commits the edit buffer to the board, for edits other than the
/// inspector's. On a header, the edited half and the trimmed other half are
/// joined into the header, unless that leaves it blank. Elsewhere a blank
/// label does nothing; on a "+" slot it appends an item (titles kept unique
/// in the pillar), on an item it replaces the text and reports the rename.
pub fn commit_board_edit(
    cols: &mut Vec<BoardColumn>,
    c: Cursor,
    buffer: &str,
    header_other: &str,
    editing_prompt: bool,
) -> (r: BoardCommit)
    requires
        small_counts(counts(old(cols)@)),
        forall|j: int| 0 <= j < old(cols)@.len() ==> #[trigger] old(cols)@[j].items@.len() < usize::MAX - 3,
    ensures
        ({
            let (col, row, items) = clamped(counts(old(cols)@), c);
            let label = trim(buffer@);
            if row == 0 {
                let (name, prompt) = if editing_prompt {
                    (trim(header_other@), label)
                } else {
                    (label, trim(header_other@))
                };
                let h = joined_header(name, prompt);
                &&& r.changed == (trim(h).len() > 0 && col < old(cols)@.len())
                &&& !r.undoable
                &&& r.renamed is None
                &&& if r.changed {
                    &&& final(cols)@.len() == old(cols)@.len()
                    &&& forall|j: int| 0 <= j < old(cols)@.len() && j != col ==> final(cols)@[j] == old(cols)@[j]
                    &&& final(cols)@[col].header@ == h
                    &&& final(cols)@[col].key == old(cols)@[col].key
                    &&& final(cols)@[col].items@ == old(cols)@[col].items@
                } else {
                    final(cols)@ == old(cols)@
                }
            } else if label.len() == 0 {
                &&& !r.changed
                &&& !r.undoable
                &&& r.renamed is None
                &&& final(cols)@ == old(cols)@
            } else {
                let before = old(cols)@[col].items@;
                let after = final(cols)@[col].items@;
                &&& r.undoable
                &&& r.changed
                &&& only_col_changed(old(cols)@, final(cols)@, col)
                &&& if row == items + 1 {
                    &&& after.len() == before.len() + 1
                    &&& deduped(
                        texts(before.map_values(|i: Item| i@).push(plain_item(label))),
                        texts(after.map_values(|i: Item| i@)),
                    )
                    &&& forall|q: int| 0 <= q < before.len() ==> (#[trigger] after[q])@ == (ItemModel {
                        text: after[q]@.text,
                        ..before[q]@
                    })
                    &&& after[before.len() as int]@ == (ItemModel {
                        text: after[before.len() as int]@.text,
                        modified: after[before.len() as int]@.modified,
                        ..plain_item(label)
                    })
                    &&& r.renamed is None
                } else {
                    &&& after.len() == before.len()
                    &&& forall|q: int| 0 <= q < before.len() && q != row - 1 ==> after[q] == before[q]
                    &&& after[row - 1]@ == (ItemModel {
                        text: label,
                        modified: after[row - 1]@.modified,
                        ..before[row - 1]@
                    })
                    &&& match r.renamed {
                        Some((a, b)) => a@ == before[row - 1].text@ && b@ == label && a@ != label,
                        None => before[row - 1].text@ == label,
                    }
                }
            }
        }),
{
    let ghost before = cols@;
    let k = item_counts(cols);
    let (col, row, items) = clamp_to_pillar(&k, c);
    let label = trim_str(buffer);
    if row == 0 {
        let other = trim_str(header_other);
        let (name, prompt) = if editing_prompt { (other, label) } else { (label, other) };
        let header = join_header(name, prompt);
        let blank = chars_of(trim_str(header.as_str()).as_str()).len() == 0;
        if !blank && col < cols.len() {
            let mut column = cols.remove(col);
            column.header = header;
            cols.insert(col, column);
            assert forall|j: int| 0 <= j < before.len() && j != col implies cols@[j] == before[j] by {
                if j < col {
                } else {
                }
            }
            return BoardCommit { changed: true, undoable: false, renamed: None };
        }
        return BoardCommit { changed: false, undoable: false, renamed: None };
    }
    if chars_of(label.as_str()).len() == 0 {
        return BoardCommit { changed: false, undoable: false, renamed: None };
    }
    if row == items + 1 {
        let mut column = cols.remove(col);
        let ghost its = column.items@;
        column.items.push(Item::new(label.as_str()));
        let ghost pushed = column.items@;
        assert(pushed.map_values(|i: Item| i@) =~= its.map_values(|i: Item| i@).push(plain_item(label@)));
        dedupe_items(&mut column);
        let last = column.items.len() - 1;
        let ghost deduped_items = column.items@;
        let mut it = column.items.remove(last);
        it.touch();
        column.items.push(it);
        assert(column.items@.take(last as int) =~= deduped_items.take(last as int));
        proof {
            let a = texts(column.items@.map_values(|i: Item| i@));
            let b = texts(deduped_items.map_values(|i: Item| i@));
            assert(a =~= b);
        }
        cols.insert(col, column);
        assert forall|j: int| 0 <= j < before.len() && j != col implies cols@[j] == before[j] by {
            if j < col {
            } else {
            }
        }
        BoardCommit { changed: true, undoable: true, renamed: None }
    } else {
        let ph = Item::new("");
        let ghost phv = ph;
        let mut it = replace_item(cols, col, row - 1, ph);
        let ghost mid = cols@;
        let old_text = to_owned(it.text.as_str());
        it.text = to_owned(label.as_str());
        it.touch();
        let _ = replace_item(cols, col, row - 1, it);
        proof {
            lemma_item_set_twice(before, mid, cols@, col as int, row - 1, phv, it);
        }
        let renamed = if str_eq(old_text.as_str(), label.as_str()) {
            None
        } else {
            Some((old_text, label))
        };
        BoardCommit { changed: true, undoable: true, renamed }
    }
}

/// The next status in the inspector's cycle: none, ok, pending, ko,
/// justified, none.
pub open spec fn next_status(s: Option<Status>) -> Option<Status> {
    match s {
        None => Some(Status::Okay),
        Some(Status::Okay) => Some(Status::Pending),
        Some(Status::Pending) => Some(Status::Fail),
        Some(Status::Fail) => Some(Status::Justified),
        Some(Status::Justified) => None,
    }
}

/// A one-step change to the selected item from the inspector.
pub enum ItemEdit {
    /// Cycle the status.
    CycleStatus,
    /// Flip the parentless-by-design flag.
    ToggleDerived,
    /// Append an attachment reference.
    Attach(String),
    /// Add or remove a link to a parent-layer title.
    ToggleLink(String),
}

/// The links after toggling `t`: its first occurrence removed if present,
/// else added, sorted and deduplicated.
pub open spec fn links_toggled(before: Seq<Seq<char>>, after: Seq<Seq<char>>, t: Seq<char>) -> bool {
    if before.contains(t) {
        after == before.remove(first_pos(before, t))
    } else {
        strictly_sorted(after) && after.to_set() == before.to_set().insert(t)
    }
}

/// The index of the first occurrence of `t` in `s`.
pub open spec fn first_pos(s: Seq<Seq<char>>, t: Seq<char>) -> int
    decreases s.len(),
{
    if s.len() == 0 || s[0] == t { 0 } else { 1 + first_pos(s.drop_first(), t) }
}

proof fn lemma_first_pos(s: Seq<Seq<char>>, t: Seq<char>, i: int)
    requires
        0 <= i <= s.len(),
        forall|j: int| 0 <= j < i ==> s[j] != t,
    ensures
        first_pos(s, t) == i + first_pos(s.skip(i), t),
    decreases i,
{
    if i > 0 {
        lemma_first_pos(s.drop_first(), t, i - 1);
        assert(s.drop_first().skip(i - 1) =~= s.skip(i));
    } else {
        assert(s.skip(0) =~= s);
    }
}

/// The item model after an inspector step.
pub open spec fn item_edit_applied(before: ItemModel, after: ItemModel, e: ItemEdit) -> bool {
    match e {
        ItemEdit::CycleStatus => after == (ItemModel {
            status: next_status(before.status),
            modified: after.modified,
            ..before
        }),
        ItemEdit::ToggleDerived => after == (ItemModel {
            derived: !before.derived,
            modified: after.modified,
            ..before
        }),
        ItemEdit::Attach(p) => after == (ItemModel {
            attachments: before.attachments.push(p@),
            modified: after.modified,
            ..before
        }),
        ItemEdit::ToggleLink(t) => {
            &&& after == (ItemModel { serves: after.serves, modified: after.modified, ..before })
            &&& links_toggled(before.serves, after.serves, t@)
        },
    }
}

/// The item an inspector step acts on: the clamped cursor's pillar and row
/// less one; none on a header, or for an attachment with an empty path.
pub open spec fn edit_target(k: Seq<usize>, c: Cursor, e: ItemEdit) -> bool {
    let (_, row, _) = clamped(k, c);
    row != 0 && !(e matches ItemEdit::Attach(p) && p@.len() == 0)
}

/// Applies an inspector step to the item under the cursor. Returns whether
/// the board before it belongs in the undo history (the step was taken) and
/// whether the board changed (an item was there).
pub fn edit_selected(cols: &mut Vec<BoardColumn>, c: Cursor, e: ItemEdit) -> (r: (bool, bool))
    requires
        small_counts(counts(old(cols)@)),
    ensures
        r.0 == edit_target(counts(old(cols)@), c, e),
        r.1 == (r.0 && has_item(
            old(cols)@,
            inspected(counts(old(cols)@), c).0,
            inspected(counts(old(cols)@), c).1,
        )),
        r.1 ==> {
            let (col, idx) = inspected(counts(old(cols)@), c);
            &&& only_col_changed(old(cols)@, final(cols)@, col)
            &&& final(cols)@[col].items@.len() == old(cols)@[col].items@.len()
            &&& forall|j: int| 0 <= j < old(cols)@[col].items@.len() && j != idx
                ==> final(cols)@[col].items@[j] == old(cols)@[col].items@[j]
            &&& item_edit_applied(old(cols)@[col].items@[idx]@, final(cols)@[col].items@[idx]@, e)
        },
        !r.1 ==> final(cols)@ == old(cols)@,
{
    let ghost before = cols@;
    let ghost ev = e;
    let k = item_counts(cols);
    let (col, row, _) = clamp_to_pillar(&k, c);
    if row == 0 {
        return (false, false);
    }
    let blank_path = match &e {
        ItemEdit::Attach(p) => chars_of(p.as_str()).len() == 0,
        _ => false,
    };
    if blank_path {
        return (false, false);
    }
    let idx = row - 1;
    if !(col < cols.len() && idx < cols[col].items.len()) {
        return (true, false);
    }
    let ph = Item::new("");
    let ghost phv = ph;
    let mut it = replace_item(cols, col, idx, ph);
    let ghost mid = cols@;
    let ghost orig = it@;
    match e {
        ItemEdit::CycleStatus => {
            it.status = match it.status {
                None => Some(Status::Okay),
                Some(Status::Okay) => Some(Status::Pending),
                Some(Status::Pending) => Some(Status::Fail),
                Some(Status::Fail) => Some(Status::Justified),
                Some(Status::Justified) => None,
            };
        },
        ItemEdit::ToggleDerived => {
            it.derived = !it.derived;
        },
        ItemEdit::Attach(p) => {
            let ghost pv = p@;
            it.attachments.push(p);
            assert(svec(it.attachments@) =~= orig.attachments.push(pv));
        },
        ItemEdit::ToggleLink(t) => {
            let ghost tv = t@;
            let mut j: usize = 0;
            while j < it.serves.len() && !str_eq(it.serves[j].as_str(), t.as_str())
                invariant
                    j <= it.serves@.len(),
                    svec(it.serves@) == orig.serves,
                    t@ == tv,
                    forall|q: int| 0 <= q < j ==> orig.serves[q] != tv,
                decreases it.serves.len() - j,
            {
                assert(orig.serves[j as int] == it.serves@[j as int]@);
                j += 1;
            }
            proof {
                lemma_first_pos(orig.serves, tv, j as int);
                if j < it.serves@.len() {
                    assert(orig.serves.skip(j as int)[0] == tv);
                    assert(orig.serves.contains(tv));
                } else {
                    assert(!orig.serves.contains(tv));
                }
            }
            if j < it.serves.len() {
                it.serves.remove(j);
                assert(svec(it.serves@) =~= orig.serves.remove(j as int));
            } else {
                let mut v = it.serves;
                v.push(t);
                proof {
                    assert(strs(v@) =~= orig.serves.push(tv));
                    crate::graph::lemma_push_contains(orig.serves, tv);
                }
                it.serves = sorted_set(v);
                assert(svec(it.serves@) =~= strs(it.serves@));
            }
        },
    }
    it.touch();
    let _ = replace_item(cols, col, idx, it);
    proof {
        lemma_item_set_twice(before, mid, cols@, col as int, idx as int, phv, it);
    }
    (true, true)
}

/// Links after renaming `old` to `new`.
pub open spec fn renamed_links(s: Seq<Seq<char>>, old: Seq<char>, new: Seq<char>) -> Seq<Seq<char>> {
    s.map_values(|x: Seq<char>| if x == old { new } else { x })
}

/// An item's links after a rename: untouched if none named `old`, else the
/// renamed links sorted and deduplicated.
pub open spec fn links_renamed(before: Seq<Seq<char>>, after: Seq<Seq<char>>, old: Seq<char>, new: Seq<char>) -> bool {
    if before.contains(old) {
        strictly_sorted(after) && after.to_set() == renamed_links(before, old, new).to_set()
    } else {
        after == before
    }
}

/// An item after a rename: only its links may differ.
pub open spec fn item_renamed(before: ItemModel, after: ItemModel, old: Seq<char>, new: Seq<char>) -> bool {
    &&& after == (ItemModel { serves: after.serves, ..before })
    &&& links_renamed(before.serves, after.serves, old, new)
}

fn rename_in_item(it: &mut Item, from: &str, to: &str)
    ensures
        item_renamed(old(it)@, final(it)@, from@, to@),
{
    let ghost orig = it@;
    let mut out: Vec<String> = Vec::new();
    let mut hit = false;
    let mut i: usize = 0;
    while i < it.serves.len()
        invariant
            i <= it.serves@.len(),
            it@ == orig,
            strs(out@) == renamed_links(orig.serves.take(i as int), from@, to@),
            hit == orig.serves.take(i as int).contains(from@),
        decreases it.serves.len() - i,
    {
        let ghost prev = orig.serves.take(i as int);
        assert(orig.serves.take(i + 1) =~= prev.push(orig.serves[i as int]));
        proof {
            crate::graph::lemma_push_contains(prev, orig.serves[i as int]);
        }
        let ghost po = strs(out@);
        let x = if str_eq(it.serves[i].as_str(), from) {
            hit = true;
            to_owned(to)
        } else {
            to_owned(it.serves[i].as_str())
        };
        let ghost xv = x@;
        out.push(x);
        assert(strs(out@) =~= po.push(xv));
        assert(renamed_links(orig.serves.take(i + 1), from@, to@) =~= renamed_links(prev, from@, to@).push(
            xv,
        ));
        i += 1;
    }
    assert(orig.serves.take(it.serves@.len() as int) =~= orig.serves);
    if hit {
        it.serves = sorted_set(out);
        assert(svec(it.serves@) =~= strs(it.serves@));
    }
}

/// Renames every link that names `from` to `to` on a board, so links follow
/// an edited title, on one page.
pub fn rename_links(cols: &mut Vec<BoardColumn>, from: &str, to: &str)
    ensures
        from@ == to@ ==> final(cols)@ == old(cols)@,
        final(cols)@.len() == old(cols)@.len(),
        from@ != to@ ==> forall|j: int|
            0 <= j < old(cols)@.len() ==> {
                &&& (#[trigger] final(cols)@[j]).header == old(cols)@[j].header
                &&& final(cols)@[j].key == old(cols)@[j].key
                &&& final(cols)@[j].items@.len() == old(cols)@[j].items@.len()
                &&& forall|q: int|
                    0 <= q < old(cols)@[j].items@.len() ==> item_renamed(
                        old(cols)@[j].items@[q]@,
                        (#[trigger] final(cols)@[j].items@[q])@,
                        from@,
                        to@,
                    )
            },
{
    if str_eq(from, to) {
        return;
    }
    let ghost orig = cols@;
    let mut out: Vec<BoardColumn> = Vec::new();
    let mut j: usize = 0;
    let n = cols.len();
    while j < n
        invariant
            j <= n == orig.len(),
            cols@ == orig.skip(j as int),
            out@.len() == j,
            forall|a: int|
                0 <= a < j ==> {
                    &&& (#[trigger] out@[a]).header == orig[a].header
                    &&& out@[a].key == orig[a].key
                    &&& out@[a].items@.len() == orig[a].items@.len()
                    &&& forall|q: int|
                        0 <= q < orig[a].items@.len() ==> item_renamed(
                            orig[a].items@[q]@,
                            (#[trigger] out@[a].items@[q])@,
                            from@,
                            to@,
                        )
                },
        decreases n - j,
    {
        let ghost c0 = cols@;
        let mut column = cols.remove(0);
        assert(column == orig[j as int]);
        assert(cols@ =~= orig.skip(j + 1));
        let ghost items0 = column.items@;
        let mut items: Vec<Item> = Vec::new();
        let m = column.items.len();
        let mut q: usize = 0;
        while q < m
            invariant
                q <= m == items0.len(),
                column.items@ == items0.skip(q as int),
                column.header == orig[j as int].header,
                column.key == orig[j as int].key,
                items@.len() == q,
                forall|b: int| 0 <= b < q ==> item_renamed(items0[b]@, (#[trigger] items@[b])@, from@, to@),
            decreases m - q,
        {
            let mut it = column.items.remove(0);
            assert(it == items0[q as int]);
            assert(column.items@ =~= items0.skip(q + 1));
            rename_in_item(&mut it, from, to);
            items.push(it);
            q += 1;
        }
        column.items = items;
        let ghost po = out@;
        out.push(column);
        assert forall|a: int| 0 <= a < j + 1 implies {
            &&& (#[trigger] out@[a]).header == orig[a].header
            &&& out@[a].key == orig[a].key
            &&& out@[a].items@.len() == orig[a].items@.len()
            &&& forall|q: int|
                0 <= q < orig[a].items@.len() ==> item_renamed(
                    orig[a].items@[q]@,
                    (#[trigger] out@[a].items@[q])@,
                    from@,
                    to@,
                )
        } by {
            if a < j {
                assert(out@[a] == po[a]);
            }
        }
        j += 1;
    }
    *cols = out;
}

/// The categories in use on a board, each once, sorted.
pub fn category_candidates(cols: &Vec<BoardColumn>) -> (r: Vec<String>)
    ensures
        strictly_sorted(strs(r@)),
        forall|t: Seq<char>|
            strs(r@).contains(t) <==> exists|j: int, q: int|
                0 <= j < cols@.len() && 0 <= q < cols@[j].items@.len() && (#[trigger] cols@[j].items@[q])@.category
                    == Some(t),
{
    let mut all: Vec<String> = Vec::new();
    let mut j: usize = 0;
    while j < cols.len()
        invariant
            j <= cols@.len(),
            forall|t: Seq<char>|
                strs(all@).contains(t) <==> exists|a: int, q: int|
                    0 <= a < j && 0 <= q < cols@[a].items@.len() && (#[trigger] cols@[a].items@[q])@.category
                        == Some(t),
        decreases cols.len() - j,
    {
        let mut q: usize = 0;
        while q < cols[j].items.len()
            invariant
                j < cols@.len(),
                q <= cols@[j as int].items@.len(),
                forall|t: Seq<char>|
                    strs(all@).contains(t) <==> (exists|a: int, b: int|
                        0 <= a < j && 0 <= b < cols@[a].items@.len() && (#[trigger] cols@[a].items@[b])@.category
                            == Some(t)) || (exists|b: int|
                        0 <= b < q && (#[trigger] cols@[j as int].items@[b])@.category == Some(t)),
            decreases cols@[j as int].items@.len() - q,
        {
            if let Some(cat) = &cols[j].items[q].category {
                let ghost prev = strs(all@);
                all.push(to_owned(cat.as_str()));
                proof {
                    assert(strs(all@) =~= prev.push(cat@));
                    crate::graph::lemma_push_contains(prev, cat@);
                    assert(cols@[j as int].items@[q as int]@.category == Some(cat@));
                }
            }
            q += 1;
        }
        j += 1;
    }
    let r = sorted_set(all);
    proof {
        assert forall|t: Seq<char>| strs(r@).contains(t) <==> strs(all@).contains(t) by {
            assert(strs(r@).to_set().contains(t) == strs(r@).contains(t));
            assert(strs(all@).to_set().contains(t) == strs(all@).contains(t));
        }
    }
    r
}

/// The titles one layer up the chain that an item may link to: every item
/// of the parent board, pillar by pillar.
pub open spec fn flat_texts(cols: Seq<BoardColumn>) -> Seq<Seq<char>>
    decreases cols.len(),
{
    if cols.len() == 0 {
        Seq::empty()
    } else {
        flat_texts(cols.drop_last()) + svec_texts(cols.last().items@)
    }
}

pub open spec fn svec_texts(items: Seq<Item>) -> Seq<Seq<char>> {
    items.map_values(|i: Item| i.text@)
}

/// Every item title of a board, pillar by pillar.
pub fn board_titles(cols: &Vec<BoardColumn>) -> (r: Vec<String>)
    ensures
        strs(r@) == flat_texts(cols@),
{
    let mut out: Vec<String> = Vec::new();
    let mut j: usize = 0;
    while j < cols.len()
        invariant
            j <= cols@.len(),
            strs(out@) == flat_texts(cols@.take(j as int)),
        decreases cols.len() - j,
    {
        assert(cols@.take(j + 1).drop_last() =~= cols@.take(j as int));
        let ghost base = strs(out@);
        let mut q: usize = 0;
        while q < cols[j].items.len()
            invariant
                j < cols@.len(),
                q <= cols@[j as int].items@.len(),
                strs(out@) == base + svec_texts(cols@[j as int].items@).take(q as int),
            decreases cols@[j as int].items@.len() - q,
        {
            let ghost po = strs(out@);
            let x = to_owned(cols[j].items[q].text.as_str());
            out.push(x);
            assert(strs(out@) =~= po.push(cols@[j as int].items@[q as int].text@));
            assert(svec_texts(cols@[j as int].items@).take(q + 1) =~= svec_texts(cols@[j as int].items@).take(
                q as int,
            ).push(cols@[j as int].items@[q as int].text@));
            assert(strs(out@) =~= base + svec_texts(cols@[j as int].items@).take(q + 1));
            q += 1;
        }
        assert(svec_texts(cols@[j as int].items@).take(q as int) =~= svec_texts(cols@[j as int].items@));
        j += 1;
    }
    assert(cols@.take(cols@.len() as int) =~= cols@);
    out
}

} // verus!
