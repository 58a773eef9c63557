//! Inline text editing of a board slot, and the viewer's interaction modes.
use vstd::prelude::*;

use crate::text::{chars_of, push_char, push_str, string_of};

verus! {

/// The single inspector edit in progress.
#[derive(Debug, Clone, Copy, PartialEq, Eq, Structural)]
pub enum InspectorMode {
    Idle,
    /// Picking the element's links from the parent layer.
    LinkPick,
    /// Typing a note line (continue-add).
    Note,
    /// Typing a new attachment reference (continue-add).
    Attach,
    /// Editing the category tag.
    Category,
    /// Editing the result comment.
    Comment,
    /// Editing the item's text.
    Detail,
}

impl Default for InspectorMode {
    fn default() -> (r: Self)
        ensures
            r == InspectorMode::Idle,
    {
        InspectorMode::Idle
    }
}

/// Inline text-edit state for the selected slot.
#[derive(Debug, PartialEq)]
pub struct Edit {
    pub buffer: String,
    /// Cursor position as a character index into `buffer`.
    pub cursor: usize,
    /// Whole field highlighted: the next keystroke replaces it, an arrow
    /// collapses the cursor to that edge.
    pub select_all: bool,
}

/// An edit as pure data.
pub struct EditModel {
    pub buffer: Seq<char>,
    pub cursor: int,
    pub select_all: bool,
}

impl View for Edit {
    type V = EditModel;

    open spec fn view(&self) -> EditModel {
        EditModel { buffer: self.buffer@, cursor: self.cursor as int, select_all: self.select_all }
    }
}

/// What the board is doing.
#[derive(Debug, PartialEq)]
pub enum Mode {
    Normal,
    /// Inline text editing: adding a new item or editing an existing one.
    Edit(Edit),
    /// Awaiting y/n to delete the selected item.
    ConfirmDelete,
}

impl Default for Mode {
    fn default() -> (r: Self)
        ensures
            r is Normal,
    {
        Mode::Normal
    }
}

/// Kind of interactive page currently active.
#[derive(Debug, Clone, Copy, PartialEq, Eq, Structural)]
pub enum PageKind {
    Board,
    Other,
}

/// A generic UI button.
#[derive(Debug, Clone, Copy, PartialEq, Eq, Structural)]
pub enum Button {
    AddPillar,
}

/// What a clicked region maps to.
#[derive(Debug, Clone, Copy)]
pub enum Hit {
    /// A grid cell (row 0 = header).
    Cell { col: usize, row: usize },
    /// A button.
    Button(Button),
}

/// A clickable region on screen, one row high.
#[derive(Debug, Clone, Copy)]
pub struct HitRegion {
    pub x: u16,
    pub y: u16,
    pub w: u16,
    pub hit: Hit,
}

/// Whether screen point (`x`, `y`) falls in the region.
pub open spec fn in_region(r: HitRegion, x: int, y: int) -> bool {
    y == r.y && r.x <= x < r.x + r.w
}

/// The first recorded region holding the point.
pub open spec fn hit_at(rs: Seq<HitRegion>, x: int, y: int) -> Option<Hit>
    decreases rs.len(),
{
    if rs.len() == 0 {
        None
    } else if in_region(rs[0], x, y) {
        Some(rs[0].hit)
    } else {
        hit_at(rs.drop_first(), x, y)
    }
}

/// What a left click at (`x`, `y`) lands on: the first region holding it.
pub fn click_hit(rs: &Vec<HitRegion>, x: u16, y: u16) -> (r: Option<Hit>)
    ensures
        r == hit_at(rs@, x as int, y as int),
{
    let mut i: usize = 0;
    assert(rs@.skip(0) =~= rs@);
    while i < rs.len()
        invariant
            i <= rs@.len(),
            hit_at(rs@, x as int, y as int) == hit_at(rs@.skip(i as int), x as int, y as int),
        decreases rs.len() - i,
    {
        let r = rs[i];
        assert(rs@.skip(i as int)[0] == r);
        assert(rs@.skip(i as int).drop_first() =~= rs@.skip(i + 1));
        if r.y == y && r.x <= x && (x as u32) < r.x as u32 + r.w as u32 {
            return Some(r.hit);
        }
        i = i + 1;
    }
    None
}

/// Search/filter state over the active board.
#[derive(Debug, Default)]
pub struct Search {
    pub query: String,
    pub cursor: usize,
}

/// In-viewer file browser state for picking a local attachment.
#[derive(Debug, Default)]
pub struct Browse {
    /// Current directory (display string).
    pub dir: String,
    /// Entries in `dir`: (name, is_dir); `..` is always first.
    pub entries: Vec<(String, bool)>,
    pub cursor: usize,
}

/// `s` with `c` inserted before position `i`.
pub open spec fn insert_at(s: Seq<char>, i: int, c: char) -> Seq<char> {
    s.take(i).push(c) + s.skip(i)
}

/// `s` without the character at position `i`.
pub open spec fn remove_at(s: Seq<char>, i: int) -> Seq<char> {
    s.take(i) + s.skip(i + 1)
}

/// A cleared buffer after a keystroke over a whole-field selection.
pub open spec fn cleared() -> EditModel {
    EditModel { buffer: Seq::empty(), cursor: 0, select_all: false }
}

/// A typed character: replaces the field when it was all selected, else is
/// inserted at the cursor (or at the end when the cursor is past it).
pub open spec fn typed(e: EditModel, ch: char) -> EditModel {
    let b = if e.select_all { cleared() } else { e };
    let at = if b.cursor <= b.buffer.len() { b.cursor } else { b.buffer.len() as int };
    EditModel { buffer: insert_at(b.buffer, at, ch), cursor: b.cursor + 1, select_all: false }
}

/// Backspace: clears an all-selected field, else removes the character
/// before the cursor and steps back.
pub open spec fn backspaced(e: EditModel) -> EditModel {
    if e.select_all {
        cleared()
    } else if e.cursor > 0 {
        EditModel {
            buffer: if e.cursor - 1 < e.buffer.len() {
                remove_at(e.buffer, e.cursor - 1)
            } else {
                e.buffer
            },
            cursor: e.cursor - 1,
            select_all: false,
        }
    } else {
        e
    }
}

/// Delete: clears an all-selected field, else removes the character under
/// the cursor.
pub open spec fn deleted_forward(e: EditModel) -> EditModel {
    if e.select_all {
        cleared()
    } else if e.cursor < e.buffer.len() {
        EditModel { buffer: remove_at(e.buffer, e.cursor), cursor: e.cursor, select_all: false }
    } else {
        e
    }
}

/// Left arrow: collapses a selection to its start, else steps back.
pub open spec fn moved_left(e: EditModel) -> EditModel {
    if e.select_all {
        EditModel { buffer: e.buffer, cursor: 0, select_all: false }
    } else {
        EditModel {
            buffer: e.buffer,
            cursor: if e.cursor > 0 { e.cursor - 1 } else { 0 },
            select_all: false,
        }
    }
}

/// Right arrow: collapses a selection to its end, else steps forward up to
/// the end.
pub open spec fn moved_right(e: EditModel) -> EditModel {
    let len = e.buffer.len() as int;
    if e.select_all {
        EditModel { buffer: e.buffer, cursor: len, select_all: false }
    } else {
        EditModel {
            buffer: e.buffer,
            cursor: if e.cursor + 1 <= len { e.cursor + 1 } else { len },
            select_all: false,
        }
    }
}

/// The buffer's characters with `[lo, hi)` left out.
fn without(v: &Vec<char>, lo: usize, hi: usize) -> (r: String)
    requires
        lo <= hi <= v.len(),
    ensures
        r@ == v@.take(lo as int) + v@.skip(hi as int),
{
    let mut s = string_of(v, 0, lo);
    let t = string_of(v, hi, v.len());
    push_str(&mut s, t.as_str());
    assert(v@.subrange(0, lo as int) =~= v@.take(lo as int));
    assert(v@.subrange(hi as int, v@.len() as int) =~= v@.skip(hi as int));
    s
}

impl Edit {
    /// A fresh edit over `buffer`, the cursor at its end, all selected or not.
    pub fn prefilled(buffer: String, select_all: bool) -> (r: Edit)
        ensures
            r@ == (EditModel { buffer: buffer@, cursor: buffer@.len() as int, select_all }),
    {
        let v = chars_of(buffer.as_str());
        let cursor = v.len();
        Edit { buffer, cursor, select_all }
    }

    /// A typed character.
    pub fn edit_char(&mut self, ch: char)
        requires
            old(self).select_all || old(self).cursor < usize::MAX,
        ensures
            final(self)@ == typed(old(self)@, ch),
    {
        if self.select_all {
            self.buffer = String::new();
            self.cursor = 0;
            self.select_all = false;
        }
        let v = chars_of(self.buffer.as_str());
        let at = if self.cursor <= v.len() { self.cursor } else { v.len() };
        let mut s = string_of(&v, 0, at);
        push_char(&mut s, ch);
        let t = string_of(&v, at, v.len());
        push_str(&mut s, t.as_str());
        assert(v@.subrange(0, at as int) =~= v@.take(at as int));
        assert(v@.subrange(at as int, v@.len() as int) =~= v@.skip(at as int));
        self.buffer = s;
        self.cursor = self.cursor + 1;
    }

    /// Backspace.
    pub fn edit_backspace(&mut self)
        ensures
            final(self)@ == backspaced(old(self)@),
    {
        if self.select_all {
            self.buffer = String::new();
            self.cursor = 0;
            self.select_all = false;
        } else if self.cursor > 0 {
            let v = chars_of(self.buffer.as_str());
            if self.cursor - 1 < v.len() {
                self.buffer = without(&v, self.cursor - 1, self.cursor);
            }
            self.cursor = self.cursor - 1;
        }
    }

    /// Delete.
    pub fn edit_delete_forward(&mut self)
        ensures
            final(self)@ == deleted_forward(old(self)@),
    {
        let v = chars_of(self.buffer.as_str());
        if self.select_all {
            self.buffer = String::new();
            self.cursor = 0;
            self.select_all = false;
        } else if self.cursor < v.len() {
            self.buffer = without(&v, self.cursor, self.cursor + 1);
        }
    }

    /// Left arrow.
    pub fn edit_left(&mut self)
        ensures
            final(self)@ == moved_left(old(self)@),
    {
        if self.select_all {
            self.cursor = 0;
            self.select_all = false;
        } else if self.cursor > 0 {
            self.cursor = self.cursor - 1;
        }
    }

    /// Right arrow.
    pub fn edit_right(&mut self)
        ensures
            final(self)@ == moved_right(old(self)@),
    {
        let len = chars_of(self.buffer.as_str()).len();
        if self.select_all {
            self.cursor = len;
            self.select_all = false;
        } else if self.cursor < len {
            self.cursor = self.cursor + 1;
        } else {
            self.cursor = len;
        }
    }

    /// Tab on a header edit: the buffer and
    /// the header's other half trade places, and the half now being edited
    /// is all selected with the cursor at its end.
    pub fn switch_part(&mut self, other: &mut String)
        ensures
            final(self)@ == (EditModel {
                buffer: old(other)@,
                cursor: old(other)@.len() as int,
                select_all: true,
            }),
            final(other)@ == old(self).buffer@,
    {
        std::mem::swap(&mut self.buffer, other);
        self.cursor = chars_of(self.buffer.as_str()).len();
        self.select_all = true;
    }
}

/// Backspace undoes a typed character: typing then erasing leaves the field
/// as it was, whenever nothing was selected and the cursor was within it.
pub proof fn law_backspace_undoes_typing(e: EditModel, ch: char)
    requires
        !e.select_all,
        0 <= e.cursor <= e.buffer.len(),
    ensures
        backspaced(typed(e, ch)) == e,
{
    let t = typed(e, ch);
    assert(remove_at(t.buffer, e.cursor) =~= e.buffer);
}

/// Every keystroke keeps the cursor within the buffer.
pub proof fn law_cursor_stays_in_buffer(e: EditModel, ch: char)
    requires
        0 <= e.cursor <= e.buffer.len(),
    ensures
        0 <= typed(e, ch).cursor <= typed(e, ch).buffer.len(),
        0 <= backspaced(e).cursor <= backspaced(e).buffer.len(),
        0 <= deleted_forward(e).cursor <= deleted_forward(e).buffer.len(),
        0 <= moved_left(e).cursor <= moved_left(e).buffer.len(),
        0 <= moved_right(e).cursor <= moved_right(e).buffer.len(),
{
}

} // verus!
