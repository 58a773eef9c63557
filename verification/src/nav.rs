//! Cursor motion over a board drawn as a table of tables: pillars (columns)
//! laid out in `k` lanes, each pillar a header (row 0), its items (rows
//! 1..=len) and a "+" slot (row len+1), and past the last pillar the
//! add-pillar button (column `n`, row 0). Cards boards stack one section per
//! pillar and wrap its boxes into rows of `k`.
use vstd::prelude::*;

use crate::agent::{area_of, spec_area_of};
use crate::protocol::{BoardColumn, ItemModel};
use crate::state::last_in_lane;
use crate::text::str_eq;

verus! {

/// A board cursor: `col` is the pillar, `row` the position inside it
/// (0 = header, 1..=items = an item, items+1 = the "+" slot).
#[derive(Debug, Clone, Copy, PartialEq, Eq, Structural)]
pub struct Cursor {
    pub col: usize,
    pub row: usize,
}

impl Default for Cursor {
    /// The cursor starts on the first item; the header is a deliberate detour.
    fn default() -> (r: Self)
        ensures
            r.col == 0,
            r.row == 1,
    {
        Cursor { col: 0, row: 1 }
    }
}

/// Euclidean remainder of `a` by a positive `n`.
pub open spec fn wrap(a: int, n: int) -> int {
    a % n
}

/// `i` moved by `delta` on a ring of `n` positions.
pub fn wrap_index(i: usize, delta: isize, n: usize) -> (r: usize)
    requires
        n > 0,
    ensures
        r as int == wrap(i + delta, n as int),
        r < n,
{
    let nn = n as u128;
    let iu = i as u128;
    if delta >= 0 {
        let d = (delta as u128) % nn;
        proof {
            vstd::arithmetic::div_mod::lemma_add_mod_noop_right(i as int, delta as int, n as int);
        }
        ((iu + d) % nn) as usize
    } else {
        let m = ((0i128 - delta as i128) as u128) % nn;
        proof {
            let md = -(delta as int);
            // i + delta == (i + n - m) + n * (-(md / n) - 1)
            vstd::arithmetic::div_mod::lemma_fundamental_div_mod(md, n as int);
            vstd::arithmetic::div_mod::lemma_mod_multiples_vanish(
                -(md / (n as int)) - 1,
                (i + n - m) as int,
                n as int,
            );
            assert(i + delta == (n as int) * (-(md / (n as int)) - 1) + (i + n - m) as int) by (
            nonlinear_arith)
                requires
                    md == (n as int) * (md / (n as int)) + m,
                    md == -(delta as int),
            ;
        }
        ((iu + nn - m) % nn) as usize
    }
}

/// The first navigable row of cell `c`: a pillar's first item, or the button.
pub open spec fn top_row(items: Seq<usize>, c: int) -> int {
    if c < items.len() { 1 } else { 0 }
}

/// The last navigable row of cell `c`: a pillar's "+" slot, or the button.
pub open spec fn bot_row(items: Seq<usize>, c: int) -> int {
    if c < items.len() { items[c] + 1 } else { 0 }
}

/// The bottom-most cell of `lane` in a grid of `cells` cells over `k` lanes.
pub open spec fn lane_last(lane: int, cells: int, k: int) -> int {
    lane + k * ((cells - 1 - lane) / k)
}

/// The lane count the navigation uses: at least one.
pub open spec fn lanes_of(lanes: usize) -> int {
    if lanes == 0 { 1 } else { lanes as int }
}

/// The cursor clamped into the grid of pillars plus the add button.
pub open spec fn grid_col(items: Seq<usize>, c: Cursor) -> int {
    if c.col <= items.len() { c.col as int } else { items.len() as int }
}

pub open spec fn grid_row(items: Seq<usize>, c: Cursor) -> int {
    let col = grid_col(items, c);
    let mi = if col == items.len() { 0 } else { items[col] + 1 };
    if c.row <= mi { c.row as int } else { mi }
}

/// Whether an upward move from the cursor wraps to the previous lane.
pub open spec fn grid_vert_wraps_up(items: Seq<usize>, k: int, c: Cursor, delta: int) -> bool {
    let col = grid_col(items, c);
    let row = grid_row(items, c);
    let is_btn = col == items.len();
    &&& is_btn || row != 0
    &&& delta <= 0
    &&& is_btn || row <= 1
    &&& col < k
}

/// Up/Down over a grid board: items, "+" slots and the add button; headers
/// are skipped unless the cursor already sits on one. Past the bottom of a
/// lane the cursor moves to the top of the next lane, and past the top to
/// the bottom of the previous lane.
pub open spec fn grid_vert(items: Seq<usize>, k: int, c: Cursor, delta: int) -> (int, int) {
    let n = items.len() as int;
    let cells = n + 1;
    let col = grid_col(items, c);
    let is_btn = col == n;
    let mi = if is_btn { 0 } else { items[col] + 1 };
    let row = grid_row(items, c);
    let lane = col % k;
    if !is_btn && row == 0 {
        if delta > 0 {
            (col, 1)
        } else if col >= k {
            (col - k, 0)
        } else {
            (col, 0)
        }
    } else if delta > 0 {
        if !is_btn && row < mi {
            (col, row + 1)
        } else if col + k < cells {
            (col + k, top_row(items, col + k))
        } else {
            let c2 = (lane + 1) % k;
            (c2, top_row(items, c2))
        }
    } else if !is_btn && row > 1 {
        (col, row - 1)
    } else if col >= k {
        (col - k, bot_row(items, col - k))
    } else {
        let p = lane_last((lane + k - 1) % k, cells, k);
        (p, bot_row(items, p))
    }
}

/// A cursor that names a cell of the grid: a pillar row up to its "+" slot,
/// or the add button.
pub open spec fn valid_cursor(items: Seq<usize>, c: Cursor) -> bool {
    &&& c.col <= items.len()
    &&& c.col < items.len() ==> c.row <= items[c.col as int] + 1
    &&& c.col == items.len() ==> c.row == 0
}

/// Pillar sizes a board can have: each count, and the pillar count with the
/// add button, fit in a `usize`.
pub open spec fn small_counts(items: Seq<usize>) -> bool {
    &&& items.len() < usize::MAX
    &&& forall|i: int| 0 <= i < items.len() ==> #[trigger] items[i] < usize::MAX
}

fn top_of(items: &Vec<usize>, c: usize) -> (r: usize)
    ensures
        r as int == top_row(items@, c as int),
{
    if c < items.len() { 1 } else { 0 }
}

fn bot_of(items: &Vec<usize>, c: usize) -> (r: usize)
    requires
        small_counts(items@),
    ensures
        r as int == bot_row(items@, c as int),
{
    if c < items.len() { items[c] + 1 } else { 0 }
}

fn clamp_cursor(items: &Vec<usize>, c: Cursor) -> (r: (usize, usize))
    requires
        small_counts(items@),
    ensures
        r.0 as int == grid_col(items@, c),
        r.1 as int == grid_row(items@, c),
{
    let n = items.len();
    let col = if c.col <= n { c.col } else { n };
    let mi = if col == n { 0 } else { items[col] + 1 };
    let row = if c.row <= mi { c.row } else { mi };
    (col, row)
}

/// Up/Down on a grid board, outside the cards and filtered-sheet layouts.
pub fn board_select_vert(items: &Vec<usize>, lanes: usize, c: Cursor, delta: isize) -> (r: Cursor)
    requires
        small_counts(items@),
        grid_vert_wraps_up(items@, lanes_of(lanes), c, delta as int) ==> ((grid_col(items@, c)
            % lanes_of(lanes) + lanes_of(lanes) - 1) % lanes_of(lanes) <= items@.len()),
    ensures
        (r.col as int, r.row as int) == grid_vert(items@, lanes_of(lanes), c, delta as int),
        lanes_of(lanes) <= items@.len() + 1 ==> valid_cursor(items@, r),
{
    let ghost it = items@;
    let k: usize = if lanes == 0 { 1 } else { lanes };
    let n = items.len();
    let cells = n + 1;
    let (col, row) = clamp_cursor(items, c);
    let is_btn = col == n;
    let mi: usize = if is_btn { 0 } else { items[col] + 1 };
    let lane = col % k;
    if !is_btn && row == 0 {
        if delta > 0 {
            return Cursor { col, row: 1 };
        } else if col >= k {
            return Cursor { col: col - k, row: 0 };
        } else {
            return Cursor { col, row: 0 };
        }
    }
    let (nc, nr) = if delta > 0 {
        if !is_btn && row < mi {
            (col, row + 1)
        } else if k < cells - col {
            (col + k, top_of(items, col + k))
        } else {
            let c2 = if lane + 1 < k { lane + 1 } else { 0 };
            assert(c2 as int == (lane + 1) % (k as int)) by (nonlinear_arith)
                requires
                    lane < k,
                    c2 == (if lane + 1 < k { lane + 1 } else { 0 }),
            ;
            proof {
                if lanes_of(lanes) <= it.len() + 1 {
                    assert(c2 < k);
                }
            }
            (c2, top_of(items, c2))
        }
    } else if !is_btn && row > 1 {
        (col, row - 1)
    } else if col >= k {
        (col - k, bot_of(items, col - k))
    } else {
        let pl = if lane == 0 { k - 1 } else { lane - 1 };
        assert(pl as int == (lane + k - 1) % (k as int)) by (nonlinear_arith)
            requires
                lane < k,
                pl == (if lane == 0 { k - 1 } else { lane - 1 }),
        ;
        assert(lane as int == col as int % k as int);
        let p = last_in_lane(pl, cells, k);
        (p, bot_of(items, p))
    };
    Cursor { col: nc, row: nr }
}

/// Left/Right on a grid board: the adjacent cell in the grid row, wrapping
/// within the row, the add button included. The button has only row 0;
/// leaving it lands on a first item; a header row is kept; an item row is
/// clamped into the new pillar.
pub open spec fn grid_horiz(items: Seq<usize>, k: int, c: Cursor, delta: int) -> (int, int) {
    let n = items.len() as int;
    let cells = n + 1;
    let col = grid_col(items, c);
    let from_btn = col == n;
    let gc = col % k;
    let gr = col / k;
    let nc = if delta < 0 {
        if gc == 0 {
            if gr * k + k - 1 <= cells - 1 { gr * k + k - 1 } else { cells - 1 }
        } else {
            col - 1
        }
    } else if gc == k - 1 || col + 1 >= cells {
        gr * k
    } else {
        col + 1
    };
    let nr = if nc == n {
        0
    } else if from_btn || c.row > 0 {
        if c.row < 1 { 1 } else if c.row > items[nc] + 1 { items[nc] + 1 } else { c.row as int }
    } else {
        0
    };
    (nc, nr)
}

/// Left/Right on a grid board, outside the cards layout.
pub fn board_select_horiz(items: &Vec<usize>, lanes: usize, c: Cursor, delta: isize) -> (r: Cursor)
    requires
        small_counts(items@),
    ensures
        (r.col as int, r.row as int) == grid_horiz(items@, lanes_of(lanes), c, delta as int),
        valid_cursor(items@, r),
{
    let k: usize = if lanes == 0 { 1 } else { lanes };
    let n = items.len();
    let cells = n + 1;
    let (col, _row) = clamp_cursor(items, c);
    let from_btn = col == n;
    let gc = col % k;
    let gr = col / k;
    assert(gr * k + gc == col) by (nonlinear_arith)
        requires
            gr == col as int / k as int,
            gc == col as int % k as int,
            k > 0,
    ;
    let base = col - gc;
    let nc = if delta < 0 {
        if gc == 0 {
            if k - 1 <= cells - 1 - base { base + k - 1 } else { cells - 1 }
        } else {
            col - 1
        }
    } else if gc == k - 1 || col + 1 >= cells {
        base
    } else {
        col + 1
    };
    let nr = if nc == n {
        0
    } else if from_btn || c.row > 0 {
        let hi = items[nc] + 1;
        if c.row < 1 { 1 } else if c.row > hi { hi } else { c.row }
    } else {
        0
    };
    Cursor { col: nc, row: nr }
}

/// Up/Down on a cards board: one visual row within a section; past a
/// section's top or bottom the cursor crosses to the neighbouring section in
/// the same visual column, and from the last section to the add-card button
/// (and from the button back to the first box, or up to the last box).
pub open spec fn cards_vert(items: Seq<usize>, pr: int, c: Cursor, delta: int) -> (int, int) {
    let n = items.len() as int;
    let col = if c.col <= n { c.col as int } else { n };
    let cur = if col == n {
        if delta < 0 && n > 0 {
            (n - 1, items[n - 1] as int)
        } else if delta > 0 && n > 0 {
            (0, 0)
        } else {
            (n, 0)
        }
    } else {
        let boxes = items[col] + 1;
        let bi = if c.row <= 1 { 0 } else { c.row - 1 };
        let vc = bi % pr;
        if delta > 0 {
            if bi + pr < boxes {
                (col, bi + pr)
            } else if col + 1 < n {
                (col + 1, if vc <= items[col + 1] { vc } else { items[col + 1] as int })
            } else {
                (n, 0)
            }
        } else if bi >= pr {
            (col, bi - pr)
        } else if col >= 1 {
            let nb = items[col - 1] + 1;
            let last_row_start = (nb - 1) / pr * pr;
            (col - 1, if last_row_start + vc <= nb - 1 { last_row_start + vc } else { nb - 1 })
        } else {
            (n, 0)
        }
    };
    (cur.0, if cur.0 == n { 0 } else { cur.1 + 1 })
}

/// Up/Down on a cards board;
/// `per_row` is the number of boxes the renderer fits in a row.
pub fn cards_select_vert(items: &Vec<usize>, per_row: usize, c: Cursor, delta: isize) -> (r: Cursor)
    requires
        small_counts(items@),
    ensures
        (r.col as int, r.row as int) == cards_vert(items@, lanes_of(per_row), c, delta as int),
        valid_cursor(items@, c) ==> valid_cursor(items@, r),
{
    let pr: usize = if per_row == 0 { 1 } else { per_row };
    let n = items.len();
    let col = if c.col <= n { c.col } else { n };
    let cur: (usize, usize) = if col == n {
        if delta < 0 && n > 0 {
            (n - 1, items[n - 1])
        } else if delta > 0 && n > 0 {
            (0, 0)
        } else {
            (n, 0)
        }
    } else {
        let boxes = items[col] + 1;
        let bi = if c.row <= 1 { 0 } else { c.row - 1 };
        let vc = bi % pr;
        if delta > 0 {
            if bi < boxes && pr < boxes - bi {
                (col, bi + pr)
            } else if col + 1 < n {
                (col + 1, if vc <= items[col + 1] { vc } else { items[col + 1] })
            } else {
                (n, 0)
            }
        } else if bi >= pr {
            (col, bi - pr)
        } else if col >= 1 {
            let nb = items[col - 1] + 1;
            let q = (nb - 1) / pr;
            assert(q * pr <= nb - 1) by (nonlinear_arith)
                requires
                    q == (nb - 1) as int / pr as int,
                    pr > 0,
            ;
            let last_row_start = q * pr;
            (col - 1, if vc <= nb - 1 - last_row_start { last_row_start + vc } else { nb - 1 })
        } else {
            (n, 0)
        }
    };
    Cursor { col: cur.0, row: if cur.0 == n { 0 } else { cur.1 + 1 } }
}

/// Left/Right on a cards board: between the boxes of the cursor's visual
/// row, wrapping within that row; on the add-card button nothing moves.
pub open spec fn cards_horiz(items: Seq<usize>, pr: int, c: Cursor, delta: int) -> (int, int) {
    let col = c.col as int;
    if col >= items.len() {
        (col, c.row as int)
    } else {
        let boxes = items[col] + 1;
        let bi = if c.row <= 1 { 0 } else { c.row - 1 };
        let row_start = bi / pr * pr;
        let row_end = if row_start + pr - 1 <= boxes - 1 { row_start + pr - 1 } else { boxes - 1 };
        let nb = if delta > 0 {
            if bi >= row_end { row_start } else { bi + 1 }
        } else if bi <= row_start {
            row_end
        } else {
            bi - 1
        };
        (col, nb + 1)
    }
}

/// Left/Right on a cards board.
pub fn cards_select_horiz(items: &Vec<usize>, per_row: usize, c: Cursor, delta: isize) -> (r: Cursor)
    requires
        small_counts(items@),
    ensures
        (r.col as int, r.row as int) == cards_horiz(items@, lanes_of(per_row), c, delta as int),
        valid_cursor(items@, c) ==> valid_cursor(items@, r),
{
    let col = c.col;
    if col >= items.len() {
        return c;
    }
    let pr: usize = if per_row == 0 { 1 } else { per_row };
    let boxes = items[col] + 1;
    let bi = if c.row <= 1 { 0 } else { c.row - 1 };
    let q = bi / pr;
    assert(q * pr <= bi) by (nonlinear_arith)
        requires
            q == bi as int / pr as int,
            pr > 0,
    ;
    let row_start = q * pr;
    let row_end = if row_start <= boxes - 1 && pr - 1 <= boxes - 1 - row_start {
        row_start + pr - 1
    } else {
        boxes - 1
    };
    let nb = if delta > 0 {
        if bi >= row_end { row_start } else { bi + 1 }
    } else if bi <= row_start {
        row_end
    } else {
        bi - 1
    };
    Cursor { col, row: nb + 1 }
}

/// Whether the cursor is on the add-pillar button (past the last pillar).
pub open spec fn on_button(items: Seq<usize>, c: Cursor) -> bool {
    c.col >= items.len()
}

/// Whether the cursor is on a header: row 0 of a pillar, never the button.
pub open spec fn on_header_spec(items: Seq<usize>, c: Cursor) -> bool {
    !on_button(items, c) && items.len() > 0 && grid_row(items, c) == 0
}

/// Whether the cursor is on the add-pillar button.
pub fn on_add_button(items: &Vec<usize>, c: Cursor) -> (r: bool)
    ensures
        r == on_button(items@, c),
{
    c.col >= items.len()
}

/// The cursor clamped to a pillar: (column, row, that pillar's item count);
/// all zero on a board without pillars.
pub open spec fn clamped(items: Seq<usize>, c: Cursor) -> (int, int, int) {
    if items.len() == 0 {
        (0, 0, 0)
    } else {
        let col = if c.col < items.len() { c.col as int } else { items.len() - 1 };
        let max_row = items[col] + 1;
        (col, if c.row <= max_row { c.row as int } else { max_row }, items[col] as int)
    }
}

/// The cursor clamped to a pillar.
pub fn clamp_to_pillar(items: &Vec<usize>, c: Cursor) -> (r: (usize, usize, usize))
    requires
        small_counts(items@),
    ensures
        (r.0 as int, r.1 as int, r.2 as int) == clamped(items@, c),
{
    if items.len() == 0 {
        return (0, 0, 0);
    }
    let col = if c.col < items.len() { c.col } else { items.len() - 1 };
    let max_row = items[col] + 1;
    (col, if c.row <= max_row { c.row } else { max_row }, items[col])
}

/// Whether the cursor is on a header (row 0 of a pillar, never the button).
pub fn on_header(items: &Vec<usize>, c: Cursor) -> (r: bool)
    requires
        small_counts(items@),
    ensures
        r == (!on_button(items@, c) && clamped(items@, c).1 == 0),
{
    !on_add_button(items, c) && clamp_to_pillar(items, c).1 == 0
}

/// The pillar whose header the cursor is on, if any.
pub fn header_col(items: &Vec<usize>, c: Cursor) -> (r: Option<usize>)
    requires
        small_counts(items@),
    ensures
        r == (if !on_button(items@, c) && clamped(items@, c).1 == 0 {
            Some(clamped(items@, c).0 as usize)
        } else {
            None::<usize>
        }),
{
    if on_add_button(items, c) {
        return None;
    }
    let (col, row, _) = clamp_to_pillar(items, c);
    if row == 0 { Some(col) } else { None }
}

/// The number of slots (items and "+") in the first `k` pillars.
pub open spec fn slots_before(items: Seq<usize>, k: int) -> int
    decreases k,
{
    if k <= 0 {
        0
    } else {
        slots_before(items, k - 1) + items[k - 1] + 1
    }
}

/// The selected slot counted across all pillars in order (none on a header
/// or the button), for the renderer.
pub fn selected_flat(items: &Vec<usize>, c: Cursor) -> (r: Option<usize>)
    requires
        small_counts(items@),
        slots_before(items@, items@.len() as int) <= usize::MAX,
    ensures
        r == (if on_button(items@, c) || clamped(items@, c).1 == 0 {
            None::<usize>
        } else {
            Some((slots_before(items@, clamped(items@, c).0) + clamped(items@, c).1 - 1) as usize)
        }),
{
    if on_add_button(items, c) {
        return None;
    }
    let (col, row, _) = clamp_to_pillar(items, c);
    if row == 0 {
        return None;
    }
    let mut base: usize = 0;
    let mut i: usize = 0;
    while i < col
        invariant
            col < items@.len(),
            i <= col,
            base == slots_before(items@, i as int),
            small_counts(items@),
            slots_before(items@, items@.len() as int) <= usize::MAX,
        decreases col - i,
    {
        proof {
            lemma_slots_before_mono(items@, i as int + 1, items@.len() as int);
        }
        base = base + items[i] + 1;
        i = i + 1;
    }
    proof {
        lemma_slots_before_mono(items@, col as int + 1, items@.len() as int);
    }
    Some(base + (row - 1))
}

proof fn lemma_slots_before_mono(items: Seq<usize>, a: int, b: int)
    requires
        0 <= a <= b <= items.len(),
    ensures
        slots_before(items, a) <= slots_before(items, b),
    decreases b - a,
{
    if a < b {
        lemma_slots_before_mono(items, a, b - 1);
    }
}

/// Jump to the current pillar's header (when the board has pillars).
pub fn focus_header(items: &Vec<usize>, c: Cursor) -> (r: Cursor)
    ensures
        r == (if items@.len() > 0 { Cursor { col: c.col, row: 0 } } else { c }),
{
    if items.len() > 0 { Cursor { col: c.col, row: 0 } } else { c }
}

/// Leave a header down to the first item.
pub fn focus_items(c: Cursor) -> (r: Cursor)
    ensures
        r == (if c.row == 0 { Cursor { col: c.col, row: 1 } } else { c }),
{
    if c.row == 0 { Cursor { col: c.col, row: 1 } } else { c }
}

/// Across headers: the header `delta` pillars away, wrapping over all pillars.
pub fn header_move(items: &Vec<usize>, c: Cursor, delta: isize) -> (r: Cursor)
    requires
        small_counts(items@),
    ensures
        r == (if items@.len() == 0 {
            c
        } else {
            Cursor {
                col: wrap(clamped(items@, c).0 + delta, items@.len() as int) as usize,
                row: 0,
            }
        }),
{
    let n = items.len();
    if n == 0 {
        return c;
    }
    let (col, _, _) = clamp_to_pillar(items, c);
    Cursor { col: wrap_index(col, delta, n), row: 0 }
}

/// Vertical header jump on a grid board: always lands on a header. Up goes
/// from an item to its own header, from a header to the one above in the lane
/// (rolling to the bottom of the previous lane); down to the header below
/// (rolling to the top of the next lane).
pub open spec fn grid_header_vert(items: Seq<usize>, k: int, c: Cursor, delta: int) -> int {
    let n = items.len() as int;
    let cells = n + 1;
    let col = grid_col(items, c);
    let lane = col % k;
    let on_item = !on_header_spec(items, c) && !on_button(items, c);
    if delta < 0 {
        if on_item {
            col
        } else if col >= k {
            col - k
        } else {
            lane_last((lane + k - 1) % k, cells, k)
        }
    } else if col + k < cells {
        col + k
    } else {
        (lane + 1) % k
    }
}

/// Vertical header jump on a grid board.
pub fn header_vert(items: &Vec<usize>, lanes: usize, c: Cursor, delta: isize) -> (r: Cursor)
    requires
        small_counts(items@),
        delta < 0 && !(!on_header_spec(items@, c) && !on_button(items@, c)) && grid_col(items@, c)
            < lanes_of(lanes) ==> (grid_col(items@, c) % lanes_of(lanes) + lanes_of(lanes) - 1)
            % lanes_of(lanes) <= items@.len(),
    ensures
        r == (if items@.len() == 0 {
            c
        } else {
            Cursor {
                col: grid_header_vert(items@, lanes_of(lanes), c, delta as int) as usize,
                row: 0,
            }
        }),
{
    let n = items.len();
    if n == 0 {
        return c;
    }
    let k: usize = if lanes == 0 { 1 } else { lanes };
    let cells = n + 1;
    let col = if c.col <= n { c.col } else { n };
    let lane = col % k;
    let oh = on_header(items, c);
    let on_item = !oh && !on_add_button(items, c);
    assert(oh == on_header_spec(items@, c)) by {
        if !on_button(items@, c) {
            assert(grid_col(items@, c) == clamped(items@, c).0);
        }
    }
    let nc = if delta < 0 {
        if on_item {
            col
        } else if col >= k {
            col - k
        } else {
            let pl = if lane == 0 { k - 1 } else { lane - 1 };
            assert(pl as int == (lane + k - 1) % (k as int)) by (nonlinear_arith)
                requires
                    lane < k,
                    pl == (if lane == 0 { k - 1 } else { lane - 1 }),
            ;
            last_in_lane(pl, cells, k)
        }
    } else if k < cells - col {
        col + k
    } else {
        let c2 = if lane + 1 < k { lane + 1 } else { 0 };
        assert(c2 as int == (lane + 1) % (k as int)) by (nonlinear_arith)
            requires
                lane < k,
                c2 == (if lane + 1 < k { lane + 1 } else { 0 }),
        ;
        c2
    };
    Cursor { col: nc, row: 0 }
}

/// Vertical header jump on a cards board: headers walk by one in section
/// order, the add-card button last; from an item, up is its own header.
pub open spec fn cards_header_vert(items: Seq<usize>, c: Cursor, delta: int) -> int {
    let cells = items.len() as int + 1;
    let col = grid_col(items, c);
    let on_item = !on_header_spec(items, c) && !on_button(items, c);
    if delta < 0 {
        if on_item { col } else { (col + cells - 1) % cells }
    } else if on_item {
        if col + 1 <= cells - 1 { col + 1 } else { cells - 1 }
    } else {
        (col + 1) % cells
    }
}

/// Vertical header jump on a cards board.
pub fn cards_header_move(items: &Vec<usize>, c: Cursor, delta: isize) -> (r: Cursor)
    requires
        small_counts(items@),
    ensures
        r == (if items@.len() == 0 {
            c
        } else {
            Cursor { col: cards_header_vert(items@, c, delta as int) as usize, row: 0 }
        }),
{
    let n = items.len();
    if n == 0 {
        return c;
    }
    let cells = n + 1;
    let col = if c.col <= n { c.col } else { n };
    let oh = on_header(items, c);
    let on_item = !oh && !on_add_button(items, c);
    assert(oh == on_header_spec(items@, c)) by {
        if !on_button(items@, c) {
            assert(grid_col(items@, c) == clamped(items@, c).0);
        }
    }
    let nc = if delta < 0 {
        if on_item {
            col
        } else if col == 0 {
            cells - 1
        } else {
            col - 1
        }
    } else if on_item {
        if col + 1 <= cells - 1 { col + 1 } else { cells - 1 }
    } else if col + 1 < cells {
        col + 1
    } else {
        0
    };
    proof {
        let ci = cells as int;
        let co = col as int;
        assert(co < ci);
        if co == 0 {
            assert((co + ci - 1) % ci == ci - 1) by (nonlinear_arith)
                requires
                    co == 0,
                    ci > 0,
            ;
        } else {
            assert((co + ci - 1) % ci == co - 1) by (nonlinear_arith)
                requires
                    0 < co < ci,
            ;
        }
        if co + 1 < ci {
            assert((co + 1) % ci == co + 1) by (nonlinear_arith)
                requires
                    0 <= co,
                    co + 1 < ci,
            ;
        } else {
            assert((co + 1) % ci == 0) by (nonlinear_arith)
                requires
                    co + 1 == ci,
                    ci > 0,
            ;
        }
    }
    Cursor { col: nc, row: 0 }
}

/// The index of the first row at or below `cur` (`rows.len()` if none).
pub open spec fn first_ge(rows: Seq<usize>, cur: int) -> int
    decreases rows.len(),
{
    if rows.len() == 0 {
        0
    } else if rows[0] >= cur {
        0
    } else {
        1 + first_ge(rows.drop_first(), cur)
    }
}

/// Up/Down over the rows of a sheet filtered to one functional area: the
/// cursor moves through `rows` (the visible rows, the add slot last) by
/// `delta`, clamped at both ends, starting from the first visible row at or
/// below it (or the first row).
pub open spec fn sheet_vert(rows: Seq<usize>, cur: int, delta: int) -> int {
    let f = first_ge(rows, cur);
    let pos = if f < rows.len() { f } else { 0 };
    let np = pos + delta;
    let npos = if np < 0 { 0 } else if np > rows.len() - 1 { rows.len() - 1 } else { np };
    rows[npos] as int
}

proof fn lemma_first_ge(rows: Seq<usize>, cur: int, i: int)
    requires
        0 <= i <= rows.len(),
        forall|j: int| 0 <= j < i ==> rows[j] < cur,
    ensures
        first_ge(rows, cur) == i + first_ge(rows.skip(i), cur),
    decreases i,
{
    if i > 0 {
        lemma_first_ge(rows.drop_first(), cur, i - 1);
        assert(rows.drop_first().skip(i - 1) =~= rows.skip(i));
    } else {
        assert(rows.skip(0) =~= rows);
    }
}

/// Up/Down on a sheet filtered to one area: `rows` are the visible rows, the add slot last.
pub fn sheet_select_vert(rows: &Vec<usize>, c: Cursor, delta: isize) -> (r: Cursor)
    requires
        rows@.len() > 0,
    ensures
        r == (Cursor { col: 0, row: sheet_vert(rows@, c.row as int, delta as int) as usize }),
{
    let mut i: usize = 0;
    while i < rows.len() && rows[i] < c.row
        invariant
            0 <= i <= rows@.len(),
            forall|j: int| 0 <= j < i ==> rows@[j] < c.row,
        decreases rows.len() - i,
    {
        i = i + 1;
    }
    proof {
        lemma_first_ge(rows@, c.row as int, i as int);
        if i < rows@.len() {
            assert(rows@.skip(i as int)[0] == rows@[i as int]);
        }
    }
    let pos: usize = if i < rows.len() { i } else { 0 };
    let last = rows.len() - 1;
    let npos: usize = if delta < 0 {
        let back = (0i128 - delta as i128) as u128;
        if back > pos as u128 { 0 } else { pos - back as usize }
    } else {
        let fwd = delta as u128;
        if fwd > (last - pos) as u128 { last } else { pos + fwd as usize }
    };
    Cursor { col: 0, row: rows[npos] }
}

/// The functional area an item's id names, if any.
pub open spec fn item_area(it: ItemModel) -> Option<Seq<char>> {
    match it.id {
        Some(id) => spec_area_of(id),
        None => None,
    }
}

/// The rows (1-based) of the items in `area`, in order.
pub open spec fn area_rows(items: Seq<ItemModel>, area: Seq<char>) -> Seq<usize>
    decreases items.len(),
{
    if items.len() == 0 {
        Seq::empty()
    } else {
        let before = area_rows(items.drop_last(), area);
        if item_area(items.last()) == Some(area) {
            before.push(items.len() as usize)
        } else {
            before
        }
    }
}

/// The visible rows of a sheet filtered to `area`: the matching items of
/// its first column, then its add slot.
pub fn sheet_rows(col: &BoardColumn, area: &str) -> (r: Vec<usize>)
    requires
        col.items@.len() < usize::MAX,
    ensures
        r@ == area_rows(col.items@.map_values(|it: crate::protocol::Item| it@), area@).push(
            (col.items@.len() + 1) as usize,
        ),
{
    let ghost ms = col.items@.map_values(|it: crate::protocol::Item| it@);
    let mut out: Vec<usize> = Vec::new();
    let mut i: usize = 0;
    while i < col.items.len()
        invariant
            i <= col.items@.len() < usize::MAX,
            ms == col.items@.map_values(|it: crate::protocol::Item| it@),
            out@ == area_rows(ms.take(i as int), area@),
        decreases col.items.len() - i,
    {
        let ghost before = out@;
        assert(ms.take(i as int + 1).drop_last() =~= ms.take(i as int));
        let hit = match &col.items[i].id {
            Some(id) => match area_of(id.as_str()) {
                Some(a) => str_eq(a, area),
                None => false,
            },
            None => false,
        };
        if hit {
            out.push(i + 1);
        }
        i = i + 1;
    }
    assert(ms.take(col.items@.len() as int) =~= ms);
    out.push(col.items.len() + 1);
    out
}

/// Where setting the sheet filter to `area` puts the cursor: on the first
/// matching row of the first column, if there is one.
pub fn sheet_filter_cursor(col: &BoardColumn, area: &str) -> (r: Option<Cursor>)
    requires
        col.items@.len() < usize::MAX,
    ensures
        r == (if area_rows(col.items@.map_values(|it: crate::protocol::Item| it@), area@).len() > 0 {
            Some(
                Cursor {
                    col: 0,
                    row: area_rows(col.items@.map_values(|it: crate::protocol::Item| it@), area@)[0],
                },
            )
        } else {
            None::<Cursor>
        }),
{
    let rows = sheet_rows(col, area);
    if rows.len() > 1 {
        Some(Cursor { col: 0, row: rows[0] })
    } else {
        None
    }
}

} // verus!
