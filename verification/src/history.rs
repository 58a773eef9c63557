//! Undo and redo of board edits: before each data edit the page's board is
//! saved; undo puts the last saved board back (saving the current one for
//! redo), redo does the reverse.
use vstd::prelude::*;

use crate::audit::items_view;
use crate::merge::{clone_item, col_view, cols_view, ColModel};
use crate::protocol::{BoardColumn, Item};
use crate::text::{str_eq, to_owned};

verus! {

/// How many edits undo remembers; the oldest is dropped past this.
pub const UNDO_DEPTH: usize = 100;

/// A page's board as pure data: the page id and its columns.
pub type PageBoard = (Seq<char>, Seq<ColModel>);

/// The pages' boards as pure data.
pub open spec fn doc_view(d: Seq<(String, Vec<BoardColumn>)>) -> Seq<PageBoard> {
    d.map_values(|p: (String, Vec<BoardColumn>)| (p.0@, cols_view(p.1@)))
}

/// The undo and redo stacks of saved boards.
pub struct History {
    pub undo: Vec<(String, Vec<BoardColumn>)>,
    pub redo: Vec<(String, Vec<BoardColumn>)>,
}

/// A history as pure data.
pub struct HistoryModel {
    pub undo: Seq<PageBoard>,
    pub redo: Seq<PageBoard>,
}

impl View for History {
    type V = HistoryModel;

    open spec fn view(&self) -> HistoryModel {
        HistoryModel { undo: doc_view(self.undo@), redo: doc_view(self.redo@) }
    }
}

/// The index of page `p` (the first with that id), or the page count.
pub open spec fn page_index(d: Seq<PageBoard>, p: Seq<char>) -> int
    decreases d.len(),
{
    if d.len() == 0 || d[0].0 == p { 0 } else { 1 + page_index(d.drop_first(), p) }
}

/// The board of page `p`, if there is such a page.
pub open spec fn board_of(d: Seq<PageBoard>, p: Seq<char>) -> Option<Seq<ColModel>> {
    let i = page_index(d, p);
    if i < d.len() { Some(d[i].1) } else { None }
}

/// The pages with page `p`'s board replaced (nothing when there is no `p`).
pub open spec fn with_board(d: Seq<PageBoard>, p: Seq<char>, cols: Seq<ColModel>) -> Seq<PageBoard> {
    let i = page_index(d, p);
    if i < d.len() { d.update(i, (d[i].0, cols)) } else { d }
}

/// The undo stack kept within its depth.
pub open spec fn capped(s: Seq<PageBoard>) -> Seq<PageBoard> {
    if s.len() > UNDO_DEPTH { s.drop_first() } else { s }
}

/// The history after saving page `p`'s board before an edit.
pub open spec fn saved(h: HistoryModel, p: Seq<char>, cols: Seq<ColModel>) -> HistoryModel {
    HistoryModel { undo: capped(h.undo.push((p, cols))), redo: Seq::empty() }
}

/// One step back along `from`: its last board goes back on its page, and the
/// page's current board goes on `to`. Returns the two stacks, the pages and
/// whether there was a step to take.
pub open spec fn stepped(from: Seq<PageBoard>, to: Seq<PageBoard>, d: Seq<PageBoard>) -> (
    Seq<PageBoard>,
    Seq<PageBoard>,
    Seq<PageBoard>,
    bool,
) {
    if from.len() == 0 {
        (from, to, d, false)
    } else {
        let (p, prev) = from.last();
        let to2 = match board_of(d, p) {
            Some(cur) => to.push((p, cur)),
            None => to,
        };
        (from.drop_last(), to2, with_board(d, p, prev), true)
    }
}

/// Undo: the history, the pages and whether anything was undone.
pub open spec fn undone(h: HistoryModel, d: Seq<PageBoard>) -> (HistoryModel, Seq<PageBoard>, bool) {
    let (u, r, d2, ok) = stepped(h.undo, h.redo, d);
    (HistoryModel { undo: u, redo: r }, d2, ok)
}

/// Redo: the history, the pages and whether anything was redone.
pub open spec fn redone(h: HistoryModel, d: Seq<PageBoard>) -> (HistoryModel, Seq<PageBoard>, bool) {
    let (r, u, d2, ok) = stepped(h.redo, h.undo, d);
    (HistoryModel { undo: u, redo: r }, d2, ok)
}

/// A copy of a board.
pub fn clone_cols(v: &Vec<BoardColumn>) -> (r: Vec<BoardColumn>)
    ensures
        cols_view(r@) == cols_view(v@),
{
    let mut out: Vec<BoardColumn> = Vec::new();
    let mut j: usize = 0;
    while j < v.len()
        invariant
            j <= v@.len(),
            cols_view(out@) == cols_view(v@).take(j as int),
        decreases v.len() - j,
    {
        let c = &v[j];
        let mut items: Vec<Item> = Vec::new();
        let mut i: usize = 0;
        while i < c.items.len()
            invariant
                i <= c.items@.len(),
                items_view(items@) == items_view(c.items@).take(i as int),
            decreases c.items.len() - i,
        {
            let ghost po = items_view(items@);
            let it = clone_item(&c.items[i]);
            items.push(it);
            assert(items_view(items@) =~= po.push(c.items@[i as int]@));
            assert(items_view(c.items@).take(i + 1) =~= items_view(c.items@).take(i as int).push(
                c.items@[i as int]@,
            ));
            i += 1;
        }
        assert(items_view(c.items@).take(i as int) =~= items_view(c.items@));
        let key = match &c.key {
            Some(k) => Some(to_owned(k.as_str())),
            None => None,
        };
        let nc = BoardColumn { header: to_owned(c.header.as_str()), key, items };
        let ghost po = cols_view(out@);
        out.push(nc);
        assert(cols_view(out@) =~= po.push(col_view(v@[j as int])));
        assert(cols_view(v@).take(j + 1) =~= cols_view(v@).take(j as int).push(col_view(v@[j as int])));
        j += 1;
    }
    assert(cols_view(v@).take(j as int) =~= cols_view(v@));
    out
}

/// The index of page `p` in the pages.
pub(crate) fn find_page(d: &Vec<(String, Vec<BoardColumn>)>, p: &str) -> (r: usize)
    ensures
        r as int == page_index(doc_view(d@), p@),
        r <= d@.len(),
{
    let ghost dv = doc_view(d@);
    let mut i: usize = 0;
    assert(dv.skip(0) =~= dv);
    while i < d.len()
        invariant
            i <= d@.len(),
            dv == doc_view(d@),
            page_index(dv, p@) == i + page_index(dv.skip(i as int), p@),
        decreases d.len() - i,
    {
        assert(dv.skip(i as int)[0] == dv[i as int]);
        assert(dv.skip(i as int).drop_first() =~= dv.skip(i + 1));
        if str_eq(d[i].0.as_str(), p) {
            return i;
        }
        i += 1;
    }
    i
}

impl History {
    /// An empty history.
    pub fn new() -> (r: History)
        ensures
            r@.undo.len() == 0,
            r@.redo.len() == 0,
    {
        History { undo: Vec::new(), redo: Vec::new() }
    }

    /// Saves page `page`'s board before a data edit;
    /// the redo stack is cleared.
    pub fn snapshot(&mut self, page: &str, cols: &Vec<BoardColumn>)
        ensures
            final(self)@ == saved(old(self)@, page@, cols_view(cols@)),
    {
        let copy = clone_cols(cols);
        let ghost pu = doc_view(self.undo@);
        self.undo.push((to_owned(page), copy));
        assert(doc_view(self.undo@) =~= pu.push((page@, cols_view(cols@))));
        if self.undo.len() > UNDO_DEPTH {
            let ghost before = doc_view(self.undo@);
            self.undo.remove(0);
            assert(doc_view(self.undo@) =~= before.drop_first());
        }
        self.redo = Vec::new();
        assert(doc_view(self.redo@) =~= Seq::<PageBoard>::empty());
    }

    /// Undoes the last board edit; false if there is none.
    pub fn undo(&mut self, doc: &mut Vec<(String, Vec<BoardColumn>)>) -> (r: bool)
        ensures
            (final(self)@, doc_view(final(doc)@), r) == undone(old(self)@, doc_view(old(doc)@)),
    {
        let ghost h = self@;
        let ghost d0 = doc_view(doc@);
        let ok = step(&mut self.undo, &mut self.redo, doc);
        proof {
            assert((self@, doc_view(doc@), ok) == undone(h, d0));
        }
        ok
    }

    /// Redoes the last undone edit; false if there is none.
    pub fn redo(&mut self, doc: &mut Vec<(String, Vec<BoardColumn>)>) -> (r: bool)
        ensures
            (final(self)@, doc_view(final(doc)@), r) == redone(old(self)@, doc_view(old(doc)@)),
    {
        step(&mut self.redo, &mut self.undo, doc)
    }
}

/// One step back along `from`, saving onto `to`.
fn step(
    from: &mut Vec<(String, Vec<BoardColumn>)>,
    to: &mut Vec<(String, Vec<BoardColumn>)>,
    doc: &mut Vec<(String, Vec<BoardColumn>)>,
) -> (r: bool)
    ensures
        (doc_view(final(from)@), doc_view(final(to)@), doc_view(final(doc)@), r) == stepped(
            doc_view(old(from)@),
            doc_view(old(to)@),
            doc_view(old(doc)@),
        ),
{
    let ghost f0 = doc_view(from@);
    let ghost t0 = doc_view(to@);
    let ghost d0 = doc_view(doc@);
    let top = from.pop();
    match top {
        None => {
            assert(f0.len() == 0);
            false
        },
        Some((page, prev)) => {
            assert(doc_view(from@) =~= f0.drop_last());
            assert(f0.last() == (page@, cols_view(prev@)));
            let i = find_page(doc, page.as_str());
            if i < doc.len() {
                let cur = clone_cols(&doc[i].1);
                let ghost pt = doc_view(to@);
                to.push((to_owned(page.as_str()), cur));
                assert(doc_view(to@) =~= pt.push((page@, d0[i as int].1)));
                let (name, _old_board) = doc.remove(i);
                let ghost dn = name@;
                doc.insert(i, (name, prev));
                assert(doc_view(doc@) =~= d0.update(i as int, (dn, cols_view(prev@))));
            }
            true
        },
    }
}

/// Undo puts back the board saved before an edit: save page `p`'s board,
/// edit the pages in any way that keeps the page, then undo, and page `p`
/// holds the saved board again while every other page keeps its edit; redo
/// then brings the edited board back.
pub proof fn law_undo_restores_saved_board(
    h: HistoryModel,
    d0: Seq<PageBoard>,
    d1: Seq<PageBoard>,
    p: Seq<char>,
)
    requires
        board_of(d0, p) is Some,
        board_of(d1, p) is Some,
    ensures
        ({
            let h1 = saved(h, p, board_of(d0, p)->0);
            let (h2, d2, ok) = undone(h1, d1);
            let (h3, d3, ok2) = redone(h2, d2);
            &&& ok
            &&& d2 == with_board(d1, p, board_of(d0, p)->0)
            &&& board_of(d2, p) == board_of(d0, p)
            &&& ok2
            &&& board_of(d3, p) == board_of(d1, p)
        }),
{
    let b0 = board_of(d0, p)->0;
    let h1 = saved(h, p, b0);
    assert(h1.undo.last() == (p, b0));
    let (h2, d2, ok) = undone(h1, d1);
    lemma_with_board_keeps_index(d1, p, b0);
    let b1 = board_of(d1, p)->0;
    assert(h2.redo.last() == (p, b1));
    lemma_with_board_keeps_index(d2, p, b1);
}

pub(crate) proof fn lemma_page_index_at(d: Seq<PageBoard>, p: Seq<char>, i: int)
    requires
        0 <= i < d.len(),
        d[i].0 == p,
        forall|j: int| 0 <= j < i ==> d[j].0 != p,
    ensures
        page_index(d, p) == i,
    decreases i,
{
    if i > 0 {
        lemma_page_index_at(d.drop_first(), p, i - 1);
    }
}

pub(crate) proof fn lemma_page_index_range(d: Seq<PageBoard>, p: Seq<char>)
    ensures
        0 <= page_index(d, p) <= d.len(),
    decreases d.len(),
{
    if d.len() > 0 && d[0].0 != p {
        lemma_page_index_range(d.drop_first(), p);
    }
}

pub(crate) proof fn lemma_page_index_first(d: Seq<PageBoard>, p: Seq<char>)
    requires
        page_index(d, p) < d.len(),
    ensures
        d[page_index(d, p)].0 == p,
        forall|j: int| 0 <= j < page_index(d, p) ==> d[j].0 != p,
    decreases d.len(),
{
    lemma_page_index_range(d, p);
    if d[0].0 != p {
        lemma_page_index_range(d.drop_first(), p);
        lemma_page_index_first(d.drop_first(), p);
        assert(d[page_index(d, p)] == d.drop_first()[page_index(d.drop_first(), p)]);
        assert forall|j: int| 0 <= j < page_index(d, p) implies d[j].0 != p by {
            if j > 0 {
                assert(d[j] == d.drop_first()[j - 1]);
            }
        }
    }
}

pub(crate) proof fn lemma_with_board_keeps_index(d: Seq<PageBoard>, p: Seq<char>, cols: Seq<ColModel>)
    requires
        page_index(d, p) < d.len(),
    ensures
        page_index(with_board(d, p, cols), p) == page_index(d, p),
        board_of(with_board(d, p, cols), p) == Some(cols),
{
    let i = page_index(d, p);
    lemma_page_index_range(d, p);
    lemma_page_index_first(d, p);
    let w = with_board(d, p, cols);
    assert forall|j: int| 0 <= j < i implies w[j].0 != p by {
        assert(w[j] == d[j]);
    }
    lemma_page_index_at(w, p, i);
}

} // verus!
