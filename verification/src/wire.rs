//! The agent's drive layer, the `act_*` methods: the design document — its board pages
//! in order, each page's title and render style — with the undo history, the
//! intents being worked on, and the edits the agent's verbs make.
use vstd::prelude::*;

use crate::audit::{coverage, covs_view, pages_view, spec_coverage, CoverageModel, IntentCoverage};
use crate::board::{item_renamed, item_set, lemma_item_set_twice, rename_links, replace_item, swap_at};
use crate::graph::strs;
use crate::history::{
    board_of, doc_view, find_page, lemma_page_index_first, lemma_page_index_range, lemma_with_board_keeps_index,
    page_index, saved, undone, with_board, History, HistoryModel, PageBoard,
};
use crate::merge::cols_view;
use crate::nav::Cursor;
use crate::protocol::{plain_item, sopt, svec, BoardColumn, BoardStyle, Item, ItemModel, Status};
use crate::state::{dedupe_items, deduped, texts};
use crate::sorted::{sorted_set, strictly_sorted};
use crate::agent::{spec_valid_id, valid_id_shape};
use crate::conf::{split_bounds, split_on};
use crate::sorted::insert_sorted;
use crate::text::{chars_of, str_eq, string_of, to_owned};

verus! {

/// A page's display title and render style; its id lives with its board.
pub struct PageMeta {
    pub title: String,
    pub style: BoardStyle,
}

/// The design document the agent drives.
pub struct Doc {
    /// The board pages in order: page id and columns.
    pub pages: Vec<(String, Vec<BoardColumn>)>,
    /// Per page, in the same order: its title and style.
    pub meta: Vec<PageMeta>,
    pub history: History,
    /// The intent titles being worked on (they pulse on the board).
    pub working: Vec<String>,
    /// The active page.
    pub active: usize,
    /// The board cursor on the active page.
    pub cursor: Cursor,
    /// Unsaved changes.
    pub dirty: bool,
}

/// Why a verb could not act.
#[derive(Debug, Clone, PartialEq, Eq)]
pub enum WireError {
    /// No board page has this id.
    NoBoard(String),
    /// No page has this id.
    NoPage(String),
    NoColumn(usize),
    NoItem(usize),
    /// `addpage` without an id.
    PageNeedsId,
    PageExists(String),
    /// An id not of the `lvl_abc_NNN` shape; the areas already in use.
    BadIdShape { got: String, areas: Vec<String> },
    /// An id another item already carries.
    IdInUse(String),
}

/// One field of an item, set by a single-field verb.
pub enum ItemField {
    /// The links, sorted and deduplicated.
    Serves(Vec<String>),
    Status(Option<Status>),
    Note(Vec<String>),
    Attachments(Vec<String>),
    At(Vec<String>),
    Category(Option<String>),
    Id(Option<String>),
    Comment(Option<String>),
    Derived(bool),
    Sha(Option<String>),
}

/// A field value as pure data.
pub enum FieldModel {
    Serves(Seq<Seq<char>>),
    Status(Option<Status>),
    Note(Seq<Seq<char>>),
    Attachments(Seq<Seq<char>>),
    At(Seq<Seq<char>>),
    Category(Option<Seq<char>>),
    Id(Option<Seq<char>>),
    Comment(Option<Seq<char>>),
    Derived(bool),
    Sha(Option<Seq<char>>),
}

impl View for ItemField {
    type V = FieldModel;

    open spec fn view(&self) -> FieldModel {
        match self {
            ItemField::Serves(v) => FieldModel::Serves(svec(v@)),
            ItemField::Status(s) => FieldModel::Status(*s),
            ItemField::Note(v) => FieldModel::Note(svec(v@)),
            ItemField::Attachments(v) => FieldModel::Attachments(svec(v@)),
            ItemField::At(v) => FieldModel::At(svec(v@)),
            ItemField::Category(v) => FieldModel::Category(sopt(*v)),
            ItemField::Id(v) => FieldModel::Id(sopt(*v)),
            ItemField::Comment(v) => FieldModel::Comment(sopt(*v)),
            ItemField::Derived(on) => FieldModel::Derived(*on),
            ItemField::Sha(v) => FieldModel::Sha(sopt(*v)),
        }
    }
}

/// The item after setting field `f` (its modified time aside).
pub open spec fn field_set(b: ItemModel, a: ItemModel, f: FieldModel) -> bool {
    match f {
        FieldModel::Serves(v) => {
            &&& a == (ItemModel { serves: a.serves, modified: a.modified, ..b })
            &&& strictly_sorted(a.serves)
            &&& a.serves.to_set() == v.to_set()
        },
        FieldModel::Status(s) => a == (ItemModel { status: s, modified: a.modified, ..b }),
        FieldModel::Note(v) => a == (ItemModel { note: v, modified: a.modified, ..b }),
        FieldModel::Attachments(v) => a == (ItemModel { attachments: v, modified: a.modified, ..b }),
        FieldModel::At(v) => a == (ItemModel { at: v, modified: a.modified, ..b }),
        FieldModel::Category(v) => a == (ItemModel { category: v, modified: a.modified, ..b }),
        FieldModel::Id(v) => a == (ItemModel { id: v, modified: a.modified, ..b }),
        FieldModel::Comment(v) => a == (ItemModel { comment: v, modified: a.modified, ..b }),
        FieldModel::Derived(on) => a == (ItemModel { derived: on, modified: a.modified, ..b }),
        FieldModel::Sha(v) => a == (ItemModel { sha: v, modified: a.modified, ..b }),
    }
}

pub type Pages = Seq<(String, Vec<BoardColumn>)>;

/// The index of page `p` (the first with that id), or the page count.
pub open spec fn pidx(pages: Pages, p: Seq<char>) -> int {
    page_index(doc_view(pages), p)
}

pub open spec fn has_page(pages: Pages, p: Seq<char>) -> bool {
    pidx(pages, p) < pages.len()
}

/// The pages after item `q` of column `c` on page `i` changed, all else kept.
pub open spec fn item_at_set(before: Pages, after: Pages, i: int, c: int, q: int) -> bool {
    &&& after.len() == before.len()
    &&& forall|j: int| 0 <= j < before.len() && j != i ==> after[j] == before[j]
    &&& after[i].0 == before[i].0
    &&& item_set(before[i].1@, after[i].1@, c, q, after[i].1@[c].items@[q])
}

/// Whether item `q` of column `c` on page `i` exists.
pub open spec fn has_item(pages: Pages, i: int, c: int, q: int) -> bool {
    0 <= i < pages.len() && 0 <= c < pages[i].1@.len() && 0 <= q < pages[i].1@[c].items@.len()
}

/// The pages after field `f` of that item was set (the modified time is
/// stamped anew); nothing changes where there is no such item.
pub open spec fn edited(before: Pages, after: Pages, i: int, c: int, q: int, f: FieldModel) -> bool {
    if has_item(before, i, c, q) {
        &&& item_at_set(before, after, i, c, q)
        &&& field_set(before[i].1@[c].items@[q]@, after[i].1@[c].items@[q]@, f)
    } else {
        after == before
    }
}

/// Whether some intent titled `t` is done: covered and green.
pub open spec fn green_title(cov: Seq<CoverageModel>, t: Seq<char>) -> bool {
    exists|k: int| 0 <= k < cov.len() && (#[trigger] cov[k]).green && cov[k].title == t
}

/// The worked intents that an edit did not just finish: those done after it
/// and not before leave the working set.
pub open spec fn retired(w: Seq<Seq<char>>, before: Seq<CoverageModel>, after: Seq<CoverageModel>) -> Seq<
    Seq<char>,
>
    decreases w.len(),
{
    if w.len() == 0 {
        Seq::empty()
    } else {
        let rest = retired(w.drop_last(), before, after);
        let t = w.last();
        if green_title(after, t) && !green_title(before, t) { rest } else { rest.push(t) }
    }
}

/// The coverage of a document's pages.
pub open spec fn cov_of(pages: Pages) -> Seq<CoverageModel> {
    spec_coverage(pages_view(pages))
}

/// A single-field verb's outcome: an error and no change when the page is
/// missing; else the field set on the addressed item (if it exists), the
/// page's board saved for undo, the document marked changed, and the worked
/// intents this edit finished retired.
pub open spec fn item_edit_done(old: Doc, new: Doc, page: Seq<char>, c: int, q: int, f: FieldModel, r: Result<(), WireError>) -> bool {
    match r {
        Err(e) => {
            &&& !has_page(old.pages@, page)
            &&& e matches WireError::NoBoard(p) && p@ == page
            &&& new == old
        },
        Ok(_) => {
            let i = pidx(old.pages@, page);
            &&& has_page(old.pages@, page)
            &&& edited(old.pages@, new.pages@, i, c, q, f)
            &&& new.history@ == saved(old.history@, page, cols_view(old.pages@[i].1@))
            &&& strs(new.working@) == retired(strs(old.working@), cov_of(old.pages@), cov_of(new.pages@))
            &&& new.meta == old.meta
            &&& new.active == old.active
            &&& new.cursor == old.cursor
            &&& new.dirty
        },
    }
}

/// Whether an intent titled `t` is done in the coverage.
fn green_in(covs: &Vec<IntentCoverage>, t: &str) -> (r: bool)
    ensures
        r == green_title(covs_view(covs@), t@),
{
    let ghost cv = covs_view(covs@);
    let mut k: usize = 0;
    while k < covs.len()
        invariant
            k <= covs@.len(),
            cv == covs_view(covs@),
            forall|j: int| 0 <= j < k ==> !(cv[j].green && cv[j].title == t@),
        decreases covs.len() - k,
    {
        if covs[k].green && str_eq(covs[k].title.as_str(), t) {
            assert(cv[k as int].green && cv[k as int].title == t@);
            return true;
        }
        k += 1;
    }
    false
}

/// The working set after an edit.
pub(crate) fn retire(working: &Vec<String>, before: &Vec<IntentCoverage>, after: &Vec<IntentCoverage>) -> (r: Vec<String>)
    ensures
        strs(r@) == retired(strs(working@), covs_view(before@), covs_view(after@)),
{
    let ghost w = strs(working@);
    let mut out: Vec<String> = Vec::new();
    let mut i: usize = 0;
    while i < working.len()
        invariant
            i <= working@.len(),
            w == strs(working@),
            strs(out@) == retired(w.take(i as int), covs_view(before@), covs_view(after@)),
        decreases working.len() - i,
    {
        let t = working[i].as_str();
        let done_now = green_in(after, t) && !green_in(before, t);
        assert(w.take(i + 1).drop_last() =~= w.take(i as int));
        if !done_now {
            let ghost po = strs(out@);
            out.push(to_owned(t));
            assert(strs(out@) =~= po.push(w[i as int]));
        }
        i += 1;
    }
    assert(w.take(i as int) =~= w);
    out
}

/// Puts `it` in place of item `q` of column `c` on page `i`; returns the item
/// that was there.
fn put_item(pages: &mut Vec<(String, Vec<BoardColumn>)>, i: usize, c: usize, q: usize, it: Item) -> (r: Item)
    requires
        has_item(old(pages)@, i as int, c as int, q as int),
    ensures
        r == old(pages)@[i as int].1@[c as int].items@[q as int],
        item_at_set(old(pages)@, final(pages)@, i as int, c as int, q as int),
        final(pages)@[i as int].1@[c as int].items@[q as int] == it,
{
    let ghost before = pages@;
    let (id, mut cols) = pages.remove(i);
    let r = replace_item(&mut cols, c, q, it);
    pages.insert(i, (id, cols));
    assert forall|j: int| 0 <= j < before.len() && j != i implies pages@[j] == before[j] by {
        if j < i {
        } else {
        }
    }
    r
}

/// Sets field `f` on an item.
fn apply_field(it: &mut Item, f: ItemField)
    ensures
        field_set(old(it)@, final(it)@, f@),
        final(it)@.modified == old(it)@.modified,
{
    match f {
        ItemField::Serves(v) => {
            it.serves = sorted_set(v);
            assert(svec(it.serves@) =~= strs(it.serves@));
        },
        ItemField::Status(s) => {
            it.status = s;
        },
        ItemField::Note(v) => {
            it.note = v;
        },
        ItemField::Attachments(v) => {
            it.attachments = v;
        },
        ItemField::At(v) => {
            it.at = v;
        },
        ItemField::Category(v) => {
            it.category = v;
        },
        ItemField::Id(v) => {
            it.id = v;
        },
        ItemField::Comment(v) => {
            it.comment = v;
        },
        ItemField::Derived(on) => {
            it.derived = on;
        },
        ItemField::Sha(v) => {
            it.sha = v;
        },
    }
}

impl Doc {
    /// Every page has its title and style.
    pub open spec fn wf(&self) -> bool {
        self.pages@.len() == self.meta@.len()
    }

    /// An empty document.
    pub fn new() -> (r: Doc)
        ensures
            r.wf(),
            r.pages@.len() == 0,
            r.history@.undo.len() == 0,
            r.history@.redo.len() == 0,
            r.working@.len() == 0,
            r.active == 0,
            r.cursor == (Cursor { col: 0, row: 1 }),
            !r.dirty,
    {
        Doc {
            pages: Vec::new(),
            meta: Vec::new(),
            history: History::new(),
            working: Vec::new(),
            active: 0,
            cursor: Cursor { col: 0, row: 1 },
            dirty: false,
        }
    }

    /// Sets one field of an item: saves the page's board for
    /// undo, stamps the item, marks the document changed and retires the
    /// worked intents this edit finishes.
    pub(crate) fn edit_item(&mut self, page: &str, col: usize, item: usize, f: ItemField) -> (r: Result<(), WireError>)
        ensures
            item_edit_done(*old(self), *final(self), page@, col as int, item as int, f@, r),
    {
        let before = coverage(&self.pages);
        let i = find_page(&self.pages, page);
        if i >= self.pages.len() {
            return Err(WireError::NoBoard(to_owned(page)));
        }
        let ghost p0 = self.pages@;
        self.history.snapshot(page, &self.pages[i].1);
        if col < self.pages[i].1.len() && item < self.pages[i].1[col].items.len() {
            let mut it = put_item(&mut self.pages, i, col, item, Item::new(""));
            let ghost p1 = self.pages@;
            let ghost orig = it@;
            apply_field(&mut it, f);
            it.touch();
            let _ = put_item(&mut self.pages, i, col, item, it);
            proof {
                lemma_item_set_twice(
                    p0[i as int].1@,
                    p1[i as int].1@,
                    self.pages@[i as int].1@,
                    col as int,
                    item as int,
                    p1[i as int].1@[col as int].items@[item as int],
                    self.pages@[i as int].1@[col as int].items@[item as int],
                );
            }
        }
        self.dirty = true;
        let after = coverage(&self.pages);
        self.working = retire(&self.working, &before, &after);
        Ok(())
    }

    /// Sets an item's links, sorted and deduplicated; empty clears.
    pub fn act_link(&mut self, page: &str, col: usize, item: usize, titles: Vec<String>) -> (r: Result<(), WireError>)
        ensures
            item_edit_done(*old(self), *final(self), page@, col as int, item as int, FieldModel::Serves(svec(titles@)), r),
    {
        self.edit_item(page, col, item, ItemField::Serves(titles))
    }

    /// Sets an item's producer status; `None` is n/a.
    pub fn act_status(&mut self, page: &str, col: usize, item: usize, status: Option<Status>) -> (r: Result<(), WireError>)
        ensures
            item_edit_done(*old(self), *final(self), page@, col as int, item as int, FieldModel::Status(status), r),
    {
        self.edit_item(page, col, item, ItemField::Status(status))
    }

    /// Sets an item's note lines; empty clears.
    pub fn act_note(&mut self, page: &str, col: usize, item: usize, lines: Vec<String>) -> (r: Result<(), WireError>)
        ensures
            item_edit_done(*old(self), *final(self), page@, col as int, item as int, FieldModel::Note(svec(lines@)), r),
    {
        self.edit_item(page, col, item, ItemField::Note(lines))
    }

    /// Sets an item's attachment references; empty clears.
    pub fn act_attach(&mut self, page: &str, col: usize, item: usize, refs: Vec<String>) -> (r: Result<(), WireError>)
        ensures
            item_edit_done(*old(self), *final(self), page@, col as int, item as int, FieldModel::Attachments(svec(refs@)), r),
    {
        self.edit_item(page, col, item, ItemField::Attachments(refs))
    }

    /// Sets an item's realization locators `file#unit`; empty clears.
    pub fn act_at(&mut self, page: &str, col: usize, item: usize, locs: Vec<String>) -> (r: Result<(), WireError>)
        ensures
            item_edit_done(*old(self), *final(self), page@, col as int, item as int, FieldModel::At(svec(locs@)), r),
    {
        self.edit_item(page, col, item, ItemField::At(locs))
    }

    /// Sets an item's category tag; `None` clears.
    pub fn act_cat(&mut self, page: &str, col: usize, item: usize, category: Option<String>) -> (r: Result<(), WireError>)
        ensures
            item_edit_done(*old(self), *final(self), page@, col as int, item as int, FieldModel::Category(sopt(category)), r),
    {
        self.edit_item(page, col, item, ItemField::Category(category))
    }

    /// Sets an item's result comment; `None` clears.
    pub fn act_comment(&mut self, page: &str, col: usize, item: usize, comment: Option<String>) -> (r: Result<(), WireError>)
        ensures
            item_edit_done(*old(self), *final(self), page@, col as int, item as int, FieldModel::Comment(sopt(comment)), r),
    {
        self.edit_item(page, col, item, ItemField::Comment(comment))
    }

    /// Marks or unmarks an item as parentless by design.
    pub fn act_derive(&mut self, page: &str, col: usize, item: usize, on: bool) -> (r: Result<(), WireError>)
        ensures
            item_edit_done(*old(self), *final(self), page@, col as int, item as int, FieldModel::Derived(on), r),
    {
        self.edit_item(page, col, item, ItemField::Derived(on))
    }

    /// Sets the commit an item was verified against; `None` clears.
    pub fn act_sha(&mut self, page: &str, col: usize, item: usize, sha: Option<String>) -> (r: Result<(), WireError>)
        ensures
            item_edit_done(*old(self), *final(self), page@, col as int, item as int, FieldModel::Sha(sopt(sha)), r),
    {
        self.edit_item(page, col, item, ItemField::Sha(sha))
    }
}


// ─── ids ────────────────────────────────────────────────────────────────────

/// Whether an item other than item `q` of column `c` on page `page` carries `id`.
pub open spec fn id_taken(pages: Pages, page: Seq<char>, c: int, q: int, id: Seq<char>) -> bool {
    exists|j: int, cc: int, qq: int|
        #![trigger pages[j].1@[cc].items@[qq]]
        0 <= j < pages.len() && 0 <= cc < pages[j].1@.len() && 0 <= qq < pages[j].1@[cc].items@.len()
            && pages[j].1@[cc].items@[qq]@.id == Some(id) && !(pages[j].0@ == page && cc == c && qq == q)
}

/// Whether some item of the pages carries a well-shaped id with area `a`.
pub open spec fn area_used(pages: Pages, a: Seq<char>) -> bool {
    exists|j: int, cc: int, qq: int|
        #![trigger pages[j].1@[cc].items@[qq]]
        0 <= j < pages.len() && 0 <= cc < pages[j].1@.len() && 0 <= qq < pages[j].1@[cc].items@.len()
            && (pages[j].1@[cc].items@[qq]@.id matches Some(x) && spec_valid_id(x) && split_on(x, '_')[1] == a)
}

/// The middle segment of a well-shaped id.
fn id_area(id: &str) -> (r: String)
    requires
        spec_valid_id(id@),
    ensures
        r@ == split_on(id@, '_')[1],
{
    let v = chars_of(id);
    let p = split_bounds(&v, '_', 0, v.len());
    assert(v@.subrange(0, v@.len() as int) =~= id@);
    string_of(&v, p[1].0, p[1].1)
}

/// The functional areas in use, sorted and distinct.
fn id_areas(pages: &Vec<(String, Vec<BoardColumn>)>) -> (r: Vec<String>)
    ensures
        strictly_sorted(strs(r@)),
        forall|a: Seq<char>| strs(r@).contains(a) <==> area_used(pages@, a),
{
    let mut out: Vec<String> = Vec::new();
    let mut j: usize = 0;
    while j < pages.len()
        invariant
            j <= pages@.len(),
            strictly_sorted(strs(out@)),
            forall|a: Seq<char>|
                strs(out@).contains(a) <==> exists|jj: int, cc: int, qq: int|
                    #![trigger pages@[jj].1@[cc].items@[qq]]
                    0 <= jj < j && 0 <= cc < pages@[jj].1@.len() && 0 <= qq < pages@[jj].1@[cc].items@.len()
                        && (pages@[jj].1@[cc].items@[qq]@.id matches Some(x) && spec_valid_id(x) && split_on(
                        x,
                        '_',
                    )[1] == a),
        decreases pages.len() - j,
    {
        let cols = &pages[j].1;
        let mut c: usize = 0;
        while c < cols.len()
            invariant
                j < pages@.len(),
                cols == pages@[j as int].1,
                c <= cols@.len(),
                strictly_sorted(strs(out@)),
                forall|a: Seq<char>|
                    strs(out@).contains(a) <==> exists|jj: int, cc: int, qq: int|
                        #![trigger pages@[jj].1@[cc].items@[qq]]
                        0 <= jj < pages@.len() && 0 <= cc < pages@[jj].1@.len() && 0 <= qq
                            < pages@[jj].1@[cc].items@.len() && (jj < j || (jj == j && cc < c)) && (
                        pages@[jj].1@[cc].items@[qq]@.id matches Some(x) && spec_valid_id(x) && split_on(
                            x,
                            '_',
                        )[1] == a),
            decreases cols.len() - c,
        {
            let items = &cols[c].items;
            let mut q: usize = 0;
            while q < items.len()
                invariant
                    j < pages@.len(),
                    c < pages@[j as int].1@.len(),
                    items == pages@[j as int].1@[c as int].items,
                    q <= items@.len(),
                    strictly_sorted(strs(out@)),
                    forall|a: Seq<char>|
                        strs(out@).contains(a) <==> exists|jj: int, cc: int, qq: int|
                            #![trigger pages@[jj].1@[cc].items@[qq]]
                            0 <= jj < pages@.len() && 0 <= cc < pages@[jj].1@.len() && 0 <= qq
                                < pages@[jj].1@[cc].items@.len() && (jj < j || (jj == j && cc < c) || (jj == j
                                && cc == c && qq < q)) && (pages@[jj].1@[cc].items@[qq]@.id matches Some(x)
                                && spec_valid_id(x) && split_on(x, '_')[1] == a),
                decreases items.len() - q,
            {
                let ghost before = strs(out@);
                let ghost it = pages@[j as int].1@[c as int].items@[q as int]@;
                let ghost added: Option<Seq<char>> = None;
                match &items[q].id {
                    Some(id) => {
                        if valid_id_shape(id.as_str()) {
                            let a = id_area(id.as_str());
                            let ghost av = a@;
                            insert_sorted(&mut out, a);
                            proof {
                                added = Some(av);
                                assert forall|x: Seq<char>|
                                    strs(out@).contains(x) <==> before.contains(x) || x == av by {
                                    assert(strs(out@).to_set().contains(x) == strs(out@).contains(x));
                                    assert(before.to_set().contains(x) == before.contains(x));
                                }
                            }
                        }
                    },
                    None => {},
                }
                proof {
                    assert forall|a: Seq<char>|
                        added == Some(a) <==> (it.id matches Some(x) && spec_valid_id(x) && split_on(x, '_')[1]
                            == a) by {}
                    assert forall|a: Seq<char>|
                        strs(out@).contains(a) <==> exists|jj: int, cc: int, qq: int|
                            #![trigger pages@[jj].1@[cc].items@[qq]]
                            0 <= jj < pages@.len() && 0 <= cc < pages@[jj].1@.len() && 0 <= qq
                                < pages@[jj].1@[cc].items@.len() && (jj < j || (jj == j && cc < c) || (jj == j
                                && cc == c && qq < q + 1)) && (pages@[jj].1@[cc].items@[qq]@.id matches Some(x)
                                && spec_valid_id(x) && split_on(x, '_')[1] == a) by {
                        if strs(out@).contains(a) {
                            if added == Some(a) {
                                let _ = pages@[j as int].1@[c as int].items@[q as int];
                            } else {
                                assert(before.contains(a));
                            }
                        }
                        if exists|jj: int, cc: int, qq: int|
                            #![trigger pages@[jj].1@[cc].items@[qq]]
                            0 <= jj < pages@.len() && 0 <= cc < pages@[jj].1@.len() && 0 <= qq
                                < pages@[jj].1@[cc].items@.len() && (jj < j || (jj == j && cc < c) || (jj == j
                                && cc == c && qq < q + 1)) && (pages@[jj].1@[cc].items@[qq]@.id matches Some(x)
                                && spec_valid_id(x) && split_on(x, '_')[1] == a) {
                            let (jj, cc, qq) = choose|jj: int, cc: int, qq: int|
                                #![trigger pages@[jj].1@[cc].items@[qq]]
                                0 <= jj < pages@.len() && 0 <= cc < pages@[jj].1@.len() && 0 <= qq
                                    < pages@[jj].1@[cc].items@.len() && (jj < j || (jj == j && cc < c) || (jj
                                    == j && cc == c && qq < q + 1)) && (pages@[jj].1@[cc].items@[qq]@.id matches Some(
                                    x,
                                ) && spec_valid_id(x) && split_on(x, '_')[1] == a);
                            if jj == j && cc == c && qq == q {
                                assert(added == Some(a));
                            } else {
                                assert(before.contains(a));
                            }
                        }
                    }
                }
                q += 1;
            }
            c += 1;
        }
        j += 1;
    }
    out
}

/// Whether an item other than item `q` of column `c` on page `page` carries `id`.
fn id_in_use(pages: &Vec<(String, Vec<BoardColumn>)>, page: &str, c: usize, q: usize, id: &str) -> (r: bool)
    ensures
        r == id_taken(pages@, page@, c as int, q as int, id@),
{
    let mut j: usize = 0;
    while j < pages.len()
        invariant
            j <= pages@.len(),
            forall|jj: int, cc: int, qq: int|
                #![trigger pages@[jj].1@[cc].items@[qq]]
                0 <= jj < j && 0 <= cc < pages@[jj].1@.len() && 0 <= qq < pages@[jj].1@[cc].items@.len()
                    ==> !(pages@[jj].1@[cc].items@[qq]@.id == Some(id@) && !(pages@[jj].0@ == page@ && cc == c
                    && qq == q)),
        decreases pages.len() - j,
    {
        let same_page = str_eq(pages[j].0.as_str(), page);
        let cols = &pages[j].1;
        let mut k: usize = 0;
        while k < cols.len()
            invariant
                j < pages@.len(),
                cols == pages@[j as int].1,
                same_page == (pages@[j as int].0@ == page@),
                k <= cols@.len(),
                forall|jj: int, cc: int, qq: int|
                    #![trigger pages@[jj].1@[cc].items@[qq]]
                    0 <= jj < pages@.len() && 0 <= cc < pages@[jj].1@.len() && 0 <= qq
                        < pages@[jj].1@[cc].items@.len() && (jj < j || (jj == j && cc < k)) ==> !(
                    pages@[jj].1@[cc].items@[qq]@.id == Some(id@) && !(pages@[jj].0@ == page@ && cc == c
                        && qq == q)),
            decreases cols.len() - k,
        {
            let items = &cols[k].items;
            let mut i: usize = 0;
            while i < items.len()
                invariant
                    j < pages@.len(),
                    k < pages@[j as int].1@.len(),
                    items == pages@[j as int].1@[k as int].items,
                    same_page == (pages@[j as int].0@ == page@),
                    i <= items@.len(),
                    forall|jj: int, cc: int, qq: int|
                        #![trigger pages@[jj].1@[cc].items@[qq]]
                        0 <= jj < pages@.len() && 0 <= cc < pages@[jj].1@.len() && 0 <= qq
                            < pages@[jj].1@[cc].items@.len() && (jj < j || (jj == j && cc < k) || (jj == j
                            && cc == k && qq < i)) ==> !(pages@[jj].1@[cc].items@[qq]@.id == Some(id@) && !(
                        pages@[jj].0@ == page@ && cc == c && qq == q)),
                decreases items.len() - i,
            {
                let hit = match &items[i].id {
                    Some(x) => str_eq(x.as_str(), id),
                    None => false,
                };
                if hit && !(same_page && k == c && i == q) {
                    proof {
                        let _ = pages@[j as int].1@[k as int].items@[i as int];
                    }
                    return true;
                }
                i += 1;
            }
            k += 1;
        }
        j += 1;
    }
    false
}

/// What `act_id` does.
pub open spec fn act_id_done(old: Doc, new: Doc, page: Seq<char>, col: int, item: int, id: Option<Seq<char>>, r: Result<(), WireError>) -> bool {
    match id {
        Some(x) if !spec_valid_id(x) => {
            &&& r matches Err(WireError::BadIdShape { got, areas }) && got@ == x && strictly_sorted(strs(areas@))
                && forall|a: Seq<char>| strs(areas@).contains(a) <==> area_used(old.pages@, a)
            &&& new == old
        },
        Some(x) if id_taken(old.pages@, page, col, item, x) => {
            &&& r matches Err(WireError::IdInUse(got)) && got@ == x
            &&& new == old
        },
        _ => item_edit_done(old, new, page, col, item, FieldModel::Id(id), r),
    }
}

impl Doc {
    /// Sets an item's stable id, or clears it with `None`: an id
    /// not of the `lvl_abc_NNN` shape is refused (naming the areas in use),
    /// and so is one that another item already carries.
    pub fn act_id(&mut self, page: &str, col: usize, item: usize, id: Option<String>) -> (r: Result<(), WireError>)
        ensures
            act_id_done(*old(self), *final(self), page@, col as int, item as int, sopt(id), r),
    {
        match &id {
            Some(new) => {
                if !valid_id_shape(new.as_str()) {
                    let areas = id_areas(&self.pages);
                    return Err(WireError::BadIdShape { got: to_owned(new.as_str()), areas });
                }
                if id_in_use(&self.pages, page, col, item, new.as_str()) {
                    return Err(WireError::IdInUse(to_owned(new.as_str())));
                }
            },
            None => {},
        }
        self.edit_item(page, col, item, ItemField::Id(id))
    }
}


// ─── board edits ────────────────────────────────────────────────────────────

/// The pages after page `i`'s board became `cols`, all else kept.
pub open spec fn board_at_set(before: Pages, after: Pages, i: int, cols: Seq<BoardColumn>) -> bool {
    &&& after.len() == before.len()
    &&& forall|j: int| 0 <= j < before.len() && j != i ==> after[j] == before[j]
    &&& after[i].0 == before[i].0
    &&& after[i].1@ == cols
}

/// The history after a verb on `page` saved its board (when there is one).
pub open spec fn snapped(h: HistoryModel, pages: Pages, page: Seq<char>) -> HistoryModel {
    if has_page(pages, page) {
        saved(h, page, cols_view(pages[pidx(pages, page)].1@))
    } else {
        h
    }
}

/// The items of a column after appending an item (`text`, `serves` sorted and
/// deduplicated, `status`, freshly stamped) and making the titles unique.
pub open spec fn added(before: Seq<Item>, after: Seq<Item>, text: Seq<char>, serves: Seq<Seq<char>>, status: Option<Status>) -> bool {
    let n = before.len() as int;
    &&& after.len() == n + 1
    &&& forall|k: int| 0 <= k < n ==> (#[trigger] after[k])@ == (ItemModel { text: after[k]@.text, ..before[k]@ })
    &&& after[n]@ == (ItemModel {
        text: after[n]@.text,
        serves: after[n]@.serves,
        status,
        modified: after[n]@.modified,
        ..plain_item(text)
    })
    &&& strictly_sorted(after[n]@.serves)
    &&& after[n]@.serves.to_set() == serves.to_set()
    &&& deduped(texts(before.map_values(|i: Item| i@)).push(text), texts(after.map_values(|i: Item| i@)))
}

/// The columns after renaming links `from` to `to`.
pub open spec fn cols_renamed(before: Seq<BoardColumn>, after: Seq<BoardColumn>, from: Seq<char>, to: Seq<char>) -> bool {
    &&& from == to ==> after == before
    &&& after.len() == before.len()
    &&& from != to ==> forall|j: int|
        0 <= j < before.len() ==> {
            &&& (#[trigger] after[j]).header == before[j].header
            &&& after[j].key == before[j].key
            &&& after[j].items@.len() == before[j].items@.len()
            &&& forall|q: int|
                0 <= q < before[j].items@.len() ==> item_renamed(
                    before[j].items@[q]@,
                    (#[trigger] after[j].items@[q])@,
                    from,
                    to,
                )
        }
}

/// Every page after renaming links `from` to `to`.
pub open spec fn pages_renamed(before: Pages, after: Pages, from: Seq<char>, to: Seq<char>) -> bool {
    &&& after.len() == before.len()
    &&& forall|j: int|
        0 <= j < before.len() ==> (#[trigger] after[j]).0 == before[j].0 && cols_renamed(
            before[j].1@,
            after[j].1@,
            from,
            to,
        )
}

/// The item after `set`: the text, and the links and status where given.
pub open spec fn item_reset(b: ItemModel, a: ItemModel, text: Seq<char>, serves: Option<Seq<Seq<char>>>, status: Option<Option<Status>>) -> bool {
    a == (ItemModel {
        text,
        serves: match serves {
            Some(v) => v,
            None => b.serves,
        },
        status: match status {
            Some(s) => s,
            None => b.status,
        },
        modified: a.modified,
        ..b
    })
}

/// An optional list of strings as pure data.
pub open spec fn opt_strs(v: Option<Vec<String>>) -> Option<Seq<Seq<char>>> {
    match v {
        Some(x) => Some(svec(x@)),
        None => None,
    }
}

/// An optional string slice as pure data.
pub open spec fn opt_str(v: Option<&str>) -> Option<Seq<char>> {
    match v {
        Some(x) => Some(x@),
        None => None,
    }
}

/// Puts `cols` in place of page `i`'s board; returns the board that was there.
fn swap_board(pages: &mut Vec<(String, Vec<BoardColumn>)>, i: usize, cols: Vec<BoardColumn>) -> (r: Vec<BoardColumn>)
    requires
        i < old(pages)@.len(),
    ensures
        r == old(pages)@[i as int].1,
        board_at_set(old(pages)@, final(pages)@, i as int, cols@),
{
    let ghost before = pages@;
    let (id, old_cols) = pages.remove(i);
    pages.insert(i, (id, cols));
    assert forall|j: int| 0 <= j < before.len() && j != i implies pages@[j] == before[j] by {
        if j < i {
        } else {
        }
    }
    old_cols
}

proof fn lemma_board_set_twice(a: Pages, b: Pages, c: Pages, i: int, x: Seq<BoardColumn>, y: Seq<BoardColumn>)
    requires
        0 <= i < a.len(),
        board_at_set(a, b, i, x),
        board_at_set(b, c, i, y),
    ensures
        board_at_set(a, c, i, y),
{
}

/// Renames links `from` to `to` on every page.
fn rename_everywhere(pages: &mut Vec<(String, Vec<BoardColumn>)>, from: &str, to: &str)
    ensures
        pages_renamed(old(pages)@, final(pages)@, from@, to@),
{
    let ghost orig = pages@;
    let mut j: usize = 0;
    while j < pages.len()
        invariant
            j <= pages@.len(),
            pages@.len() == orig.len(),
            forall|k: int|
                0 <= k < j ==> (#[trigger] pages@[k]).0 == orig[k].0 && cols_renamed(
                    orig[k].1@,
                    pages@[k].1@,
                    from@,
                    to@,
                ),
            forall|k: int| j <= k < orig.len() ==> #[trigger] pages@[k] == orig[k],
        decreases pages.len() - j,
    {
        let ghost mid = pages@;
        let mut cols = swap_board(pages, j, Vec::new());
        let ghost p1 = pages@;
        rename_links(&mut cols, from, to);
        let ghost renamed = cols@;
        let _ = swap_board(pages, j, cols);
        proof {
            lemma_board_set_twice(mid, p1, pages@, j as int, Seq::empty(), renamed);
        }
        j += 1;
    }
}

impl Doc {
    /// Appends an item to a column with its links (sorted, deduplicated) and
    /// status: the page's board is saved for undo, the item
    /// stamped, the column's titles kept unique.
    pub fn act_add_full(&mut self, page: &str, col: usize, text: String, serves: Vec<String>, status: Option<Status>) -> (r: Result<(), WireError>)
        requires
            has_page(old(self).pages@, page@) ==> col < old(self).pages@[pidx(old(self).pages@, page@)].1@.len()
                && old(self).pages@[pidx(old(self).pages@, page@)].1@[col as int].items@.len() < usize::MAX - 3,
        ensures
            act_add_full_done(*old(self), *final(self), page@, col, text@, svec(serves@), status, r),
    {
        let serves = sorted_set(serves);
        let i = find_page(&self.pages, page);
        if i >= self.pages.len() {
            return Err(WireError::NoBoard(to_owned(page)));
        }
        proof {
            lemma_page_index_range(doc_view(self.pages@), page@);
        }
        let ghost p0 = self.pages@;
        self.history.snapshot(page, &self.pages[i].1);
        let mut cols = swap_board(&mut self.pages, i, Vec::new());
        let ghost p1 = self.pages@;
        let ghost c0 = cols@;
        let mut column = cols.remove(col);
        let ghost items0 = column.items@;
        let mut it = Item {
            text,
            serves,
            status,
            note: Vec::new(),
            attachments: Vec::new(),
            at: Vec::new(),
            category: None,
            id: None,
            comment: None,
            derived: false,
            sha: None,
            modified: None,
        };
        it.touch();
        let ghost itv = it;
        column.items.push(it);
        let ghost items1 = column.items@;
        dedupe_items(&mut column);
        cols.insert(col, column);
        let ghost c1 = cols@;
        let _ = swap_board(&mut self.pages, i, cols);
        proof {
            lemma_board_set_twice(p0, p1, self.pages@, i as int, Seq::empty(), c1);
            assert forall|j: int| 0 <= j < c0.len() && j != col implies c1[j] == c0[j] by {
                if j < col {
                } else {
                }
            }
            assert(items1 =~= items0.push(itv));
            assert(texts(items1.map_values(|x: Item| x@)) =~= texts(items0.map_values(|x: Item| x@)).push(itv@.text));
            assert(svec(itv.serves@) =~= strs(itv.serves@));
            assert(itv@.note =~= Seq::<Seq<char>>::empty());
            assert(itv@.attachments =~= Seq::<Seq<char>>::empty());
            assert(itv@.at =~= Seq::<Seq<char>>::empty());
            let after = self.pages@[i as int].1@[col as int].items@;
            assert(after[items0.len() as int]@ == (ItemModel { text: after[items0.len() as int]@.text, ..itv@ }));
        }
        self.dirty = true;
        Ok(())
    }

    /// Appends an item with its text alone.
    pub fn act_add(&mut self, page: &str, col: usize, text: &str) -> (r: Result<(), WireError>)
        requires
            has_page(old(self).pages@, page@) ==> col < old(self).pages@[pidx(old(self).pages@, page@)].1@.len()
                && old(self).pages@[pidx(old(self).pages@, page@)].1@[col as int].items@.len() < usize::MAX - 3,
        ensures
            match r {
                Err(e) => !has_page(old(self).pages@, page@) && (e matches WireError::NoBoard(p) && p@ == page@)
                    && *final(self) == *old(self),
                Ok(_) => {
                    let i = pidx(old(self).pages@, page@);
                    &&& has_page(old(self).pages@, page@)
                    &&& crate::board::only_col_changed(old(self).pages@[i].1@, final(self).pages@[i].1@, col as int)
                    &&& board_at_set(old(self).pages@, final(self).pages@, i, final(self).pages@[i].1@)
                    &&& added(
                        old(self).pages@[i].1@[col as int].items@,
                        final(self).pages@[i].1@[col as int].items@,
                        text@,
                        Seq::empty(),
                        None,
                    )
                    &&& final(self).history@ == saved(old(self).history@, page@, cols_view(old(self).pages@[i].1@))
                    &&& *final(self) == (Doc {
                        pages: final(self).pages,
                        history: final(self).history,
                        dirty: true,
                        ..*old(self)
                    })
                },
            },
    {
        let r = self.act_add_full(page, col, to_owned(text), Vec::new(), None);
        assert(svec(Seq::<String>::empty()) =~= Seq::<Seq<char>>::empty());
        r
    }

    /// Replaces an item's text, and its links and status where given: the page's board is saved for undo, the item stamped,
    /// and every link on every page that named the old text follows it.
    pub fn act_set_full(
        &mut self,
        page: &str,
        col: usize,
        item: usize,
        text: String,
        serves: Option<Vec<String>>,
        status: Option<Option<Status>>,
    ) -> (r: Result<(), WireError>)
        ensures
            act_set_full_done(*old(self), *final(self), page@, col, item, text@, opt_strs(serves), status, r),
    {
        let i = find_page(&self.pages, page);
        if i >= self.pages.len() {
            return Err(WireError::NoBoard(to_owned(page)));
        }
        proof {
            lemma_page_index_range(doc_view(self.pages@), page@);
        }
        self.history.snapshot(page, &self.pages[i].1);
        if col < self.pages[i].1.len() && item < self.pages[i].1[col].items.len() {
            let ghost p0 = self.pages@;
            let mut it = put_item(&mut self.pages, i, col, item, Item::new(""));
            let ghost p1 = self.pages@;
            let old_text = to_owned(it.text.as_str());
            let new_text = to_owned(text.as_str());
            it.text = text;
            match serves {
                Some(v) => {
                    it.serves = v;
                },
                None => {},
            }
            match status {
                Some(st) => {
                    it.status = st;
                },
                None => {},
            }
            it.touch();
            let _ = put_item(&mut self.pages, i, col, item, it);
            let ghost mid = self.pages@;
            proof {
                lemma_item_set_twice(
                    p0[i as int].1@,
                    p1[i as int].1@,
                    mid[i as int].1@,
                    col as int,
                    item as int,
                    p1[i as int].1@[col as int].items@[item as int],
                    mid[i as int].1@[col as int].items@[item as int],
                );
            }
            rename_everywhere(&mut self.pages, old_text.as_str(), new_text.as_str());
            proof {
                assert(item_at_set(p0, mid, i as int, col as int, item as int));
                assert(item_reset(
                    p0[i as int].1@[col as int].items@[item as int]@,
                    mid[i as int].1@[col as int].items@[item as int]@,
                    text@,
                    opt_strs(serves),
                    status,
                ));
                assert(pages_renamed(mid, self.pages@, p0[i as int].1@[col as int].items@[item as int]@.text, text@));
            }
        }
        self.dirty = true;
        Ok(())
    }

    /// Replaces an item's text alone.
    pub fn act_set(&mut self, page: &str, col: usize, item: usize, text: &str) -> (r: Result<(), WireError>)
        ensures
            match r {
                Err(e) => !has_page(old(self).pages@, page@) && (e matches WireError::NoBoard(p) && p@ == page@)
                    && *final(self) == *old(self),
                Ok(_) => {
                    let i = pidx(old(self).pages@, page@);
                    &&& has_page(old(self).pages@, page@)
                    &&& if has_item(old(self).pages@, i, col as int, item as int) {
                        exists|mid: Pages|
                            item_at_set(old(self).pages@, mid, i, col as int, item as int) && item_reset(
                                old(self).pages@[i].1@[col as int].items@[item as int]@,
                                mid[i].1@[col as int].items@[item as int]@,
                                text@,
                                None,
                                None,
                            ) && pages_renamed(
                                mid,
                                final(self).pages@,
                                old(self).pages@[i].1@[col as int].items@[item as int]@.text,
                                text@,
                            )
                    } else {
                        final(self).pages@ == old(self).pages@
                    }
                    &&& final(self).history@ == saved(old(self).history@, page@, cols_view(old(self).pages@[i].1@))
                    &&& *final(self) == (Doc {
                        pages: final(self).pages,
                        history: final(self).history,
                        dirty: true,
                        ..*old(self)
                    })
                },
            },
    {
        self.act_set_full(page, col, item, to_owned(text), None, None)
    }
}


/// A column-level verb's outcome after the page's board was saved for undo:
/// no board → that error and nothing else; no such column → that error with
/// the save kept; else the board changed as `ok` says and the document is
/// marked changed.
pub open spec fn col_verb_done(
    old: Doc,
    new: Doc,
    page: Seq<char>,
    col: int,
    r: Result<(), WireError>,
    ok: spec_fn(Seq<BoardColumn>, Seq<BoardColumn>) -> bool,
) -> bool {
    let i = pidx(old.pages@, page);
    if !has_page(old.pages@, page) {
        (r matches Err(WireError::NoBoard(p)) && p@ == page) && new == old
    } else {
        &&& new.history@ == saved(old.history@, page, cols_view(old.pages@[i].1@))
        &&& if col >= old.pages@[i].1@.len() {
            &&& r == Err::<(), WireError>(WireError::NoColumn(col as usize))
            &&& new == (Doc { history: new.history, ..old })
        } else {
            &&& r is Ok
            &&& board_at_set(old.pages@, new.pages@, i, new.pages@[i].1@)
            &&& ok(old.pages@[i].1@, new.pages@[i].1@)
            &&& new == (Doc { pages: new.pages, history: new.history, dirty: new.dirty, ..old })
        }
    }
}

/// Whether item `i` moves to `i + delta` within a column of `n` items.
pub open spec fn move_ok(n: int, i: int, delta: int) -> bool {
    0 <= i < n && 0 <= i + delta < n
}

impl Doc {
    /// Finds page `page`'s index and saves its board for undo.
    fn save_page(&mut self, page: &str) -> (r: usize)
        ensures
            r as int == pidx(old(self).pages@, page@),
            r <= old(self).pages@.len(),
            final(self).history@ == snapped(old(self).history@, old(self).pages@, page@),
            *final(self) == (Doc { history: final(self).history, ..*old(self) }),
            r == old(self).pages@.len() ==> *final(self) == *old(self),
    {
        let i = find_page(&self.pages, page);
        if i < self.pages.len() {
            self.history.snapshot(page, &self.pages[i].1);
        }
        i
    }

    /// Appends a column: its header and optional key, no
    /// items; the page's board saved for undo.
    pub fn act_addcol(&mut self, page: &str, header: &str, key: Option<&str>) -> (r: Result<(), WireError>)
        ensures
            act_addcol_done(*old(self), *final(self), page@, header@, opt_str(key), r),
    {
        let i = self.save_page(page);
        if i >= self.pages.len() {
            return Err(WireError::NoBoard(to_owned(page)));
        }
        let ghost p0 = self.pages@;
        let mut cols = swap_board(&mut self.pages, i, Vec::new());
        let ghost p1 = self.pages@;
        let k = match key {
            Some(k) => Some(to_owned(k)),
            None => None,
        };
        cols.push(BoardColumn { header: to_owned(header), key: k, items: Vec::new() });
        let ghost c1 = cols@;
        let _ = swap_board(&mut self.pages, i, cols);
        proof {
            lemma_board_set_twice(p0, p1, self.pages@, i as int, Seq::empty(), c1);
            assert(c1.take(p0[i as int].1@.len() as int) =~= p0[i as int].1@);
        }
        self.dirty = true;
        Ok(())
    }

    /// Removes a column and its items.
    pub fn act_delcol(&mut self, page: &str, col: usize) -> (r: Result<(), WireError>)
        ensures
            act_delcol_done(*old(self), *final(self), page@, col, r),
    {
        let i = self.save_page(page);
        if i >= self.pages.len() {
            return Err(WireError::NoBoard(to_owned(page)));
        }
        if col >= self.pages[i].1.len() {
            return Err(WireError::NoColumn(col));
        }
        let ghost p0 = self.pages@;
        let mut cols = swap_board(&mut self.pages, i, Vec::new());
        let ghost p1 = self.pages@;
        cols.remove(col);
        let ghost c1 = cols@;
        let _ = swap_board(&mut self.pages, i, cols);
        proof {
            lemma_board_set_twice(p0, p1, self.pages@, i as int, Seq::empty(), c1);
        }
        self.dirty = true;
        Ok(())
    }

    /// Renames a column's header.
    pub fn act_setcol(&mut self, page: &str, col: usize, header: &str) -> (r: Result<(), WireError>)
        ensures
            act_setcol_done(*old(self), *final(self), page@, col, header@, r),
    {
        let i = self.save_page(page);
        if i >= self.pages.len() {
            return Err(WireError::NoBoard(to_owned(page)));
        }
        if col >= self.pages[i].1.len() {
            return Err(WireError::NoColumn(col));
        }
        let ghost p0 = self.pages@;
        let mut cols = swap_board(&mut self.pages, i, Vec::new());
        let ghost p1 = self.pages@;
        let ghost c0 = cols@;
        let mut column = cols.remove(col);
        column.header = to_owned(header);
        cols.insert(col, column);
        let ghost c1 = cols@;
        let _ = swap_board(&mut self.pages, i, cols);
        proof {
            lemma_board_set_twice(p0, p1, self.pages@, i as int, Seq::empty(), c1);
            assert forall|j: int| 0 <= j < c0.len() && j != col implies c1[j] == c0[j] by {
                if j < col {
                } else {
                }
            }
        }
        self.dirty = true;
        Ok(())
    }

    /// Reorders an item within its column by `delta`; nothing
    /// moves when either end falls outside the column.
    pub fn act_move(&mut self, page: &str, col: usize, item: usize, delta: isize) -> (r: Result<(), WireError>)
        ensures
            act_move_done(*old(self), *final(self), page@, col, item, delta, r),
    {
        let i = self.save_page(page);
        if i >= self.pages.len() {
            return Err(WireError::NoBoard(to_owned(page)));
        }
        if col >= self.pages[i].1.len() {
            return Err(WireError::NoColumn(col));
        }
        let n = self.pages[i].1[col].items.len();
        let fits = if item < n {
            if delta >= 0 {
                (delta as usize) < n - item
            } else {
                (0i128 - delta as i128) <= item as i128
            }
        } else {
            false
        };
        if fits {
            let t: usize = if delta >= 0 { item + delta as usize } else { (item as i128 + delta as i128) as usize };
            let ghost p0 = self.pages@;
            let mut cols = swap_board(&mut self.pages, i, Vec::new());
            let ghost p1 = self.pages@;
            let ghost c0 = cols@;
            let mut column = cols.remove(col);
            swap_at(&mut column.items, item, t);
            cols.insert(col, column);
            let ghost c1 = cols@;
            let _ = swap_board(&mut self.pages, i, cols);
            proof {
                lemma_board_set_twice(p0, p1, self.pages@, i as int, Seq::empty(), c1);
                assert forall|j: int| 0 <= j < c0.len() && j != col implies c1[j] == c0[j] by {
                    if j < col {
                    } else {
                    }
                }
            }
            self.dirty = true;
        }
        Ok(())
    }

    /// Removes an item; an item past the end is refused.
    pub fn act_del(&mut self, page: &str, col: usize, item: usize) -> (r: Result<(), WireError>)
        ensures
            act_del_done(*old(self), *final(self), page@, col, item, r),
    {
        let i = self.save_page(page);
        if i >= self.pages.len() {
            return Err(WireError::NoBoard(to_owned(page)));
        }
        if col >= self.pages[i].1.len() {
            return Err(WireError::NoColumn(col));
        }
        if item >= self.pages[i].1[col].items.len() {
            return Err(WireError::NoItem(item));
        }
        let ghost p0 = self.pages@;
        let mut cols = swap_board(&mut self.pages, i, Vec::new());
        let ghost p1 = self.pages@;
        let ghost c0 = cols@;
        let mut column = cols.remove(col);
        column.items.remove(item);
        cols.insert(col, column);
        let ghost c1 = cols@;
        let _ = swap_board(&mut self.pages, i, cols);
        proof {
            lemma_board_set_twice(p0, p1, self.pages@, i as int, Seq::empty(), c1);
            assert forall|j: int| 0 <= j < c0.len() && j != col implies c1[j] == c0[j] by {
                if j < col {
                } else {
                }
            }
        }
        self.dirty = true;
        Ok(())
    }
}


// ─── pages ──────────────────────────────────────────────────────────────────

impl Doc {
    /// Adds an empty board page at the end: it needs an id no
    /// page has; an empty title reads as the id.
    pub fn act_addpage(&mut self, id: &str, title: &str, style: BoardStyle) -> (r: Result<(), WireError>)
        requires
            old(self).wf(),
        ensures
            act_addpage_done(*old(self), *final(self), id@, title@, style, r),
    {
        if chars_of(id).len() == 0 {
            return Err(WireError::PageNeedsId);
        }
        let i = find_page(&self.pages, id);
        if i < self.pages.len() {
            return Err(WireError::PageExists(to_owned(id)));
        }
        let t = if chars_of(title).len() == 0 { to_owned(id) } else { to_owned(title) };
        let ghost p0 = self.pages@;
        let ghost m0 = self.meta@;
        self.pages.push((to_owned(id), Vec::new()));
        self.meta.push(PageMeta { title: t, style });
        assert(self.pages@.take(p0.len() as int) =~= p0);
        assert(self.meta@.take(p0.len() as int) =~= m0);
        self.dirty = true;
        Ok(())
    }

    /// Switches a page's render style.
    pub fn act_setstyle(&mut self, page: &str, style: BoardStyle) -> (r: Result<(), WireError>)
        requires
            old(self).wf(),
        ensures
            act_setstyle_done(*old(self), *final(self), page@, style, r),
    {
        let i = find_page(&self.pages, page);
        if i >= self.pages.len() {
            return Err(WireError::NoPage(to_owned(page)));
        }
        let ghost m0 = self.meta@;
        let m = self.meta.remove(i);
        self.meta.insert(i, PageMeta { title: m.title, style });
        assert forall|j: int| 0 <= j < m0.len() && j != i implies self.meta@[j] == m0[j] by {
            if j < i {
            } else {
            }
        }
        self.dirty = true;
        Ok(())
    }

    /// Renames a page's display title; its id, the address, stays.
    pub fn act_renamepage(&mut self, id: &str, title: &str) -> (r: Result<(), WireError>)
        requires
            old(self).wf(),
        ensures
            act_renamepage_done(*old(self), *final(self), id@, title@, r),
    {
        let i = find_page(&self.pages, id);
        if i >= self.pages.len() {
            return Err(WireError::NoPage(to_owned(id)));
        }
        let ghost m0 = self.meta@;
        let m = self.meta.remove(i);
        self.meta.insert(i, PageMeta { title: to_owned(title), style: m.style });
        assert forall|j: int| 0 <= j < m0.len() && j != i implies self.meta@[j] == m0[j] by {
            if j < i {
            } else {
            }
        }
        self.dirty = true;
        Ok(())
    }

    /// Deletes a page; the active page is kept within the pages.
    pub fn act_delpage(&mut self, id: &str) -> (r: Result<(), WireError>)
        requires
            old(self).wf(),
        ensures
            act_delpage_done(*old(self), *final(self), id@, r),
    {
        let i = find_page(&self.pages, id);
        if i >= self.pages.len() {
            return Err(WireError::NoPage(to_owned(id)));
        }
        self.pages.remove(i);
        self.meta.remove(i);
        let n = self.pages.len();
        if self.active >= n {
            self.active = if n > 0 { n - 1 } else { 0 };
        }
        self.dirty = true;
        Ok(())
    }

    /// Makes a page active, the cursor back at its start.
    pub fn act_page(&mut self, page: &str) -> (r: Result<(), WireError>)
        ensures
            act_page_done(*old(self), *final(self), page@, r),
    {
        let i = find_page(&self.pages, page);
        if i >= self.pages.len() {
            return Err(WireError::NoPage(to_owned(page)));
        }
        self.active = i;
        self.cursor = Cursor { col: 0, row: 1 };
        Ok(())
    }

    /// Selects a board item, making its page active.
    pub fn act_sel(&mut self, page: &str, col: usize, item: usize) -> (r: Result<(), WireError>)
        requires
            item < usize::MAX,
        ensures
            act_sel_done(*old(self), *final(self), page@, col, item, r),
    {
        match self.act_page(page) {
            Err(e) => Err(e),
            Ok(()) => {
                self.cursor = Cursor { col, row: item + 1 };
                Ok(())
            },
        }
    }

    /// Undoes the last board edit; false if there is none.
    pub fn undo(&mut self) -> (r: bool)
        requires
            old(self).wf(),
        ensures
            final(self).wf(),
            (final(self).history@, doc_view(final(self).pages@), r) == crate::history::undone(
                old(self).history@,
                doc_view(old(self).pages@),
            ),
            *final(self) == (Doc {
                pages: final(self).pages,
                history: final(self).history,
                dirty: old(self).dirty || r,
                ..*old(self)
            }),
    {
        let ghost d0 = doc_view(self.pages@);
        let ghost h0 = self.history@;
        let r = self.history.undo(&mut self.pages);
        proof {
            if h0.undo.len() > 0 {
                let (p, prev) = h0.undo.last();
                lemma_page_index_range(d0, p);
                assert(crate::history::with_board(d0, p, prev).len() == d0.len());
            }
            let d1 = doc_view(self.pages@);
            assert(d1.len() == self.pages@.len());
            assert(d0.len() == old(self).pages@.len());
            assert(d1.len() == d0.len());
        }
        if r {
            self.dirty = true;
        }
        r
    }

    /// Redoes the last undone edit; false if there is none.
    pub fn redo(&mut self) -> (r: bool)
        requires
            old(self).wf(),
        ensures
            final(self).wf(),
            (final(self).history@, doc_view(final(self).pages@), r) == crate::history::redone(
                old(self).history@,
                doc_view(old(self).pages@),
            ),
            *final(self) == (Doc {
                pages: final(self).pages,
                history: final(self).history,
                dirty: old(self).dirty || r,
                ..*old(self)
            }),
    {
        let ghost d0 = doc_view(self.pages@);
        let ghost h0 = self.history@;
        let r = self.history.redo(&mut self.pages);
        proof {
            if h0.redo.len() > 0 {
                let (p, prev) = h0.redo.last();
                lemma_page_index_range(d0, p);
                assert(crate::history::with_board(d0, p, prev).len() == d0.len());
            }
            let d1 = doc_view(self.pages@);
            assert(d1.len() == self.pages@.len());
            assert(d0.len() == old(self).pages@.len());
            assert(d1.len() == d0.len());
        }
        if r {
            self.dirty = true;
        }
        r
    }

    /// Replaces the set of intents being worked on; empty clears it.
    pub fn set_working(&mut self, titles: Vec<String>)
        ensures
            *final(self) == (Doc { working: titles, ..*old(self) }),
    {
        self.working = titles;
    }
}


// ─── outcomes ──────────────────────────────────────────────────────────────

/// What `act_add_full` does.
pub open spec fn act_add_full_done(old: Doc, new: Doc, page: Seq<char>, col: usize, text: Seq<char>, serves: Seq<Seq<char>>, status: Option<Status>, r: Result<(), WireError>) -> bool {
    &&& match r {
        Err(e) => !has_page(old.pages@, page) && (e matches WireError::NoBoard(p) && p@ == page)
            && new == old,
        Ok(_) => {
            let i = pidx(old.pages@, page);
            &&& has_page(old.pages@, page)
            &&& crate::board::only_col_changed(old.pages@[i].1@, new.pages@[i].1@, col as int)
            &&& board_at_set(old.pages@, new.pages@, i, new.pages@[i].1@)
            &&& added(
                old.pages@[i].1@[col as int].items@,
                new.pages@[i].1@[col as int].items@,
                text,
                serves,
                status,
            )
            &&& new.history@ == saved(old.history@, page, cols_view(old.pages@[i].1@))
            &&& new == (Doc {
                pages: new.pages,
                history: new.history,
                dirty: true,
                ..old
            })
        },
    }
}

/// What `act_set_full` does.
pub open spec fn act_set_full_done(old: Doc, new: Doc, page: Seq<char>, col: usize, item: usize, text: Seq<char>, serves: Option<Seq<Seq<char>>>, status: Option<Option<Status>>, r: Result<(), WireError>) -> bool {
    &&& match r {
        Err(e) => !has_page(old.pages@, page) && (e matches WireError::NoBoard(p) && p@ == page)
            && new == old,
        Ok(_) => {
            let i = pidx(old.pages@, page);
            &&& has_page(old.pages@, page)
            &&& if has_item(old.pages@, i, col as int, item as int) {
                exists|mid: Pages|
                    item_at_set(old.pages@, mid, i, col as int, item as int) && item_reset(
                        old.pages@[i].1@[col as int].items@[item as int]@,
                        mid[i].1@[col as int].items@[item as int]@,
                        text,
                        serves,
                        status,
                    ) && pages_renamed(
                        mid,
                        new.pages@,
                        old.pages@[i].1@[col as int].items@[item as int]@.text,
                        text,
                    )
            } else {
                new.pages@ == old.pages@
            }
            &&& new.history@ == saved(old.history@, page, cols_view(old.pages@[i].1@))
            &&& new == (Doc {
                pages: new.pages,
                history: new.history,
                dirty: true,
                ..old
            })
        },
    }
}

/// What `act_addcol` does.
pub open spec fn act_addcol_done(old: Doc, new: Doc, page: Seq<char>, header: Seq<char>, key: Option<Seq<char>>, r: Result<(), WireError>) -> bool {
    &&& match r {
        Err(e) => !has_page(old.pages@, page) && (e matches WireError::NoBoard(p) && p@ == page)
            && new == old,
        Ok(_) => {
            let i = pidx(old.pages@, page);
            let cols = new.pages@[i].1@;
            let n = old.pages@[i].1@.len() as int;
            &&& has_page(old.pages@, page)
            &&& board_at_set(old.pages@, new.pages@, i, cols)
            &&& cols.len() == n + 1
            &&& cols.take(n) == old.pages@[i].1@
            &&& cols[n].header@ == header
            &&& sopt(cols[n].key) == key
            &&& cols[n].items@.len() == 0
            &&& new.history@ == saved(old.history@, page, cols_view(old.pages@[i].1@))
            &&& new == (Doc {
                pages: new.pages,
                history: new.history,
                dirty: true,
                ..old
            })
        },
    }
}

/// What `act_delcol` does.
pub open spec fn act_delcol_done(old: Doc, new: Doc, page: Seq<char>, col: usize, r: Result<(), WireError>) -> bool {
    &&& col_verb_done(
        old,
        new,
        page,
        col as int,
        r,
        |b: Seq<BoardColumn>, a: Seq<BoardColumn>| a == b.remove(col as int),
    )
    &&& r is Ok ==> new.dirty
}

/// What `act_setcol` does.
pub open spec fn act_setcol_done(old: Doc, new: Doc, page: Seq<char>, col: usize, header: Seq<char>, r: Result<(), WireError>) -> bool {
    &&& col_verb_done(
        old,
        new,
        page,
        col as int,
        r,
        |b: Seq<BoardColumn>, a: Seq<BoardColumn>|
            a.len() == b.len() && (forall|j: int| 0 <= j < b.len() && j != col ==> a[j] == b[j])
                && a[col as int].header@ == header && a[col as int].key == b[col as int].key
                && a[col as int].items == b[col as int].items,
    )
    &&& r is Ok ==> new.dirty
}

/// What `act_move` does.
pub open spec fn act_move_done(old: Doc, new: Doc, page: Seq<char>, col: usize, item: usize, delta: isize, r: Result<(), WireError>) -> bool {
    &&& col_verb_done(
        old,
        new,
        page,
        col as int,
        r,
        |b: Seq<BoardColumn>, a: Seq<BoardColumn>|
            if move_ok(b[col as int].items@.len() as int, item as int, delta as int) {
                crate::board::only_col_changed(b, a, col as int) && a[col as int].items@ == crate::board::swapped(
                    b[col as int].items@,
                    item as int,
                    item + delta,
                )
            } else {
                a == b
            },
    )
    &&& r is Ok ==> new.dirty == (old.dirty || move_ok(
        old.pages@[pidx(old.pages@, page)].1@[col as int].items@.len() as int,
        item as int,
        delta as int,
    ))
}

/// What `act_del` does.
pub open spec fn act_del_done(old: Doc, new: Doc, page: Seq<char>, col: usize, item: usize, r: Result<(), WireError>) -> bool {
    &&& ({
        let i = pidx(old.pages@, page);
        if has_page(old.pages@, page) && col < old.pages@[i].1@.len() && item
            >= old.pages@[i].1@[col as int].items@.len() {
            &&& r == Err::<(), WireError>(WireError::NoItem(item))
            &&& new == (Doc { history: new.history, ..old })
            &&& new.history@ == saved(old.history@, page, cols_view(old.pages@[i].1@))
        } else {
            col_verb_done(
                old,
                new,
                page,
                col as int,
                r,
                |b: Seq<BoardColumn>, a: Seq<BoardColumn>|
                    crate::board::only_col_changed(b, a, col as int) && a[col as int].items@ == b[col as int].items@.remove(
                        item as int,
                    ),
            ) && (r is Ok ==> new.dirty)
        }
    })
}

/// What `act_addpage` does.
pub open spec fn act_addpage_done(old: Doc, new: Doc, id: Seq<char>, title: Seq<char>, style: BoardStyle, r: Result<(), WireError>) -> bool {
    &&& new.wf()
    &&& if id.len() == 0 {
        r == Err::<(), WireError>(WireError::PageNeedsId) && new == old
    } else if has_page(old.pages@, id) {
        (r matches Err(WireError::PageExists(p)) && p@ == id) && new == old
    } else {
        let n = old.pages@.len() as int;
        &&& r is Ok
        &&& new.pages@.len() == n + 1
        &&& new.pages@.take(n) == old.pages@
        &&& new.pages@[n].0@ == id
        &&& new.pages@[n].1@.len() == 0
        &&& new.meta@.take(n) == old.meta@
        &&& new.meta@[n].title@ == (if title.len() == 0 { id } else { title })
        &&& new.meta@[n].style == style
        &&& new == (Doc {
            pages: new.pages,
            meta: new.meta,
            dirty: true,
            ..old
        })
    }
}

/// What `act_setstyle` does.
pub open spec fn act_setstyle_done(old: Doc, new: Doc, page: Seq<char>, style: BoardStyle, r: Result<(), WireError>) -> bool {
    &&& new.wf()
    &&& match r {
        Err(e) => !has_page(old.pages@, page) && (e matches WireError::NoPage(p) && p@ == page)
            && new == old,
        Ok(_) => {
            let i = pidx(old.pages@, page);
            &&& has_page(old.pages@, page)
            &&& new.meta@.len() == old.meta@.len()
            &&& forall|j: int| 0 <= j < old.meta@.len() && j != i ==> new.meta@[j] == old.meta@[j]
            &&& new.meta@[i].title == old.meta@[i].title
            &&& new.meta@[i].style == style
            &&& new == (Doc { meta: new.meta, dirty: true, ..old })
        },
    }
}

/// What `act_renamepage` does.
pub open spec fn act_renamepage_done(old: Doc, new: Doc, id: Seq<char>, title: Seq<char>, r: Result<(), WireError>) -> bool {
    &&& new.wf()
    &&& match r {
        Err(e) => !has_page(old.pages@, id) && (e matches WireError::NoPage(p) && p@ == id)
            && new == old,
        Ok(_) => {
            let i = pidx(old.pages@, id);
            &&& has_page(old.pages@, id)
            &&& new.meta@.len() == old.meta@.len()
            &&& forall|j: int| 0 <= j < old.meta@.len() && j != i ==> new.meta@[j] == old.meta@[j]
            &&& new.meta@[i].title@ == title
            &&& new.meta@[i].style == old.meta@[i].style
            &&& new == (Doc { meta: new.meta, dirty: true, ..old })
        },
    }
}

/// What `act_delpage` does.
pub open spec fn act_delpage_done(old: Doc, new: Doc, id: Seq<char>, r: Result<(), WireError>) -> bool {
    &&& new.wf()
    &&& match r {
        Err(e) => !has_page(old.pages@, id) && (e matches WireError::NoPage(p) && p@ == id)
            && new == old,
        Ok(_) => {
            let i = pidx(old.pages@, id);
            let n = (old.pages@.len() - 1) as int;
            &&& has_page(old.pages@, id)
            &&& new.pages@ == old.pages@.remove(i)
            &&& new.meta@ == old.meta@.remove(i)
            &&& new.active == (if old.active >= n {
                if n > 0 { (n - 1) as usize } else { 0 }
            } else {
                old.active
            })
            &&& new == (Doc {
                pages: new.pages,
                meta: new.meta,
                active: new.active,
                dirty: true,
                ..old
            })
        },
    }
}

/// What `act_page` does.
pub open spec fn act_page_done(old: Doc, new: Doc, page: Seq<char>, r: Result<(), WireError>) -> bool {
    &&& match r {
        Err(e) => !has_page(old.pages@, page) && (e matches WireError::NoPage(p) && p@ == page)
            && new == old,
        Ok(_) => has_page(old.pages@, page) && new == (Doc {
            active: pidx(old.pages@, page) as usize,
            cursor: Cursor { col: 0, row: 1 },
            ..old
        }),
    }
}

/// What `act_sel` does.
pub open spec fn act_sel_done(old: Doc, new: Doc, page: Seq<char>, col: usize, item: usize, r: Result<(), WireError>) -> bool {
    &&& match r {
        Err(e) => !has_page(old.pages@, page) && (e matches WireError::NoPage(p) && p@ == page)
            && new == old,
        Ok(_) => has_page(old.pages@, page) && new == (Doc {
            active: pidx(old.pages@, page) as usize,
            cursor: Cursor { col, row: (item + 1) as usize },
            ..old
        }),
    }
}

/// Every edit can be undone: after any verb that saved page `p`'s board
/// before changing the document (and left the page in place), undo succeeds,
/// marks the document changed and puts that saved board back on `p`, while
/// every other page keeps what the edit made of it.
pub proof fn law_edit_then_undo(before: Doc, after: Doc, p: Seq<char>)
    requires
        has_page(before.pages@, p),
        has_page(after.pages@, p),
        after.history@ == saved(before.history@, p, cols_view(before.pages@[pidx(before.pages@, p)].1@)),
    ensures
        ({
            let b0 = cols_view(before.pages@[pidx(before.pages@, p)].1@);
            let (h2, d2, ok) = undone(after.history@, doc_view(after.pages@));
            &&& ok
            &&& after.dirty || ok
            &&& board_of(d2, p) == Some(b0)
            &&& d2 == with_board(doc_view(after.pages@), p, b0)
        }),
{
    let b0 = cols_view(before.pages@[pidx(before.pages@, p)].1@);
    let h1 = after.history@;
    assert(h1.undo.last() == (p, b0));
    lemma_page_index_range(doc_view(after.pages@), p);
    lemma_with_board_keeps_index(doc_view(after.pages@), p, b0);
}

/// With no edit to take back, undo fails and changes nothing.
pub proof fn law_undo_with_nothing_saved(h: HistoryModel, d: Seq<PageBoard>)
    requires
        h.undo.len() == 0,
    ensures
        undone(h, d) == (h, d, false),
{
}

} // verus!
