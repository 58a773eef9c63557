//! Running one agent command against the document: addresses
//! resolved against the boards, the matching `act_*` verb performed, and what
//! to show back chosen; a worked intent that the command finishes stops
//! being worked on.
use vstd::prelude::*;

use crate::agent::{
    addr_piece, key_pos_col, parse_addr, resolve_col, resolve_item, spec_resolve_col, spec_resolve_item, AddrError,
};
use crate::audit::{coverage, covs_view};
use crate::command::{parse_command, spec_command, Command, CommandError, CommandModel};
use crate::conf::split_on;
use crate::graph::strs;
use crate::ident::{decimal, push_decimal};
use crate::history::{doc_view, find_page, lemma_page_index_first, lemma_page_index_range};
use crate::protocol::{sopt, svec, Status};
use crate::text::{chars_of, str_eq, string_of, to_owned};
use crate::wire::{
    cov_of, retire, retired, act_add_full_done, act_addcol_done, act_addpage_done, act_del_done, act_delcol_done, act_delpage_done,
    act_id_done, act_move_done, act_page_done, act_renamepage_done, act_sel_done, act_set_full_done,
    act_setcol_done, act_setstyle_done, has_item, has_page, item_edit_done, pidx, Doc, FieldModel, Pages,
    WireError,
};

verus! {

/// What a command shows back.
#[derive(Debug)]
pub enum Reply {
    /// The protocol manual.
    Usage,
    /// The coverage digest.
    Coverage,
    /// The upward trace from an address.
    Trace(String),
    /// The document at an address (none: every page).
    Observe(Option<String>),
    /// One item: page, column and item numbers.
    Item(String, usize, usize),
    NothingToUndo,
    NothingToRedo,
}

/// Why a command did nothing.
#[derive(Debug, PartialEq, Eq)]
pub enum DispatchError {
    /// The line is not a command.
    Parse(CommandError),
    /// The verb refused.
    Act(WireError),
    /// The address names no column.
    NeedColumn,
    /// The address names no item.
    NeedItem,
    /// A column or item token that does not resolve.
    Addr(AddrError),
    /// No item has this id or title.
    NoSuchItem(String),
    /// `setcol` without a quoted header.
    SetColNeedsHeader,
}

/// Why an address does not resolve, as pure data.
pub enum ResolveModel {
    NoBoard,
    NeedColumn,
    NeedItem,
    Addr(AddrError),
    NoSuchItem,
}

/// `e` is the error `m` for an address on `page` written `tok`.
pub open spec fn resolve_err(e: DispatchError, m: ResolveModel, page: Seq<char>, tok: Seq<char>) -> bool {
    match m {
        ResolveModel::NoBoard => e matches DispatchError::Act(WireError::NoBoard(p)) && p@ == page,
        ResolveModel::NeedColumn => e == DispatchError::NeedColumn,
        ResolveModel::NeedItem => e == DispatchError::NeedItem,
        ResolveModel::Addr(a) => e == DispatchError::Addr(a),
        ResolveModel::NoSuchItem => e matches DispatchError::NoSuchItem(x) && x@ == tok,
    }
}

// ─── addresses ──────────────────────────────────────────────────────────────

/// The page named by an address.
pub open spec fn addr_page(addr: Seq<char>) -> Seq<char> {
    split_on(addr, '/')[0]
}

/// The column an address names on its page (`board` then `resolve_col`).
pub open spec fn col_of(pages: Pages, addr: Seq<char>) -> Result<usize, ResolveModel> {
    let pg = addr_page(addr);
    if !has_page(pages, pg) {
        Err(ResolveModel::NoBoard)
    } else {
        match addr_piece(addr, 1) {
            None => Err(ResolveModel::NeedColumn),
            Some(ct) => match spec_resolve_col(pages[pidx(pages, pg)].1@, ct) {
                Ok(c) => Ok(c),
                Err(e) => Err(ResolveModel::Addr(e)),
            },
        }
    }
}

/// The item an address names in column `c` of its page: its token resolved,
/// or `dflt` when there is none.
pub open spec fn item_of(pages: Pages, addr: Seq<char>, c: int, dflt: Option<usize>) -> Result<usize, ResolveModel> {
    let i = pidx(pages, addr_page(addr));
    match addr_piece(addr, 2) {
        None => match dflt {
            Some(d) => Ok(d),
            None => Err(ResolveModel::NeedItem),
        },
        Some(t) => match spec_resolve_item(pages[i].1@[c].items@.len(), t) {
            Ok(q) => Ok(q),
            Err(e) => Err(ResolveModel::Addr(e)),
        },
    }
}

/// `s` without the double quotes at either end (`trim_matches('"')`).
pub open spec fn unquoted(s: Seq<char>) -> Seq<char>
    decreases s.len(),
{
    if s.len() > 0 && s[0] == '"' {
        unquoted(s.drop_first())
    } else if s.len() > 0 && s.last() == '"' {
        unquoted(s.drop_last())
    } else {
        s
    }
}

/// Whether an item answers to `t`: by its id, or by its title.
pub open spec fn answers(pages: Pages, j: int, c: int, q: int, t: Seq<char>, by_id: bool) -> bool {
    has_item(pages, j, c, q) && if by_id {
        pages[j].1@[c].items@[q]@.id == Some(t)
    } else {
        pages[j].1@[c].items@[q]@.text == t
    }
}

/// Position `(j1, c1, q1)` comes before `(j2, c2, q2)` in page, column,
/// item order.
pub open spec fn earlier(j1: int, c1: int, q1: int, j2: int, c2: int, q2: int) -> bool {
    j1 < j2 || (j1 == j2 && (c1 < c2 || (c1 == c2 && q1 < q2)))
}

/// The first item that answers to `t`.
pub open spec fn first_answer(pages: Pages, j: int, c: int, q: int, t: Seq<char>, by_id: bool) -> bool {
    &&& answers(pages, j, c, q, t, by_id)
    &&& forall|j2: int, c2: int, q2: int|
        #![trigger answers(pages, j2, c2, q2, t, by_id)]
        earlier(j2, c2, q2, j, c, q) ==> !answers(pages, j2, c2, q2, t, by_id)
}

pub open spec fn some_answer(pages: Pages, t: Seq<char>, by_id: bool) -> bool {
    exists|j: int, c: int, q: int| #[trigger] answers(pages, j, c, q, t, by_id)
}

/// A bare token resolves by id first, then by title, to the first item
/// that answers.
pub open spec fn any_of(pages: Pages, tok: Seq<char>) -> Result<(Seq<char>, int, int), ResolveModel> {
    let t = unquoted(tok);
    if some_answer(pages, t, true) {
        let (j, c, q) = choose|j: int, c: int, q: int| first_answer(pages, j, c, q, t, true);
        Ok((pages[j].0@, c, q))
    } else if some_answer(pages, t, false) {
        let (j, c, q) = choose|j: int, c: int, q: int| first_answer(pages, j, c, q, t, false);
        Ok((pages[j].0@, c, q))
    } else {
        Err(ResolveModel::NoSuchItem)
    }
}

/// An item address (`resolve3`): a bare token is an id or a title;
/// `page/col/item` resolves the column, then the item token.
pub open spec fn item_addr(pages: Pages, addr: Seq<char>) -> Result<(Seq<char>, int, int), ResolveModel> {
    match addr_piece(addr, 1) {
        None => any_of(pages, addr_page(addr)),
        Some(_) => match col_of(pages, addr) {
            Err(e) => Err(e),
            Ok(c) => match item_of(pages, addr, c as int, None) {
                Err(e) => Err(e),
                Ok(q) => Ok((addr_page(addr), c as int, q as int)),
            },
        },
    }
}

proof fn lemma_first_unique(pages: Pages, t: Seq<char>, by_id: bool, j: int, c: int, q: int, j2: int, c2: int, q2: int)
    requires
        first_answer(pages, j, c, q, t, by_id),
        first_answer(pages, j2, c2, q2, t, by_id),
    ensures
        j == j2 && c == c2 && q == q2,
{
    if earlier(j2, c2, q2, j, c, q) {
        assert(!answers(pages, j2, c2, q2, t, by_id));
    } else if earlier(j, c, q, j2, c2, q2) {
        assert(!answers(pages, j, c, q, t, by_id));
    }
}

proof fn lemma_key_pos_range(cols: Seq<crate::protocol::BoardColumn>, tok: Seq<char>)
    ensures
        key_pos_col(cols, tok) matches Some(j) ==> 0 <= j < cols.len(),
    decreases cols.len(),
{
    if cols.len() > 0 {
        lemma_key_pos_range(cols.drop_first(), tok);
    }
}

/// `s` without the double quotes at either end.
fn strip_quotes(s: &str) -> (r: String)
    ensures
        r@ == unquoted(s@),
{
    let v = chars_of(s);
    assert(v@.subrange(0, v@.len() as int) =~= v@);
    let mut lo: usize = 0;
    while lo < v.len() && v[lo] == '"'
        invariant
            lo <= v@.len(),
            unquoted(v@) == unquoted(v@.subrange(lo as int, v@.len() as int)),
        decreases v.len() - lo,
    {
        assert(v@.subrange(lo as int, v@.len() as int).drop_first() =~= v@.subrange(lo + 1, v@.len() as int));
        lo += 1;
    }
    let mut hi: usize = v.len();
    while hi > lo && v[hi - 1] == '"'
        invariant
            lo <= hi <= v@.len(),
            lo < v@.len() ==> v@[lo as int] != '"',
            hi > lo ==> v@[lo as int] != '"',
            unquoted(v@) == unquoted(v@.subrange(lo as int, hi as int)),
        decreases hi - lo,
    {
        assert(v@.subrange(lo as int, hi as int).drop_last() =~= v@.subrange(lo as int, hi - 1));
        hi -= 1;
    }
    let r = string_of(&v, lo, hi);
    assert(v@.subrange(0, v@.len() as int) =~= s@);
    r
}

/// The first item answering to `t`, by id or by title.
fn find_answer(pages: &Vec<(String, Vec<crate::protocol::BoardColumn>)>, t: &str, by_id: bool) -> (r: Option<(usize, usize, usize)>)
    ensures
        match r {
            Some((j, c, q)) => first_answer(pages@, j as int, c as int, q as int, t@, by_id),
            None => !some_answer(pages@, t@, by_id),
        },
{
    let mut j: usize = 0;
    while j < pages.len()
        invariant
            j <= pages@.len(),
            forall|j2: int, c2: int, q2: int|
                #![trigger answers(pages@, j2, c2, q2, t@, by_id)]
                j2 < j ==> !answers(pages@, j2, c2, q2, t@, by_id),
        decreases pages.len() - j,
    {
        let cols = &pages[j].1;
        let mut c: usize = 0;
        while c < cols.len()
            invariant
                j < pages@.len(),
                cols == pages@[j as int].1,
                c <= cols@.len(),
                forall|j2: int, c2: int, q2: int|
                    #![trigger answers(pages@, j2, c2, q2, t@, by_id)]
                    earlier(j2, c2, q2, j as int, c as int, 0) ==> !answers(pages@, j2, c2, q2, t@, by_id),
            decreases cols.len() - c,
        {
            let items = &cols[c].items;
            let mut q: usize = 0;
            while q < items.len()
                invariant
                    j < pages@.len(),
                    c < pages@[j as int].1@.len(),
                    items == pages@[j as int].1@[c as int].items,
                    q <= items@.len(),
                    forall|j2: int, c2: int, q2: int|
                        #![trigger answers(pages@, j2, c2, q2, t@, by_id)]
                        earlier(j2, c2, q2, j as int, c as int, q as int) ==> !answers(
                            pages@,
                            j2,
                            c2,
                            q2,
                            t@,
                            by_id,
                        ),
                decreases items.len() - q,
            {
                let hit = if by_id {
                    match &items[q].id {
                        Some(x) => str_eq(x.as_str(), t),
                        None => false,
                    }
                } else {
                    str_eq(items[q].text.as_str(), t)
                };
                if hit {
                    assert(answers(pages@, j as int, c as int, q as int, t@, by_id));
                    return Some((j, c, q));
                }
                q += 1;
            }
            assert forall|j2: int, c2: int, q2: int|
                earlier(j2, c2, q2, j as int, c + 1, 0) implies !answers(pages@, j2, c2, q2, t@, by_id) by {
                if j2 == j && c2 == c {
                    if answers(pages@, j2, c2, q2, t@, by_id) {
                        assert(earlier(j2, c2, q2, j as int, c as int, q as int));
                    }
                }
            }
            c += 1;
        }
        assert forall|j2: int, c2: int, q2: int| j2 < j + 1 implies !answers(pages@, j2, c2, q2, t@, by_id) by {
            if j2 == j {
                if answers(pages@, j2, c2, q2, t@, by_id) {
                    assert(earlier(j2, c2, q2, j as int, c as int, 0));
                }
            }
        }
        j += 1;
    }
    assert forall|j2: int, c2: int, q2: int| !answers(pages@, j2, c2, q2, t@, by_id) by {
        if answers(pages@, j2, c2, q2, t@, by_id) {
            assert(j2 < j);
        }
    }
    None
}

/// Resolves a bare token by id, then by title.
fn resolve_any(pages: &Vec<(String, Vec<crate::protocol::BoardColumn>)>, token: &str) -> (r: Result<(String, usize, usize), DispatchError>)
    ensures
        match any_of(pages@, token@) {
            Ok((p, c, q)) => r matches Ok((p2, c2, q2)) && p2@ == p && c2 == c && q2 == q,
            Err(m) => r matches Err(e) && resolve_err(e, m, Seq::empty(), token@),
        },
{
    let t = strip_quotes(token);
    match find_answer(pages, t.as_str(), true) {
        Some((j, c, q)) => {
            proof {
                let (j2, c2, q2) = choose|j2: int, c2: int, q2: int| first_answer(pages@, j2, c2, q2, t@, true);
                lemma_first_unique(pages@, t@, true, j as int, c as int, q as int, j2, c2, q2);
            }
            return Ok((to_owned(pages[j].0.as_str()), c, q));
        },
        None => {},
    }
    match find_answer(pages, t.as_str(), false) {
        Some((j, c, q)) => {
            proof {
                let (j2, c2, q2) = choose|j2: int, c2: int, q2: int| first_answer(pages@, j2, c2, q2, t@, false);
                lemma_first_unique(pages@, t@, false, j as int, c as int, q as int, j2, c2, q2);
            }
            Ok((to_owned(pages[j].0.as_str()), c, q))
        },
        None => Err(DispatchError::NoSuchItem(to_owned(token))),
    }
}

/// The page index and column an address names (`board` then `resolve_col`).
fn resolve_col_of(pages: &Vec<(String, Vec<crate::protocol::BoardColumn>)>, addr: &str) -> (r: Result<(String, usize, usize), DispatchError>)
    ensures
        match col_of(pages@, addr@) {
            Ok(c) => r matches Ok((p, i, c2)) && p@ == addr_page(addr@) && i == pidx(pages@, addr_page(addr@))
                && c2 == c && (i as int) < pages@.len() && (c as int) < pages@[i as int].1@.len(),
            Err(m) => r matches Err(e) && resolve_err(e, m, addr_page(addr@), addr_page(addr@)),
        },
{
    let ad = parse_addr(addr);
    let i = find_page(pages, ad.page.as_str());
    if i >= pages.len() {
        return Err(DispatchError::Act(WireError::NoBoard(ad.page)));
    }
    proof {
        lemma_page_index_range(doc_view(pages@), ad.page@);
    }
    match &ad.col {
        None => Err(DispatchError::NeedColumn),
        Some(ct) => match resolve_col(pages[i].1.as_slice(), ct.as_str()) {
            Ok(c) => {
                proof {
                    lemma_key_pos_range(pages@[i as int].1@, ct@);
                }
                Ok((ad.page, i, c))
            },
            Err(e) => Err(DispatchError::Addr(e)),
        },
    }
}

/// Resolves an item address (`resolve3`).
pub(crate) fn resolve3(pages: &Vec<(String, Vec<crate::protocol::BoardColumn>)>, addr: &str) -> (r: Result<(String, usize, usize), DispatchError>)
    ensures
        match item_addr(pages@, addr@) {
            Ok((p, c, q)) => r matches Ok((p2, c2, q2)) && p2@ == p && c2 == c && q2 == q,
            Err(m) => r matches Err(e) && resolve_err(e, m, addr_page(addr@), addr_page(addr@)),
        },
{
    let ad = parse_addr(addr);
    match &ad.col {
        None => resolve_any(pages, ad.page.as_str()),
        Some(_) => {
            match resolve_col_of(pages, addr) {
                Err(e) => Err(e),
                Ok((page, i, c)) => match &ad.item {
                    None => Err(DispatchError::NeedItem),
                    Some(t) => match resolve_item(&pages[i].1[c], t.as_str()) {
                        Ok(q) => Ok((page, c, q)),
                        Err(e) => Err(DispatchError::Addr(e)),
                    },
                },
            }
        },
    }
}


// ─── running a command ──────────────────────────────────────────────────────

/// Every column has room for a few more items.
pub open spec fn roomy(pages: Pages) -> bool {
    forall|j: int, c: int|
        0 <= j < pages.len() && 0 <= c < pages[j].1@.len() ==> (#[trigger] pages[j].1@[c]).items@.len() < usize::MAX
            - 3
}

/// The verb's own result inside a command's result.
pub open spec fn act_of(r: Result<Reply, DispatchError>) -> Result<(), WireError> {
    match r {
        Ok(_) => Ok(()),
        Err(DispatchError::Act(e)) => Err(e),
        Err(_) => Ok(()),
    }
}

/// A reply that shows the document at `a`.
pub open spec fn shows(x: Reply, a: Option<Seq<char>>) -> bool {
    x matches Reply::Observe(o) && sopt(o) == a
}

/// The verb's result: on success the document at `a` is shown; a failure
/// is the verb's.
pub open spec fn shows_r(r: Result<Reply, DispatchError>, a: Option<Seq<char>>) -> bool {
    match r {
        Ok(x) => shows(x, a),
        Err(e) => e is Act,
    }
}

/// The verb's result: on success item `q` of column `c` on page `p` is
/// shown; a failure is the verb's.
pub open spec fn shows_item_r(r: Result<Reply, DispatchError>, p: Seq<char>, c: int, q: int) -> bool {
    match r {
        Ok(x) => x matches Reply::Item(pp, cc, qq) && pp@ == p && cc == c && qq == q,
        Err(e) => e is Act,
    }
}

/// An address that did not resolve: its error, and nothing changed.
pub open spec fn unresolved(old: Doc, new: Doc, addr: Seq<char>, m: ResolveModel, r: Result<Reply, DispatchError>) -> bool {
    (r matches Err(e) && resolve_err(e, m, addr_page(addr), addr_page(addr))) && new == old
}

/// A single-field verb on the item an address names.
pub open spec fn on_item(old: Doc, new: Doc, addr: Seq<char>, f: FieldModel, r: Result<Reply, DispatchError>) -> bool {
    match item_addr(old.pages@, addr) {
        Err(m) => unresolved(old, new, addr, m, r),
        Ok((p, c, q)) => item_edit_done(old, new, p, c, q, f, act_of(r)) && shows_item_r(r, p, c, q),
    }
}

/// The address of column `c` of page `p`: `"<p>/<c>"`.
pub open spec fn col_addr(p: Seq<char>, c: int) -> Seq<char> {
    p + "/"@ + decimal(c as nat)
}

/// The column-and-item verbs (`sel`, `del`, `delcol`, `setcol`) once the
/// column `c` and the item `q` (0 on the header row `h`) are known.
pub open spec fn on_cell(old: Doc, new: Doc, cmd: CommandModel, p: Seq<char>, c: int, q: int, header: bool, r: Result<Reply, DispatchError>) -> bool {
    match cmd {
        CommandModel::Sel(_) => if header {
            (r matches Ok(x) && shows(x, Some(p))) && new == (Doc {
                active: pidx(old.pages@, p) as usize,
                cursor: crate::nav::Cursor { col: c as usize, row: 0 },
                ..old
            })
        } else if q == usize::MAX {
            r == Err::<Reply, DispatchError>(DispatchError::Addr(AddrError::BadItem)) && new == old
        } else {
            act_sel_done(old, new, p, c as usize, q as usize, act_of(r)) && shows_r(r, Some(p))
        },
        CommandModel::Del(_) => if header {
            act_delcol_done(old, new, p, c as usize, act_of(r)) && shows_r(r, Some(p))
        } else {
            act_del_done(old, new, p, c as usize, q as usize, act_of(r)) && shows_r(r, Some(col_addr(p, c)))
        },
        CommandModel::DelCol(_) => act_delcol_done(old, new, p, c as usize, act_of(r)) && shows_r(r, Some(p)),
        CommandModel::SetCol { addr: _, header: h } => match h {
            None => r == Err::<Reply, DispatchError>(DispatchError::SetColNeedsHeader) && new == old,
            Some(t) => act_setcol_done(old, new, p, c as usize, t, act_of(r)) && shows_r(r, Some(p)),
        },
        _ => false,
    }
}

/// The cell verb of kind 0 to 3: `sel`, `del`, `delcol`, `setcol`.
pub open spec fn cell_cmd(kind: u8, addr: Seq<char>, header: Option<Seq<char>>) -> CommandModel {
    if kind == 0 {
        CommandModel::Sel(addr)
    } else if kind == 1 {
        CommandModel::Del(addr)
    } else if kind == 2 {
        CommandModel::DelCol(addr)
    } else {
        CommandModel::SetCol { addr, header }
    }
}

/// What running a parsed command does.
pub open spec fn executed(old: Doc, new: Doc, cmd: CommandModel, r: Result<Reply, DispatchError>) -> bool {
    match cmd {
        CommandModel::Usage => r matches Ok(Reply::Usage) && new == old,
        CommandModel::Observe(a) => (r matches Ok(x) && shows(x, a)) && new == old,
        CommandModel::Coverage => r matches Ok(Reply::Coverage) && new == old,
        CommandModel::Trace(a) => (r matches Ok(Reply::Trace(t)) && t@ == a) && new == old,
        CommandModel::Page(a) => act_page_done(old, new, addr_page(a), act_of(r)) && shows_r(r, None),
        CommandModel::AddPage { id, title, style } => act_addpage_done(old, new, id, title, style, act_of(r))
            && shows_r(r, None),
        CommandModel::SetStyle { page, style } => act_setstyle_done(old, new, page, style, act_of(r)) && shows_r(
            r,
            Some(page),
        ),
        CommandModel::RenamePage { id, title } => act_renamepage_done(old, new, id, title, act_of(r)) && shows_r(
            r,
            None,
        ),
        CommandModel::DelPage(id) => act_delpage_done(old, new, id, act_of(r)) && shows_r(r, None),
        CommandModel::Undo => {
            let (h, d, ok) = crate::history::undone(old.history@, doc_view(old.pages@));
            &&& new.history@ == h
            &&& doc_view(new.pages@) == d
            &&& new == (Doc { pages: new.pages, history: new.history, dirty: old.dirty || ok, ..old })
            &&& r matches Ok(x) && if ok { shows(x, None) } else { x is NothingToUndo }
        },
        CommandModel::Redo => {
            let (h, d, ok) = crate::history::redone(old.history@, doc_view(old.pages@));
            &&& new.history@ == h
            &&& doc_view(new.pages@) == d
            &&& new == (Doc { pages: new.pages, history: new.history, dirty: old.dirty || ok, ..old })
            &&& r matches Ok(x) && if ok { shows(x, None) } else { x is NothingToRedo }
        },
        CommandModel::AddCol { addr, header } => act_addcol_done(
            old,
            new,
            addr_page(addr),
            header,
            addr_piece(addr, 1),
            act_of(r),
        ) && shows_r(r, Some(addr_page(addr))),
        CommandModel::Work(ts) => (r matches Ok(x) && shows(x, None)) && strs(new.working@) == ts && new == (Doc {
            working: new.working,
            ..old
        }),
        CommandModel::Link { addr, titles } => on_item(old, new, addr, FieldModel::Serves(titles), r),
        CommandModel::SetStatus { addr, status } => on_item(old, new, addr, FieldModel::Status(status), r),
        CommandModel::Note { addr, lines } => on_item(old, new, addr, FieldModel::Note(lines), r),
        CommandModel::Attach { addr, refs } => on_item(old, new, addr, FieldModel::Attachments(refs), r),
        CommandModel::At { addr, locs } => on_item(old, new, addr, FieldModel::At(locs), r),
        CommandModel::Category { addr, value } => on_item(old, new, addr, FieldModel::Category(value), r),
        CommandModel::Comment { addr, value } => on_item(old, new, addr, FieldModel::Comment(value), r),
        CommandModel::Derive { addr, on } => on_item(old, new, addr, FieldModel::Derived(on), r),
        CommandModel::Sha { addr, value } => on_item(old, new, addr, FieldModel::Sha(value), r),
        CommandModel::Id { addr, value } => match item_addr(old.pages@, addr) {
            Err(m) => unresolved(old, new, addr, m, r),
            Ok((p, c, q)) => act_id_done(old, new, p, c, q, value, act_of(r)) && shows_item_r(r, p, c, q),
        },
        CommandModel::Move { addr, delta } => match col_of(old.pages@, addr) {
            Err(m) => unresolved(old, new, addr, m, r),
            Ok(c) => match item_of(old.pages@, addr, c as int, Some(0)) {
                Err(m) => unresolved(old, new, addr, m, r),
                Ok(q) => act_move_done(old, new, addr_page(addr), c, q, delta as isize, act_of(r)) && shows_r(
                    r,
                    Some(col_addr(addr_page(addr), c as int)),
                ),
            },
        },
        CommandModel::Add { addr, text, serves, status } => match col_of(old.pages@, addr) {
            Err(m) => unresolved(old, new, addr, m, r),
            Ok(c) => {
                let p = addr_page(addr);
                &&& act_add_full_done(old, new, p, c, text, serves, status, act_of(r))
                &&& shows_item_r(r, p, c as int, new.pages@[pidx(old.pages@, p)].1@[c as int].items@.len() - 1)
            },
        },
        CommandModel::SetItem { addr, text, serves, status } => match col_of(old.pages@, addr) {
            Err(m) => unresolved(old, new, addr, m, r),
            Ok(c) => if addr_piece(addr, 2) == Some("h"@) {
                act_setcol_done(old, new, addr_page(addr), c, text, act_of(r)) && shows_r(r, Some(addr_page(addr)))
            } else {
                match item_of(old.pages@, addr, c as int, None) {
                    Err(m) => unresolved(old, new, addr, m, r),
                    Ok(q) => act_set_full_done(old, new, addr_page(addr), c, q, text, serves, status, act_of(r))
                        && shows_item_r(r, addr_page(addr), c as int, q as int),
                }
            },
        },
        CommandModel::Sel(addr) | CommandModel::Del(addr) | CommandModel::DelCol(addr) | CommandModel::SetCol {
            addr,
            header: _,
        } => match col_of(old.pages@, addr) {
            Err(m) => unresolved(old, new, addr, m, r),
            Ok(c) => {
                let header = addr_piece(addr, 2) == Some("h"@);
                match (if header { Ok(0usize) } else { item_of(old.pages@, addr, c as int, Some(0)) }) {
                    Err(m) => unresolved(old, new, addr, m, r),
                    Ok(q) => on_cell(old, new, cmd, addr_page(addr), c as int, q as int, header, r),
                }
            },
        },
    }
}

fn observe_at(a: &str) -> (r: Result<Reply, DispatchError>)
    ensures
        r matches Ok(x) && shows(x, Some(a@)),
{
    Ok(Reply::Observe(Some(to_owned(a))))
}

fn lift_observe(r: Result<(), WireError>, a: Option<String>) -> (out: Result<Reply, DispatchError>)
    ensures
        act_of(out) == r,
        shows_r(out, sopt(a)),
{
    match r {
        Ok(u) => {
            assert(r == Ok::<(), WireError>(u));
            Ok(Reply::Observe(a))
        },
        Err(e) => Err(DispatchError::Act(e)),
    }
}

fn lift_item(r: Result<(), WireError>, p: String, c: usize, q: usize) -> (out: Result<Reply, DispatchError>)
    ensures
        act_of(out) == r,
        shows_item_r(out, p@, c as int, q as int),
{
    match r {
        Ok(u) => {
            assert(r == Ok::<(), WireError>(u));
            Ok(Reply::Item(p, c, q))
        },
        Err(e) => Err(DispatchError::Act(e)),
    }
}

/// `"<p>/<c>"`.
fn col_address(p: &str, c: usize) -> (r: String)
    ensures
        r@ == col_addr(p@, c as int),
{
    let mut s = to_owned(p);
    proof {
        reveal_strlit("/");
    }
    crate::text::push_str(&mut s, "/");
    push_decimal(&mut s, c as u64);
    s
}

impl Doc {
    /// Every column has room for a few more items.
    pub fn is_roomy(&self) -> (r: bool)
        ensures
            r == roomy(self.pages@),
    {
        let mut j: usize = 0;
        while j < self.pages.len()
            invariant
                j <= self.pages@.len(),
                forall|jj: int, c: int|
                    0 <= jj < j && 0 <= c < self.pages@[jj].1@.len() ==> (#[trigger] self.pages@[jj].1@[c]).items@.len()
                        < usize::MAX - 3,
            decreases self.pages.len() - j,
        {
            let mut c: usize = 0;
            while c < self.pages[j].1.len()
                invariant
                    j < self.pages@.len(),
                    c <= self.pages@[j as int].1@.len(),
                    forall|jj: int, cc: int|
                        0 <= jj < self.pages@.len() && 0 <= cc < self.pages@[jj].1@.len() && (jj < j || (jj == j
                            && cc < c)) ==> (#[trigger] self.pages@[jj].1@[cc]).items@.len() < usize::MAX - 3,
                decreases self.pages@[j as int].1@.len() - c,
            {
                if self.pages[j].1[c].items.len() >= usize::MAX - 3 {
                    return false;
                }
                c += 1;
            }
            j += 1;
        }
        true
    }
}


impl Doc {
    /// Runs a single-field verb on the item an address names.
    fn run_on_item(&mut self, addr: &str, f: crate::wire::ItemField) -> (r: Result<Reply, DispatchError>)
        requires
            !(f is Id),
        ensures
            on_item(*old(self), *final(self), addr@, f@, r),
    {
        match resolve3(&self.pages, addr) {
            Err(e) => Err(e),
            Ok((page, c, q)) => {
                let res = self.edit_item(page.as_str(), c, q, f);
                lift_item(res, page, c, q)
            },
        }
    }

    /// Runs `sel`, `del`, `delcol` or `setcol` (kinds 0 to 3) on the cell an
    /// address names.
    fn run_on_cell(&mut self, addr: &str, kind: u8, header: Option<String>) -> (r: Result<Reply, DispatchError>)
        requires
            old(self).wf(),
            kind < 4,
        ensures
            final(self).wf(),
            match col_of(old(self).pages@, addr@) {
                Err(m) => unresolved(*old(self), *final(self), addr@, m, r),
                Ok(c) => {
                    let header_row = addr_piece(addr@, 2) == Some("h"@);
                    match (if header_row { Ok(0usize) } else { item_of(old(self).pages@, addr@, c as int, Some(0)) }) {
                        Err(m) => unresolved(*old(self), *final(self), addr@, m, r),
                        Ok(q) => on_cell(
                            *old(self),
                            *final(self),
                            cell_cmd(kind, addr@, sopt(header)),
                            addr_page(addr@),
                            c as int,
                            q as int,
                            header_row,
                            r,
                        ),
                    }
                },
            },
    {
        match resolve_col_of(&self.pages, addr) {
            Err(e) => Err(e),
            Ok((page, i, c)) => {
                let ad = parse_addr(addr);
                proof {
                    reveal_strlit("h");
                }
                let on_header = match &ad.item {
                    Some(t) => str_eq(t.as_str(), "h"),
                    None => false,
                };
                let q = if on_header {
                    0
                } else {
                    match &ad.item {
                        None => 0,
                        Some(t) => match resolve_item(&self.pages[i].1[c], t.as_str()) {
                            Ok(q) => q,
                            Err(e) => {
                                return Err(DispatchError::Addr(e));
                            },
                        },
                    }
                };
                if kind == 0 {
                    if on_header {
                        let _ = self.act_page(page.as_str());
                        self.cursor = crate::nav::Cursor { col: c, row: 0 };
                        Ok(Reply::Observe(Some(page)))
                    } else if q == usize::MAX {
                        Err(DispatchError::Addr(AddrError::BadItem))
                    } else {
                        let res = self.act_sel(page.as_str(), c, q);
                        lift_observe(res, Some(page))
                    }
                } else if kind == 1 {
                    if on_header {
                        let res = self.act_delcol(page.as_str(), c);
                        lift_observe(res, Some(page))
                    } else {
                        let res = self.act_del(page.as_str(), c, q);
                        lift_observe(res, Some(col_address(page.as_str(), c)))
                    }
                } else if kind == 2 {
                    let res = self.act_delcol(page.as_str(), c);
                    lift_observe(res, Some(page))
                } else {
                    match header {
                        None => Err(DispatchError::SetColNeedsHeader),
                        Some(h) => {
                            let res = self.act_setcol(page.as_str(), c, h.as_str());
                            lift_observe(res, Some(page))
                        },
                    }
                }
            },
        }
    }

    /// Page-level and read-only commands.
    fn exec_page(&mut self, cmd: Command) -> (r: Result<Reply, DispatchError>)
        requires
            old(self).wf(),
            cmd is Usage || cmd is Observe || cmd is Coverage || cmd is Trace || cmd is Page || cmd is AddPage
                || cmd is SetStyle || cmd is RenamePage || cmd is DelPage || cmd is Undo || cmd is Redo
                || cmd is AddCol || cmd is Work,
        ensures
            final(self).wf(),
            executed(*old(self), *final(self), cmd@, r),
    {
        match cmd {
            Command::Usage => Ok(Reply::Usage),
            Command::Observe(a) => Ok(Reply::Observe(a)),
            Command::Coverage => Ok(Reply::Coverage),
            Command::Trace(a) => Ok(Reply::Trace(a)),
            Command::Page(a) => {
                let ad = parse_addr(a.as_str());
                let res = self.act_page(ad.page.as_str());
                lift_observe(res, None)
            },
            Command::AddPage { id, title, style } => {
                let res = self.act_addpage(id.as_str(), title.as_str(), style);
                lift_observe(res, None)
            },
            Command::SetStyle { page, style } => {
                let res = self.act_setstyle(page.as_str(), style);
                lift_observe(res, Some(page))
            },
            Command::RenamePage { id, title } => {
                let res = self.act_renamepage(id.as_str(), title.as_str());
                lift_observe(res, None)
            },
            Command::DelPage(id) => {
                let res = self.act_delpage(id.as_str());
                lift_observe(res, None)
            },
            Command::Undo => {
                if self.undo() {
                    Ok(Reply::Observe(None))
                } else {
                    Ok(Reply::NothingToUndo)
                }
            },
            Command::Redo => {
                if self.redo() {
                    Ok(Reply::Observe(None))
                } else {
                    Ok(Reply::NothingToRedo)
                }
            },
            Command::AddCol { addr, header } => {
                let ad = parse_addr(addr.as_str());
                let key = match &ad.col {
                    Some(k) => Some(k.as_str()),
                    None => None,
                };
                let res = self.act_addcol(ad.page.as_str(), header.as_str(), key);
                lift_observe(res, Some(to_owned(ad.page.as_str())))
            },
            Command::Work(ts) => {
                self.set_working(ts);
                Ok(Reply::Observe(None))
            },
            _ => Ok(Reply::Usage),
        }
    }

    /// Single-field verbs on an item.
    fn exec_item(&mut self, cmd: Command) -> (r: Result<Reply, DispatchError>)
        requires
            old(self).wf(),
            cmd is Link || cmd is SetStatus || cmd is Note || cmd is Attach || cmd is At || cmd is Category
                || cmd is Comment || cmd is Derive || cmd is Sha || cmd is Id,
        ensures
            final(self).wf(),
            executed(*old(self), *final(self), cmd@, r),
    {
        match cmd {
            Command::Link { addr, titles } => self.run_on_item(addr.as_str(), crate::wire::ItemField::Serves(titles)),
            Command::SetStatus { addr, status } => self.run_on_item(
                addr.as_str(),
                crate::wire::ItemField::Status(status),
            ),
            Command::Note { addr, lines } => self.run_on_item(addr.as_str(), crate::wire::ItemField::Note(lines)),
            Command::Attach { addr, refs } => self.run_on_item(
                addr.as_str(),
                crate::wire::ItemField::Attachments(refs),
            ),
            Command::At { addr, locs } => self.run_on_item(addr.as_str(), crate::wire::ItemField::At(locs)),
            Command::Category { addr, value } => self.run_on_item(
                addr.as_str(),
                crate::wire::ItemField::Category(value),
            ),
            Command::Comment { addr, value } => self.run_on_item(
                addr.as_str(),
                crate::wire::ItemField::Comment(value),
            ),
            Command::Derive { addr, on } => self.run_on_item(addr.as_str(), crate::wire::ItemField::Derived(on)),
            Command::Sha { addr, value } => self.run_on_item(addr.as_str(), crate::wire::ItemField::Sha(value)),
            Command::Id { addr, value } => match resolve3(&self.pages, addr.as_str()) {
                Err(e) => Err(e),
                Ok((page, c, q)) => {
                    let res = self.act_id(page.as_str(), c, q, value);
                    lift_item(res, page, c, q)
                },
            },
            _ => Ok(Reply::Usage),
        }
    }

    /// `mv`: reorders the item an address names.
    fn exec_move(&mut self, addr: String, delta: isize) -> (r: Result<Reply, DispatchError>)
        requires
            old(self).wf(),
        ensures
            final(self).wf(),
            executed(*old(self), *final(self), CommandModel::Move { addr: addr@, delta: delta as int }, r),
    {
        match resolve_col_of(&self.pages, addr.as_str()) {
            Err(e) => Err(e),
            Ok((page, i, c)) => {
                let ad = parse_addr(addr.as_str());
                let q = match &ad.item {
                    None => 0,
                    Some(t) => match resolve_item(&self.pages[i].1[c], t.as_str()) {
                        Ok(q) => q,
                        Err(e) => {
                            return Err(DispatchError::Addr(e));
                        },
                    },
                };
                let res = self.act_move(page.as_str(), c, q, delta);
                lift_observe(res, Some(col_address(page.as_str(), c)))
            },
        }
    }

    /// `add`: appends an item to the column an address names.
    fn exec_add(&mut self, addr: String, text: String, serves: Vec<String>, status: Option<Status>) -> (r: Result<Reply, DispatchError>)
        requires
            old(self).wf(),
            roomy(old(self).pages@),
        ensures
            final(self).wf(),
            executed(
                *old(self),
                *final(self),
                CommandModel::Add { addr: addr@, text: text@, serves: svec(serves@), status },
                r,
            ),
    {
        match resolve_col_of(&self.pages, addr.as_str()) {
            Err(e) => Err(e),
            Ok((page, i, c)) => {
                let res = self.act_add_full(page.as_str(), c, text, serves, status);
                match res {
                    Ok(u) => {
                        let n = self.pages[i].1[c].items.len();
                        lift_item(Ok(u), page, c, n - 1)
                    },
                    Err(e) => Err(DispatchError::Act(e)),
                }
            },
        }
    }

    /// `set`: replaces the text (and links, status) of the item an address
    /// names, or renames the header on row `h`.
    fn exec_set(
        &mut self,
        addr: String,
        text: String,
        serves: Option<Vec<String>>,
        status: Option<Option<Status>>,
    ) -> (r: Result<Reply, DispatchError>)
        requires
            old(self).wf(),
        ensures
            final(self).wf(),
            executed(
                *old(self),
                *final(self),
                CommandModel::SetItem { addr: addr@, text: text@, serves: crate::wire::opt_strs(serves), status },
                r,
            ),
    {
        match resolve_col_of(&self.pages, addr.as_str()) {
            Err(e) => Err(e),
            Ok((page, i, c)) => {
                let ad = parse_addr(addr.as_str());
                proof {
                    reveal_strlit("h");
                }
                let on_header = match &ad.item {
                    Some(t) => str_eq(t.as_str(), "h"),
                    None => false,
                };
                if on_header {
                    let res = self.act_setcol(page.as_str(), c, text.as_str());
                    lift_observe(res, Some(page))
                } else {
                    match &ad.item {
                        None => Err(DispatchError::NeedItem),
                        Some(t) => match resolve_item(&self.pages[i].1[c], t.as_str()) {
                            Err(e) => Err(DispatchError::Addr(e)),
                            Ok(q) => {
                                let res = self.act_set_full(page.as_str(), c, q, text, serves, status);
                                lift_item(res, page, c, q)
                            },
                        },
                    }
                }
            },
        }
    }

    /// Runs a parsed command.
    pub fn execute(&mut self, cmd: Command) -> (r: Result<Reply, DispatchError>)
        requires
            old(self).wf(),
            roomy(old(self).pages@),
        ensures
            final(self).wf(),
            executed(*old(self), *final(self), cmd@, r),
    {
        match cmd {
            Command::Move { addr, delta } => self.exec_move(addr, delta),
            Command::Add { addr, text, serves, status } => self.exec_add(addr, text, serves, status),
            Command::SetItem { addr, text, serves, status } => self.exec_set(addr, text, serves, status),
            Command::Sel(addr) => self.run_on_cell(addr.as_str(), 0, None),
            Command::Del(addr) => self.run_on_cell(addr.as_str(), 1, None),
            Command::DelCol(addr) => self.run_on_cell(addr.as_str(), 2, None),
            Command::SetCol { addr, header } => self.run_on_cell(addr.as_str(), 3, header),
            Command::Link { .. } | Command::SetStatus { .. } | Command::Note { .. } | Command::Attach { .. }
            | Command::At { .. } | Command::Category { .. } | Command::Comment { .. } | Command::Derive { .. }
            | Command::Sha { .. } | Command::Id { .. } => self.exec_item(cmd),
            _ => self.exec_page(cmd),
        }
    }
}

/// What running a command line does: the line parsed, the
/// command run, and the worked intents that the command finished retired.
pub open spec fn dispatched(old: Doc, new: Doc, line: Seq<char>, r: Result<Reply, DispatchError>) -> bool {
    exists|mid: Doc|
        {
            &&& match spec_command(line) {
                Err(e) => (r matches Err(DispatchError::Parse(x)) && x@ == e) && mid == old,
                Ok(c) => executed(old, mid, c, r),
            }
            &&& strs(new.working@) == retired(strs(mid.working@), cov_of(old.pages@), cov_of(mid.pages@))
            &&& new == (Doc { working: new.working, ..mid })
        }
}

impl Doc {
    /// Runs one agent command line: a worked intent that the
    /// command finishes, whatever the verb, stops being worked on.
    pub fn dispatch(&mut self, line: &str) -> (r: Result<Reply, DispatchError>)
        requires
            old(self).wf(),
            roomy(old(self).pages@),
        ensures
            final(self).wf(),
            dispatched(*old(self), *final(self), line@, r),
    {
        let before = coverage(&self.pages);
        let r = match parse_command(line) {
            Err(e) => Err(DispatchError::Parse(e)),
            Ok(cmd) => self.execute(cmd),
        };
        let ghost mid = *self;
        let after = coverage(&self.pages);
        self.working = retire(&self.working, &before, &after);
        assert(*self == (Doc { working: self.working, ..mid }));
        r
    }
}

} // verus!
