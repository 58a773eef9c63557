//! What the agent reads back: the document as terse text at the
//! depth an address picks — every page, a page's columns, a column's items,
//! or one item in full.
use vstd::prelude::*;

use crate::agent::{
    addr_piece, item_suffix, join, parse_addr, push_joined, resolve_col, resolve_item, spec_item_suffix,
    spec_resolve_col, spec_resolve_item, AddrError,
};
use crate::conf::split_on;
use crate::display::{rel_age, spec_rel_age, spec_trunc_plain, trunc_plain};
use crate::graph::strs;
use crate::history::{doc_view, find_page, lemma_page_index_range};
use crate::ident::{decimal, push_decimal, push_decimal_wide};
use crate::audit::{coverage, covs_view, pages_view, spec_coverage, CoverageModel, IntentCoverage};
use crate::audit_report::{audit, audit_holds, page_items, Audit};
use crate::protocol::{sopt, spec_status_word, spec_style_word, status_word, style_word, svec, BoardColumn, Item, ItemModel};
use crate::runs::{lemma_lex_total, lemma_lex_trans, lex_less, lex_lt};
use crate::text::{push_str, str_eq, to_owned};
use crate::wire::{has_page, pidx, Doc, Pages};

verus! {

/// The first line of the all-pages digest.
pub const DIGEST_HEAD: &'static str = "# arte-tui — run `usage` for the protocol; map before you edit";

/// Lines joined by line breaks.
pub open spec fn lines(v: Seq<Seq<char>>) -> Seq<char> {
    join(v, "\n"@)
}

// ─── sorting with repeats ───────────────────────────────────────────────────

/// In order, repeats allowed.
pub open spec fn sorted_le(s: Seq<Seq<char>>) -> bool {
    forall|i: int, j: int| 0 <= i < j < s.len() ==> !lex_lt(#[trigger] s[j], #[trigger] s[i])
}

/// The strings of `v` in order, repeats kept.
fn sorted_copy(v: &Vec<String>) -> (r: Vec<String>)
    ensures
        sorted_le(strs(r@)),
        strs(r@).to_multiset() == strs(v@).to_multiset(),
{
    broadcast use vstd::seq_lib::group_to_multiset_ensures;

    let mut out: Vec<String> = Vec::new();
    let mut i: usize = 0;
    while i < v.len()
        invariant
            i <= v@.len(),
            sorted_le(strs(out@)),
            strs(out@).to_multiset() == strs(v@).take(i as int).to_multiset(),
        decreases v.len() - i,
    {
        let x = to_owned(v[i].as_str());
        let ghost before = strs(out@);
        let mut k: usize = 0;
        while k < out.len() && !lex_less(&x, &out[k])
            invariant
                k <= out@.len(),
                before == strs(out@),
                forall|j: int| 0 <= j < k ==> !lex_lt(x@, #[trigger] before[j]),
            decreases out.len() - k,
        {
            k += 1;
        }
        let ghost xv = x@;
        out.insert(k, x);
        proof {
            let after = strs(out@);
            assert(after =~= before.insert(k as int, xv));
            assert forall|a: int, b: int| 0 <= a < b < after.len() implies !lex_lt(
                #[trigger] after[b],
                #[trigger] after[a],
            ) by {
                if a == k {
                    // x before the later ones: they are at or past the first greater one
                    assert(after[b] == before[b - 1]);
                    if b - 1 > k {
                        assert(lex_lt(xv, before[k as int]));
                        lemma_lex_total(before[k as int], before[b - 1]);
                        if lex_lt(before[b - 1], xv) {
                            lemma_lex_trans(before[b - 1], xv, before[k as int]);
                        }
                    }
                    lemma_lex_total(xv, before[b - 1]);
                    if lex_lt(before[b - 1], xv) {
                        if b - 1 == k {
                        } else {
                            lemma_lex_trans(before[b - 1], xv, before[k as int]);
                            assert(lex_lt(before[b - 1], before[k as int]));
                        }
                    }
                } else if b == k {
                    assert(after[a] == before[a]);
                } else if a < k && b > k {
                    assert(after[a] == before[a]);
                    assert(after[b] == before[b - 1]);
                } else if b < k {
                } else {
                    assert(after[a] == before[a - 1]);
                    assert(after[b] == before[b - 1]);
                }
            }
            assert(strs(v@).take(i + 1) =~= strs(v@).take(i as int).push(xv));
            vstd::seq_lib::to_multiset_insert(before, k as int, xv);
            vstd::seq_lib::to_multiset_build(strs(v@).take(i as int), xv);
        }
        i += 1;
    }
    assert(strs(v@).take(i as int) =~= strs(v@));
    out
}

// ─── every page ─────────────────────────────────────────────────────────────

/// The item count of a board.
pub open spec fn item_total(cols: Seq<BoardColumn>) -> nat
    decreases cols.len(),
{
    if cols.len() == 0 {
        0
    } else {
        item_total(cols.drop_last()) + cols.last().items@.len()
    }
}

/// Page `i`'s line of the all-pages digest: `*` on the active page, its id,
/// style, column and item counts, and on the active page the selection
/// (`h` for a header).
pub open spec fn page_line(doc: Doc, i: int) -> Seq<char> {
    let cols = doc.pages@[i].1@;
    let active = i == doc.active;
    (if active { "*"@ } else { " "@ }) + doc.pages@[i].0@ + " board["@ + spec_style_word(doc.meta@[i].style) + "] "@
        + decimal(cols.len()) + "c "@ + decimal(item_total(cols)) + "i"@ + if active {
        " sel="@ + decimal(doc.cursor.col as nat) + "/"@ + if doc.cursor.row == 0 {
            "h"@
        } else {
            decimal((doc.cursor.row - 1) as nat)
        }
    } else {
        Seq::empty()
    }
}

/// The all-pages digest: the pointer to the manual, a line per page, and
/// the worked intents in order when there are any.
pub open spec fn all_pages_ok(doc: Doc, out: Seq<char>) -> bool {
    exists|ws: Seq<Seq<char>>|
        sorted_le(ws) && ws.to_multiset() == strs(doc.working@).to_multiset() && out == lines(
            seq![DIGEST_HEAD@] + Seq::new(doc.pages@.len(), |i: int| page_line(doc, i)) + if ws.len() == 0 {
                Seq::<Seq<char>>::empty()
            } else {
                seq!["~work "@ + join(ws, ", "@)]
            },
        )
}

fn board_items(cols: &Vec<BoardColumn>) -> (r: u128)
    ensures
        r as nat == item_total(cols@),
{
    let mut total: u128 = 0;
    let mut c: usize = 0;
    while c < cols.len()
        invariant
            c <= cols@.len(),
            total as nat == item_total(cols@.take(c as int)),
            total <= c * (usize::MAX as nat),
        decreases cols.len() - c,
    {
        assert(cols@.take(c + 1).drop_last() =~= cols@.take(c as int));
        let n = cols[c].items.len();
        assert(total + n <= (c + 1) * (usize::MAX as nat)) by (nonlinear_arith)
            requires
                total <= c * (usize::MAX as nat),
                n <= usize::MAX,
        ;
        assert((c + 1) * (usize::MAX as nat) <= (usize::MAX as nat) * (usize::MAX as nat)) by (nonlinear_arith)
            requires
                c < usize::MAX,
        ;
        assert((usize::MAX as nat) * (usize::MAX as nat) < u128::MAX) by (nonlinear_arith)
            requires
                usize::MAX <= u64::MAX,
        ;
        total = total + n as u128;
        c += 1;
    }
    assert(cols@.take(c as int) =~= cols@);
    total
}

fn page_line_of(doc: &Doc, i: usize) -> (r: String)
    requires
        doc.wf(),
        i < doc.pages@.len(),
    ensures
        r@ == page_line(*doc, i as int),
{
    proof {
        reveal_strlit("*");
        reveal_strlit(" ");
        reveal_strlit(" board[");
        reveal_strlit("] ");
        reveal_strlit("c ");
        reveal_strlit("i");
        reveal_strlit(" sel=");
        reveal_strlit("/");
        reveal_strlit("h");
    }
    let active = i == doc.active;
    let mut s = to_owned(if active { "*" } else { " " });
    push_str(&mut s, doc.pages[i].0.as_str());
    push_str(&mut s, " board[");
    push_str(&mut s, style_word(doc.meta[i].style));
    push_str(&mut s, "] ");
    push_decimal(&mut s, doc.pages[i].1.len() as u64);
    push_str(&mut s, "c ");
    push_decimal_wide(&mut s, board_items(&doc.pages[i].1));
    push_str(&mut s, "i");
    if active {
        push_str(&mut s, " sel=");
        push_decimal(&mut s, doc.cursor.col as u64);
        push_str(&mut s, "/");
        if doc.cursor.row == 0 {
            push_str(&mut s, "h");
        } else {
            push_decimal(&mut s, (doc.cursor.row - 1) as u64);
        }
    }
    s
}

/// Every page in one line each.
pub fn digest_all(doc: &Doc) -> (r: String)
    requires
        doc.wf(),
    ensures
        all_pages_ok(*doc, r@),
{
    let mut ls: Vec<String> = Vec::new();
    ls.push(to_owned(DIGEST_HEAD));
    let mut i: usize = 0;
    while i < doc.pages.len()
        invariant
            doc.wf(),
            i <= doc.pages@.len(),
            strs(ls@) == seq![DIGEST_HEAD@] + Seq::new(i as nat, |k: int| page_line(*doc, k)),
        decreases doc.pages.len() - i,
    {
        let l = page_line_of(doc, i);
        let ghost before = strs(ls@);
        let ghost lv = l@;
        ls.push(l);
        assert(strs(ls@) =~= before.push(lv));
        assert(strs(ls@) =~= seq![DIGEST_HEAD@] + Seq::new((i + 1) as nat, |k: int| page_line(*doc, k)));
        i += 1;
    }
    let ghost body = strs(ls@);
    let ws = sorted_copy(&doc.working);
    if ws.len() > 0 {
        let mut w = to_owned("~work ");
        proof {
            reveal_strlit(", ");
        }
        push_joined(&mut w, &ws, ", ");
        ls.push(w);
    }
    let mut out = String::new();
    proof {
        reveal_strlit("\n");
    }
    push_joined(&mut out, &ls, "\n");
    proof {
        assert(svec(ls@) =~= strs(ls@));
        assert(strs(ws@) =~= svec(ws@));
        let tail = if strs(ws@).len() == 0 {
            Seq::<Seq<char>>::empty()
        } else {
            seq!["~work "@ + join(strs(ws@), ", "@)]
        };
        assert(strs(ls@) =~= body + tail);
        assert(out@ =~= Seq::<char>::empty() + lines(strs(ls@)));
    }
    out
}


// ─── a page, a column, an item ──────────────────────────────────────────────

proof fn lemma_resolved_col_range(cols: Seq<BoardColumn>, tok: Seq<char>)
    ensures
        spec_resolve_col(cols, tok) matches Ok(c) ==> (c as int) < cols.len(),
{
    lemma_key_range(cols, tok);
}

proof fn lemma_key_range(cols: Seq<BoardColumn>, tok: Seq<char>)
    ensures
        crate::agent::key_pos_col(cols, tok) matches Some(j) ==> 0 <= j < cols.len(),
    decreases cols.len(),
{
    if cols.len() > 0 {
        lemma_key_range(cols.drop_first(), tok);
    }
}

/// A column's handle: its key, else its index.
pub open spec fn col_handle(c: BoardColumn, i: int) -> Seq<char> {
    match sopt(c.key) {
        Some(k) => k,
        None => decimal(i as nat),
    }
}

/// A column's line in a page digest: handle, header cut to 28, item count.
pub open spec fn col_line(c: BoardColumn, i: int) -> Seq<char> {
    "  "@ + col_handle(c, i) + " "@ + spec_trunc_plain(c.header@, 28) + " ("@ + decimal(c.items@.len()) + ")"@
}

/// A page's columns.
pub open spec fn page_digest(doc: Doc, page: Seq<char>) -> Seq<char> {
    if !has_page(doc.pages@, page) {
        "? no page "@ + page
    } else {
        let i = pidx(doc.pages@, page);
        let cols = doc.pages@[i].1@;
        lines(
            seq![page + " board["@ + spec_style_word(doc.meta@[i].style) + "]"@] + Seq::new(
                cols.len(),
                |c: int| col_line(cols[c], c),
            ),
        )
    }
}

/// An item's line in a column digest: index, text, suffix.
pub open spec fn item_line(it: ItemModel, i: int) -> Seq<char> {
    "  "@ + decimal(i as nat) + "  "@ + it.text + spec_item_suffix(it)
}

/// A column's items, the header first as row `h`.
pub open spec fn col_digest(doc: Doc, page: Seq<char>, ctok: Seq<char>) -> Seq<char> {
    if !has_page(doc.pages@, page) {
        "? no page "@ + page
    } else {
        let cols = doc.pages@[pidx(doc.pages@, page)].1@;
        match spec_resolve_col(cols, ctok) {
            Err(_) => "? no "@ + page + "/"@ + ctok,
            Ok(c) => {
                let col = cols[c as int];
                lines(
                    seq![page + "/"@ + col_handle(col, c as int), "  h  "@ + col.header@] + Seq::new(
                        col.items@.len(),
                        |i: int| item_line(col.items@[i]@, i),
                    ),
                )
            },
        }
    }
}

/// Each value on a line of its own after `pre`.
pub open spec fn each_line(v: Seq<Seq<char>>, pre: Seq<char>) -> Seq<char>
    decreases v.len(),
{
    if v.len() == 0 {
        Seq::empty()
    } else {
        each_line(v.drop_last(), pre) + "\n"@ + pre + v.last()
    }
}

/// One item in full: its address and line, then its age, notes,
/// attachments and locators.
pub open spec fn item_text(addr: Seq<char>, it: ItemModel, now: nat, date: Seq<char>) -> Seq<char> {
    addr + " "@ + it.text + spec_item_suffix(it) + match it.modified {
        Some(t) => "\n  modified: "@ + spec_rel_age(now, t as nat, date),
        None => Seq::empty(),
    } + each_line(it.note, "  note: "@) + each_line(it.attachments, "  @ "@) + each_line(it.at, "  at "@)
}

/// The item an address shows in full, if there is one.
pub open spec fn shown_item(doc: Doc, page: Seq<char>, ctok: Seq<char>, itok: Seq<char>) -> Option<ItemModel> {
    if !has_page(doc.pages@, page) {
        None
    } else {
        let cols = doc.pages@[pidx(doc.pages@, page)].1@;
        match spec_resolve_col(cols, ctok) {
            Err(_) => None,
            Ok(c) => if itok == "h"@ {
                None
            } else {
                match spec_resolve_item(cols[c as int].items@.len(), itok) {
                    Ok(q) => if (q as int) < cols[c as int].items@.len() {
                        Some(cols[c as int].items@[q as int]@)
                    } else {
                        None
                    },
                    Err(_) => None,
                }
            },
        }
    }
}

/// One item in full, or a header cell; `date` is the date of
/// the item's modified time, shown when that is over a week old.
pub open spec fn item_digest(doc: Doc, page: Seq<char>, ctok: Seq<char>, itok: Seq<char>, now: nat, date: Seq<char>) -> Seq<char> {
    if !has_page(doc.pages@, page) {
        "? no page "@ + page
    } else {
        let cols = doc.pages@[pidx(doc.pages@, page)].1@;
        match spec_resolve_col(cols, ctok) {
            Err(_) => "? no "@ + page + "/"@ + ctok,
            Ok(c) => if itok == "h"@ {
                page + "/"@ + ctok + "/h "@ + cols[c as int].header@
            } else {
                match shown_item(doc, page, ctok, itok) {
                    Some(it) => item_text(page + "/"@ + ctok + "/"@ + itok, it, now, date),
                    None => "? no "@ + page + "/"@ + ctok + "/"@ + itok,
                }
            },
        }
    }
}

/// Finds a page's index; the page count when there is none.
fn page_of(doc: &Doc, page: &str) -> (r: usize)
    ensures
        r as int == pidx(doc.pages@, page@),
        r <= doc.pages@.len(),
{
    proof {
        lemma_page_index_range(doc_view(doc.pages@), page@);
    }
    find_page(&doc.pages, page)
}

fn no_page(page: &str) -> (r: String)
    ensures
        r@ == "? no page "@ + page@,
{
    proof {
        reveal_strlit("? no page ");
    }
    let mut s = to_owned("? no page ");
    push_str(&mut s, page);
    s
}

fn no_addr(page: &str, ctok: &str, itok: Option<&str>) -> (r: String)
    ensures
        r@ == "? no "@ + page@ + "/"@ + ctok@ + match itok {
            Some(i) => "/"@ + i@,
            None => Seq::empty(),
        },
{
    proof {
        reveal_strlit("? no ");
        reveal_strlit("/");
    }
    let mut s = to_owned("? no ");
    push_str(&mut s, page);
    push_str(&mut s, "/");
    push_str(&mut s, ctok);
    match itok {
        Some(i) => {
            push_str(&mut s, "/");
            push_str(&mut s, i);
        },
        None => {},
    }
    s
}

fn handle_of(c: &BoardColumn, i: usize) -> (r: String)
    ensures
        r@ == col_handle(*c, i as int),
{
    match &c.key {
        Some(k) => to_owned(k.as_str()),
        None => {
            let mut s = String::new();
            push_decimal(&mut s, i as u64);
            s
        },
    }
}

/// A page's columns.
pub fn digest_page(doc: &Doc, page: &str) -> (r: String)
    requires
        doc.wf(),
    ensures
        r@ == page_digest(*doc, page@),
{
    let i = page_of(doc, page);
    if i >= doc.pages.len() {
        return no_page(page);
    }
    proof {
        reveal_strlit(" board[");
        reveal_strlit("]");
        reveal_strlit("  ");
        reveal_strlit(" ");
        reveal_strlit(" (");
        reveal_strlit(")");
        reveal_strlit("\n");
    }
    let cols = &doc.pages[i].1;
    let mut ls: Vec<String> = Vec::new();
    let mut head = to_owned(page);
    push_str(&mut head, " board[");
    push_str(&mut head, style_word(doc.meta[i].style));
    push_str(&mut head, "]");
    ls.push(head);
    let mut c: usize = 0;
    while c < cols.len()
        invariant
            doc.wf(),
            i < doc.pages@.len(),
            cols == doc.pages@[i as int].1,
            c <= cols@.len(),
            strs(ls@) == seq![page@ + " board["@ + spec_style_word(doc.meta@[i as int].style) + "]"@] + Seq::new(
                c as nat,
                |k: int| col_line(cols@[k], k),
            ),
        decreases cols.len() - c,
    {
        let mut l = to_owned("  ");
        push_str(&mut l, handle_of(&cols[c], c).as_str());
        push_str(&mut l, " ");
        push_str(&mut l, trunc_plain(cols[c].header.as_str(), 28).as_str());
        push_str(&mut l, " (");
        push_decimal(&mut l, cols[c].items.len() as u64);
        push_str(&mut l, ")");
        let ghost before = strs(ls@);
        let ghost lv = l@;
        ls.push(l);
        assert(strs(ls@) =~= before.push(lv));
        assert(strs(ls@) =~= seq![page@ + " board["@ + spec_style_word(doc.meta@[i as int].style) + "]"@]
            + Seq::new((c + 1) as nat, |k: int| col_line(cols@[k], k)));
        c += 1;
    }
    let mut out = String::new();
    push_joined(&mut out, &ls, "\n");
    assert(svec(ls@) =~= strs(ls@));
    assert(out@ =~= Seq::<char>::empty() + lines(strs(ls@)));
    out
}

/// A column's items.
pub fn digest_col(doc: &Doc, page: &str, ctok: &str) -> (r: String)
    ensures
        r@ == col_digest(*doc, page@, ctok@),
{
    let i = page_of(doc, page);
    if i >= doc.pages.len() {
        return no_page(page);
    }
    let cols = &doc.pages[i].1;
    let c = match resolve_col(cols.as_slice(), ctok) {
        Ok(c) => c,
        Err(_) => {
            return no_addr(page, ctok, None);
        },
    };
    proof {
        lemma_resolved_col_range(cols@, ctok@);
        reveal_strlit("/");
        reveal_strlit("  h  ");
        reveal_strlit("  ");
        reveal_strlit("\n");
    }
    let col = &cols[c];
    let mut ls: Vec<String> = Vec::new();
    let mut head = to_owned(page);
    push_str(&mut head, "/");
    push_str(&mut head, handle_of(col, c).as_str());
    ls.push(head);
    let mut h = to_owned("  h  ");
    push_str(&mut h, col.header.as_str());
    ls.push(h);
    let ghost top = strs(ls@);
    let mut k: usize = 0;
    while k < col.items.len()
        invariant
            k <= col.items@.len(),
            top.len() == 2,
            strs(ls@) == top + Seq::new(k as nat, |q: int| item_line(col.items@[q]@, q)),
        decreases col.items.len() - k,
    {
        let mut l = to_owned("  ");
        push_decimal(&mut l, k as u64);
        push_str(&mut l, "  ");
        push_str(&mut l, col.items[k].text.as_str());
        push_str(&mut l, item_suffix(&col.items[k]).as_str());
        let ghost before = strs(ls@);
        let ghost lv = l@;
        ls.push(l);
        assert(strs(ls@) =~= before.push(lv));
        assert(strs(ls@) =~= top + Seq::new((k + 1) as nat, |q: int| item_line(col.items@[q]@, q)));
        k += 1;
    }
    let mut out = String::new();
    push_joined(&mut out, &ls, "\n");
    assert(svec(ls@) =~= strs(ls@));
    assert(top =~= seq![page@ + "/"@ + col_handle(*col, c as int), "  h  "@ + col.header@]);
    assert(out@ =~= Seq::<char>::empty() + lines(strs(ls@)));
    out
}

fn push_each(s: &mut String, v: &Vec<String>, pre: &str)
    ensures
        final(s)@ == old(s)@ + each_line(svec(v@), pre@),
{
    proof {
        reveal_strlit("\n");
    }
    let mut i: usize = 0;
    while i < v.len()
        invariant
            i <= v@.len(),
            s@ == old(s)@ + each_line(svec(v@).take(i as int), pre@),
        decreases v.len() - i,
    {
        assert(svec(v@).take(i + 1).drop_last() =~= svec(v@).take(i as int));
        push_str(s, "\n");
        push_str(s, pre);
        push_str(s, v[i].as_str());
        i += 1;
    }
    assert(svec(v@).take(i as int) =~= svec(v@));
}

/// One item in full, or a header cell.
pub fn digest_item(doc: &Doc, page: &str, ctok: &str, itok: &str, now: u64, date: &str) -> (r: String)
    ensures
        r@ == item_digest(*doc, page@, ctok@, itok@, now as nat, date@),
{
    let i = page_of(doc, page);
    if i >= doc.pages.len() {
        return no_page(page);
    }
    let cols = &doc.pages[i].1;
    let c = match resolve_col(cols.as_slice(), ctok) {
        Ok(c) => c,
        Err(_) => {
            return no_addr(page, ctok, None);
        },
    };
    proof {
        lemma_resolved_col_range(cols@, ctok@);
        reveal_strlit("h");
        reveal_strlit("/");
        reveal_strlit("/h ");
        reveal_strlit(" ");
        reveal_strlit("\n  modified: ");
        reveal_strlit("  note: ");
        reveal_strlit("  @ ");
        reveal_strlit("  at ");
    }
    if str_eq(itok, "h") {
        let mut s = to_owned(page);
        push_str(&mut s, "/");
        push_str(&mut s, ctok);
        push_str(&mut s, "/h ");
        push_str(&mut s, cols[c].header.as_str());
        return s;
    }
    let col = &cols[c];
    let q = match resolve_item(col, itok) {
        Ok(q) => q,
        Err(_) => col.items.len(),
    };
    if q >= col.items.len() {
        return no_addr(page, ctok, Some(itok));
    }
    let it = &col.items[q];
    let mut s = to_owned(page);
    push_str(&mut s, "/");
    push_str(&mut s, ctok);
    push_str(&mut s, "/");
    push_str(&mut s, itok);
    push_str(&mut s, " ");
    push_str(&mut s, it.text.as_str());
    push_str(&mut s, item_suffix(it).as_str());
    match it.modified {
        Some(t) => {
            push_str(&mut s, "\n  modified: ");
            push_str(&mut s, rel_age(now, t, date).as_str());
        },
        None => {},
    }
    push_each(&mut s, &it.note, "  note: ");
    push_each(&mut s, &it.attachments, "  @ ");
    push_each(&mut s, &it.at, "  at ");
    s
}

/// The modified time of the item an address shows in full, if any: the
/// date of it is what `observe` needs past a week.
pub fn shown_modified(doc: &Doc, addr: &str) -> (r: Option<u64>)
    ensures
        r == (match (addr_piece(addr@, 1), addr_piece(addr@, 2)) {
            (Some(c), Some(i)) => match shown_item(*doc, split_on(addr@, '/')[0], c, i) {
                Some(it) => it.modified,
                None => None,
            },
            _ => None,
        }),
{
    let ad = parse_addr(addr);
    match (&ad.col, &ad.item) {
        (Some(ct), Some(itok)) => {
            let i = page_of(doc, ad.page.as_str());
            if i >= doc.pages.len() {
                return None;
            }
            let cols = &doc.pages[i].1;
            let c = match resolve_col(cols.as_slice(), ct.as_str()) {
                Ok(c) => c,
                Err(_) => {
                    return None;
                },
            };
            proof {
                lemma_resolved_col_range(cols@, ct@);
                reveal_strlit("h");
            }
            if str_eq(itok.as_str(), "h") {
                return None;
            }
            match resolve_item(&cols[c], itok.as_str()) {
                Ok(q) => if q < cols[c].items.len() {
                    cols[c].items[q].modified
                } else {
                    None
                },
                Err(_) => None,
            }
        },
        _ => None,
    }
}

/// The document at the depth an address picks: every page, a
/// page's columns, a column's items, or one item; `date` is the date of the
/// shown item's modified time.
pub fn observe(doc: &Doc, addr: Option<&str>, now: u64, date: &str) -> (r: String)
    requires
        doc.wf(),
    ensures
        match addr {
            None => all_pages_ok(*doc, r@),
            Some(a) => {
                let page = split_on(a@, '/')[0];
                r@ == match (addr_piece(a@, 1), addr_piece(a@, 2)) {
                    (None, _) => page_digest(*doc, page),
                    (Some(c), None) => col_digest(*doc, page, c),
                    (Some(c), Some(i)) => item_digest(*doc, page, c, i, now as nat, date@),
                }
            },
        },
{
    match addr {
        None => digest_all(doc),
        Some(a) => {
            let ad = parse_addr(a);
            match (&ad.col, &ad.item) {
                (None, _) => digest_page(doc, ad.page.as_str()),
                (Some(c), None) => digest_col(doc, ad.page.as_str(), c.as_str()),
                (Some(c), Some(i)) => digest_item(doc, ad.page.as_str(), c.as_str(), i.as_str(), now, date),
            }
        },
    }
}


// ─── coverage ───────────────────────────────────────────────────────────────

/// An intent's layer cells: `<layer>✓` or `<layer>✗`, space-separated.
pub open spec fn layer_cells(c: CoverageModel) -> Seq<char> {
    join(c.layers.map_values(|l: (Seq<char>, bool)| l.0 + if l.1 { "✓"@ } else { "✗"@ }), " "@)
}

/// An intent's line of the coverage digest.
pub open spec fn cov_line(c: CoverageModel) -> Seq<char> {
    "  "@ + spec_trunc_plain(c.title, 28) + " — "@ + layer_cells(c) + match c.status {
        Some(st) => "  ["@ + spec_status_word(st) + "]"@,
        None => Seq::empty(),
    }
}

/// A warning block: its heading, then each line marked; nothing when empty.
pub open spec fn warn_block(head: Seq<char>, v: Seq<Seq<char>>) -> Seq<Seq<char>> {
    if v.len() == 0 {
        Seq::empty()
    } else {
        seq![head] + v.map_values(|o: Seq<char>| "  ⚠ "@ + o)
    }
}

/// The control count of an audit: its second layer's, else none.
pub open spec fn control_count(a: Audit) -> nat {
    if a.layers@.len() > 1 {
        a.layers@[1].1 as nat
    } else {
        0
    }
}

/// The first line of the coverage digest: the audit's counts.
pub open spec fn cov_head(a: Audit) -> Seq<char> {
    "coverage: "@ + decimal(a.total as nat) + " intents · "@ + decimal(a.implemented as nat) + " impl · "@
        + decimal(control_count(a)) + " control · "@ + decimal(a.verified as nat) + " tests · "@ + decimal(
        a.covered as nat,
    ) + " covered · "@ + decimal(a.validated as nat) + " validated · "@ + decimal(a.gaps@.len()) + " uncovered · "@
        + decimal(a.orphans@.len()) + " orphaned · "@ + decimal(a.derived as nat) + " derived · "@ + decimal(
        a.justified as nat,
    ) + " justified · "@ + decimal(a.deviations@.len()) + " deviations"@
}

/// The coverage digest of an audit: its counts, a line per intent, then the
/// orphans and the unexplained deviations.
pub open spec fn coverage_text(cov: Seq<CoverageModel>, a: Audit) -> Seq<char> {
    lines(
        seq![cov_head(a)] + cov.map_values(|c: CoverageModel| cov_line(c)) + warn_block("orphaned:"@, svec(a.orphans@))
            + warn_block("deviations (justified, no rationale):"@, svec(a.deviations@)),
    )
}

fn push_count(s: &mut String, n: usize, tail: &str)
    ensures
        final(s)@ == old(s)@ + decimal(n as nat) + tail@,
{
    push_decimal(s, n as u64);
    push_str(s, tail);
}

fn cov_line_of(c: &IntentCoverage) -> (r: String)
    ensures
        r@ == cov_line(c@),
{
    proof {
        reveal_strlit("  ");
        reveal_strlit(" — ");
        reveal_strlit("✓");
        reveal_strlit("✗");
        reveal_strlit(" ");
        reveal_strlit("  [");
        reveal_strlit("]");
    }
    let mut cells: Vec<String> = Vec::new();
    let mut i: usize = 0;
    while i < c.layers.len()
        invariant
            i <= c.layers@.len(),
            svec(cells@) == c@.layers.take(i as int).map_values(
                |l: (Seq<char>, bool)| l.0 + if l.1 { "✓"@ } else { "✗"@ },
            ),
        decreases c.layers.len() - i,
    {
        let mut cell = to_owned(c.layers[i].layer.as_str());
        push_str(&mut cell, if c.layers[i].served { "✓" } else { "✗" });
        let ghost po = svec(cells@);
        let ghost cv = cell@;
        cells.push(cell);
        assert(svec(cells@) =~= po.push(cv));
        assert(c@.layers.take(i + 1).map_values(|l: (Seq<char>, bool)| l.0 + if l.1 { "✓"@ } else { "✗"@ })
            =~= c@.layers.take(i as int).map_values(|l: (Seq<char>, bool)| l.0 + if l.1 { "✓"@ } else { "✗"@ }).push(
            cv,
        ));
        i += 1;
    }
    assert(c@.layers.take(i as int) =~= c@.layers);
    let mut s = to_owned("  ");
    push_str(&mut s, trunc_plain(c.title.as_str(), 28).as_str());
    push_str(&mut s, " — ");
    push_joined(&mut s, &cells, " ");
    match c.status {
        Some(st) => {
            push_str(&mut s, "  [");
            push_str(&mut s, status_word(st));
            push_str(&mut s, "]");
        },
        None => {},
    }
    s
}

fn push_warnings(ls: &mut Vec<String>, head: &str, v: &Vec<String>)
    ensures
        strs(final(ls)@) == strs(old(ls)@) + warn_block(head@, svec(v@)),
{
    if v.len() == 0 {
        assert(strs(ls@) =~= strs(ls@) + Seq::<Seq<char>>::empty());
        return;
    }
    proof {
        reveal_strlit("  ⚠ ");
    }
    let ghost start = strs(ls@);
    ls.push(to_owned(head));
    let mut i: usize = 0;
    while i < v.len()
        invariant
            i <= v@.len(),
            strs(ls@) == start + seq![head@] + svec(v@).take(i as int).map_values(|o: Seq<char>| "  ⚠ "@ + o),
        decreases v.len() - i,
    {
        let mut l = to_owned("  ⚠ ");
        push_str(&mut l, v[i].as_str());
        let ghost before = strs(ls@);
        let ghost lv = l@;
        ls.push(l);
        assert(strs(ls@) =~= before.push(lv));
        assert(svec(v@).take(i + 1).map_values(|o: Seq<char>| "  ⚠ "@ + o) =~= svec(v@).take(i as int).map_values(
            |o: Seq<char>| "  ⚠ "@ + o,
        ).push(lv));
        i += 1;
    }
    assert(svec(v@).take(i as int) =~= svec(v@));
}

/// The coverage digest: the audit's counts, each intent
/// with its layers and status, then the orphans and deviations; "no spine
/// board" when there is no first page.
pub fn coverage_digest(pages: &Vec<(String, Vec<BoardColumn>)>) -> (r: String)
    requires
        page_items(pages_view(pages@)).len() < usize::MAX,
    ensures
        ({
            let cov = spec_coverage(pages_view(pages@));
            if cov.len() == 0 {
                r@ == "no spine board"@
            } else {
                exists|a: Audit| audit_holds(pages@, a) && r@ == coverage_text(cov, a)
            }
        }),
{
    let cov = coverage(pages);
    if cov.len() == 0 {
        proof {
            reveal_strlit("no spine board");
        }
        return to_owned("no spine board");
    }
    let a = audit(pages);
    proof {
        reveal_strlit("coverage: ");
        reveal_strlit(" intents · ");
        reveal_strlit(" impl · ");
        reveal_strlit(" control · ");
        reveal_strlit(" tests · ");
        reveal_strlit(" covered · ");
        reveal_strlit(" validated · ");
        reveal_strlit(" uncovered · ");
        reveal_strlit(" orphaned · ");
        reveal_strlit(" derived · ");
        reveal_strlit(" justified · ");
        reveal_strlit(" deviations");
        reveal_strlit("\n");
    }
    let ctrl = if a.layers.len() > 1 { a.layers[1].1 } else { 0 };
    let mut head = to_owned("coverage: ");
    push_count(&mut head, a.total, " intents · ");
    push_count(&mut head, a.implemented, " impl · ");
    push_count(&mut head, ctrl, " control · ");
    push_count(&mut head, a.verified, " tests · ");
    push_count(&mut head, a.covered, " covered · ");
    push_count(&mut head, a.validated, " validated · ");
    push_count(&mut head, a.gaps.len(), " uncovered · ");
    push_count(&mut head, a.orphans.len(), " orphaned · ");
    push_count(&mut head, a.derived, " derived · ");
    push_count(&mut head, a.justified, " justified · ");
    push_count(&mut head, a.deviations.len(), " deviations");
    let mut ls: Vec<String> = Vec::new();
    ls.push(head);
    let ghost top = strs(ls@);
    let ghost cv = covs_view(cov@);
    let mut k: usize = 0;
    while k < cov.len()
        invariant
            k <= cov@.len(),
            cv == covs_view(cov@),
            strs(ls@) == top + cv.take(k as int).map_values(|c: CoverageModel| cov_line(c)),
        decreases cov.len() - k,
    {
        let l = cov_line_of(&cov[k]);
        let ghost before = strs(ls@);
        let ghost lv = l@;
        ls.push(l);
        assert(strs(ls@) =~= before.push(lv));
        assert(cv.take(k + 1).map_values(|c: CoverageModel| cov_line(c)) =~= cv.take(k as int).map_values(
            |c: CoverageModel| cov_line(c),
        ).push(lv));
        k += 1;
    }
    assert(cv.take(k as int) =~= cv);
    proof {
        reveal_strlit("orphaned:");
        reveal_strlit("deviations (justified, no rationale):");
    }
    push_warnings(&mut ls, "orphaned:", &a.orphans);
    push_warnings(&mut ls, "deviations (justified, no rationale):", &a.deviations);
    let mut out = String::new();
    push_joined(&mut out, &ls, "\n");
    proof {
        assert(svec(ls@) =~= strs(ls@));
        assert(top =~= seq![cov_head(a)]);
        assert(out@ =~= lines(strs(ls@)));
        assert(audit_holds(pages@, a) && out@ == coverage_text(cv, a));
    }
    out
}


/// The item count of all pages.
pub open spec fn pages_total(p: Seq<(String, Vec<BoardColumn>)>) -> nat
    decreases p.len(),
{
    if p.len() == 0 {
        0
    } else {
        pages_total(p.drop_last()) + item_total(p.last().1@)
    }
}

proof fn lemma_col_items_len(cols: Seq<BoardColumn>)
    ensures
        crate::audit::col_items(cols).len() == item_total(cols),
    decreases cols.len(),
{
    if cols.len() > 0 {
        lemma_col_items_len(cols.drop_last());
    }
}

proof fn lemma_page_items_len(p: Seq<(String, Vec<BoardColumn>)>)
    ensures
        page_items(pages_view(p)).len() == pages_total(p),
    decreases p.len(),
{
    if p.len() > 0 {
        assert(pages_view(p).drop_last() =~= pages_view(p.drop_last()));
        lemma_page_items_len(p.drop_last());
        lemma_col_items_len(p.last().1@);
    }
}

/// Whether the pages hold fewer than `usize::MAX` items in all, as the audit
/// needs.
pub fn items_fit(pages: &Vec<(String, Vec<BoardColumn>)>) -> (r: bool)
    ensures
        r == (page_items(pages_view(pages@)).len() < usize::MAX),
{
    proof {
        lemma_page_items_len(pages@);
    }
    let mut total: u128 = 0;
    let mut j: usize = 0;
    while j < pages.len()
        invariant
            j <= pages@.len(),
            total as nat == pages_total(pages@.take(j as int)),
            total < usize::MAX,
        decreases pages.len() - j,
    {
        assert(pages@.take(j + 1).drop_last() =~= pages@.take(j as int));
        let b = board_items(&pages[j].1);
        assert(pages@.take(j + 1).last() == pages@[j as int]);
        assert(pages_total(pages@.take(j + 1)) == total + b);
        if b >= (usize::MAX as u128) - total {
            proof {
                lemma_total_mono(pages@, j + 1);
                assert(total + b >= usize::MAX);
                assert(pages_total(pages@) >= usize::MAX);
                lemma_page_items_len(pages@);
            }
            return false;
        }
        total = total + b;
        j += 1;
    }
    assert(pages@.take(j as int) =~= pages@);
    true
}

proof fn lemma_total_mono(p: Seq<(String, Vec<BoardColumn>)>, k: int)
    requires
        0 <= k <= p.len(),
    ensures
        pages_total(p.take(k)) <= pages_total(p),
    decreases p.len(),
{
    if k < p.len() {
        assert(p.drop_last().take(k) =~= p.take(k));
        lemma_total_mono(p.drop_last(), k);
    } else {
        assert(p.take(k) =~= p);
    }
}


// ─── replies ────────────────────────────────────────────────────────────────

/// The text of a command's reply (the confirmation `dispatch` returns): the
/// manual, the coverage digest, a trace, the document at an address, one
/// item in full, or that there was nothing to undo or redo; `now` and `date`
/// as for `observe`.
pub fn reply_text(doc: &Doc, r: &crate::drive::Reply, now: u64, date: &str) -> (out: String)
    requires
        doc.wf(),
        page_items(pages_view(doc.pages@)).len() < usize::MAX,
    ensures
        match r {
            crate::drive::Reply::Usage => out@ == crate::agent::USAGE@,
            crate::drive::Reply::Coverage => {
                let cov = spec_coverage(pages_view(doc.pages@));
                if cov.len() == 0 {
                    out@ == "no spine board"@
                } else {
                    exists|a: Audit| audit_holds(doc.pages@, a) && out@ == coverage_text(cov, a)
                }
            },
            crate::drive::Reply::Trace(a) => out@ == crate::trace::trace_text(doc.pages@, a@),
            crate::drive::Reply::Observe(None) => all_pages_ok(*doc, out@),
            crate::drive::Reply::Observe(Some(a)) => {
                let page = split_on(a@, '/')[0];
                out@ == match (addr_piece(a@, 1), addr_piece(a@, 2)) {
                    (None, _) => page_digest(*doc, page),
                    (Some(c), None) => col_digest(*doc, page, c),
                    (Some(c), Some(i)) => item_digest(*doc, page, c, i, now as nat, date@),
                }
            },
            crate::drive::Reply::Item(p, c, q) => out@ == item_digest(
                *doc,
                p@,
                decimal(*c as nat),
                decimal(*q as nat),
                now as nat,
                date@,
            ),
            crate::drive::Reply::NothingToUndo => out@ == "nothing to undo"@,
            crate::drive::Reply::NothingToRedo => out@ == "nothing to redo"@,
        },
{
    match r {
        crate::drive::Reply::Usage => to_owned(crate::agent::USAGE),
        crate::drive::Reply::Coverage => coverage_digest(&doc.pages),
        crate::drive::Reply::Trace(a) => crate::trace::trace(&doc.pages, a.as_str()),
        crate::drive::Reply::Observe(a) => match a {
            None => digest_all(doc),
            Some(x) => observe(doc, Some(x.as_str()), now, date),
        },
        crate::drive::Reply::Item(p, c, q) => {
            let mut ct = String::new();
            push_decimal(&mut ct, *c as u64);
            let mut it = String::new();
            push_decimal(&mut it, *q as u64);
            digest_item(doc, p.as_str(), ct.as_str(), it.as_str(), now, date)
        },
        crate::drive::Reply::NothingToUndo => {
            proof {
                reveal_strlit("nothing to undo");
            }
            to_owned("nothing to undo")
        },
        crate::drive::Reply::NothingToRedo => {
            proof {
                reveal_strlit("nothing to redo");
            }
            to_owned("nothing to redo")
        },
    }
}

} // verus!
