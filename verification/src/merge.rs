//! Three-way merge of boards: design truth reconciles per item (by title),
//! never per line. Additive fields are unioned, scalars take the side that
//! changed, a status both sides changed resolves worst-wins and is annotated.
//! Every unresolved choice is listed as a conflict.
use vstd::prelude::*;

use crate::agent::{opt_clone, opt_eq, pick3, pick3_status, spec_pick3, spec_union, union};
use crate::audit::{items_view, rollup_status, spec_rollup_status};
use crate::graph::copy_strings;
use crate::protocol::{spec_status_word, st_word, sopt, svec, BoardColumn, Item, ItemModel, Status};
use crate::text::{push_str, str_eq, to_owned};

verus! {

/// A copy of an item.
pub fn clone_item(it: &Item) -> (r: Item)
    ensures
        r@ == it@,
{
    Item {
        text: it.text.clone(),
        serves: copy_strings(&it.serves),
        status: it.status,
        note: copy_strings(&it.note),
        attachments: copy_strings(&it.attachments),
        at: copy_strings(&it.at),
        category: opt_clone(&it.category),
        id: opt_clone(&it.id),
        comment: opt_clone(&it.comment),
        derived: it.derived,
        sha: opt_clone(&it.sha),
        modified: it.modified,
    }
}

/// The later of two optional times (an absent one is the earliest).
pub open spec fn opt_max(a: Option<u64>, b: Option<u64>) -> Option<u64> {
    match (a, b) {
        (Some(x), Some(y)) => Some(if x >= y { x } else { y }),
        (Some(x), None) => Some(x),
        (None, y) => y,
    }
}

pub open spec fn base_field(base: Option<ItemModel>, f: spec_fn(ItemModel) -> Option<Seq<char>>) -> Option<Seq<char>> {
    match base {
        Some(b) => f(b),
        None => None,
    }
}

/// The conflict line for one scalar field kept from ours.
pub open spec fn kept_line(addr: Seq<char>, label: Seq<char>) -> Seq<char> {
    addr + ": "@ + label + " (kept ours)"@
}

/// The note left on an item whose status both sides changed.
pub open spec fn status_note(ours: Option<Status>, theirs: Option<Status>) -> Seq<char> {
    "merge: status conflict (ours="@ + word_of(ours) + ", theirs="@ + word_of(theirs) + ") → "@ + word_of(
        spec_rollup_status(seq![ours, theirs]),
    )
}

pub open spec fn word_of(s: Option<Status>) -> Seq<char> {
    match s {
        Some(x) => spec_status_word(x),
        None => "n/a"@,
    }
}

/// One item merged: (the item, the conflict lines it adds).
pub open spec fn spec_merge_item(base: Option<ItemModel>, o: ItemModel, t: ItemModel, addr: Seq<char>) -> (
    ItemModel,
    Seq<Seq<char>>,
) {
    let bcat = match base { Some(b) => b.category, None => None };
    let bid = match base { Some(b) => b.id, None => None };
    let bcom = match base { Some(b) => b.comment, None => None };
    let bsha = match base { Some(b) => b.sha, None => None };
    let bst = match base { Some(b) => b.status, None => None };
    let cat = spec_pick3(bcat, o.category, t.category);
    let id = spec_pick3(bid, o.id, t.id);
    let com = spec_pick3(bcom, o.comment, t.comment);
    let sha = spec_pick3(bsha, o.sha, t.sha);
    let st = spec_pick3(bst, o.status, t.status);
    let c1 = if cat.1 { seq![kept_line(addr, "category"@)] } else { Seq::empty() };
    let c2 = if id.1 { seq![kept_line(addr, "id"@)] } else { Seq::empty() };
    let c3 = if com.1 { seq![kept_line(addr, "comment"@)] } else { Seq::empty() };
    let c4 = if sha.1 { seq![kept_line(addr, "sha"@)] } else { Seq::empty() };
    let c5 = if st.1 { seq![addr + ": status"@] } else { Seq::empty() };
    let status = if st.1 { spec_rollup_status(seq![o.status, t.status]) } else { st.0 };
    let comment = if st.1 {
        Some(
            match com.0 {
                Some(c) => c + "; "@ + status_note(o.status, t.status),
                None => status_note(o.status, t.status),
            },
        )
    } else {
        com.0
    };
    (
        ItemModel {
            serves: spec_union(o.serves, t.serves),
            note: spec_union(o.note, t.note),
            attachments: spec_union(o.attachments, t.attachments),
            at: spec_union(o.at, t.at),
            derived: o.derived || t.derived,
            modified: opt_max(o.modified, t.modified),
            category: cat.0,
            id: id.0,
            comment,
            sha: sha.0,
            status,
            ..o
        },
        c1 + c2 + c3 + c4 + c5,
    )
}

pub open spec fn conflicts_view(v: Seq<String>) -> Seq<Seq<char>> {
    svec(v)
}

fn kept(conflicts: &mut Vec<String>, addr: &str, label: &str)
    ensures
        svec(final(conflicts)@) == svec(old(conflicts)@).push(kept_line(addr@, label@)),
{
    proof {
        reveal_strlit(": ");
        reveal_strlit(" (kept ours)");
    }
    let mut s = to_owned(addr);
    push_str(&mut s, ": ");
    push_str(&mut s, label);
    push_str(&mut s, " (kept ours)");
    let ghost before = conflicts@;
    conflicts.push(s);
    assert(svec(conflicts@) =~= svec(before).push(kept_line(addr@, label@)));
}

fn scalar(
    label: &str,
    base: &Option<String>,
    ours: &Option<String>,
    theirs: &Option<String>,
    addr: &str,
    conflicts: &mut Vec<String>,
) -> (r: Option<String>)
    ensures
        sopt(r) == spec_pick3(sopt(*base), sopt(*ours), sopt(*theirs)).0,
        svec(final(conflicts)@) == svec(old(conflicts)@) + if spec_pick3(
            sopt(*base),
            sopt(*ours),
            sopt(*theirs),
        ).1 {
            seq![kept_line(addr@, label@)]
        } else {
            Seq::empty()
        },
{
    let (v, c) = pick3(base, ours, theirs);
    if c {
        kept(conflicts, addr, label);
    } else {
        assert(svec(conflicts@) =~= svec(conflicts@) + Seq::<Seq<char>>::empty());
    }
    v
}

fn base_opt(base: Option<&Item>, which: u8) -> (r: Option<String>)
    ensures
        sopt(r) == match base {
            Some(b) => if which == 0 {
                b@.category
            } else if which == 1 {
                b@.id
            } else if which == 2 {
                b@.comment
            } else {
                b@.sha
            },
            None => None,
        },
{
    match base {
        Some(b) => if which == 0 {
            opt_clone(&b.category)
        } else if which == 1 {
            opt_clone(&b.id)
        } else if which == 2 {
            opt_clone(&b.comment)
        } else {
            opt_clone(&b.sha)
        },
        None => None,
    }
}

pub open spec fn opt_item(o: Option<&Item>) -> Option<ItemModel> {
    match o {
        Some(i) => Some(i@),
        None => None,
    }
}

/// Merge one item present on both sides: additive fields union, scalars
/// three-way, a status both sides changed resolves worst-wins with a note.
pub fn merge_item(base: Option<&Item>, ours: &Item, theirs: &Item, addr: &str, conflicts: &mut Vec<String>) -> (r:
    Item)
    ensures
        (r@, svec(final(conflicts)@).skip(old(conflicts)@.len() as int)) == spec_merge_item(
            opt_item(base),
            ours@,
            theirs@,
            addr@,
        ),
        svec(final(conflicts)@).take(old(conflicts)@.len() as int) == svec(old(conflicts)@),
        final(conflicts)@.len() == old(conflicts)@.len() + spec_merge_item(
            opt_item(base),
            ours@,
            theirs@,
            addr@,
        ).1.len(),
{
    proof {
        reveal_strlit("category");
        reveal_strlit("id");
        reveal_strlit("comment");
        reveal_strlit("sha");
        reveal_strlit(": status");
        reveal_strlit("; ");
        reveal_strlit("merge: status conflict (ours=");
        reveal_strlit(", theirs=");
        reveal_strlit(") → ");
        reveal_strlit("n/a");
    }
    let ghost c0 = svec(conflicts@);
    let mut it = clone_item(ours);
    it.serves = union(ours.serves.as_slice(), theirs.serves.as_slice());
    it.note = union(ours.note.as_slice(), theirs.note.as_slice());
    it.attachments = union(ours.attachments.as_slice(), theirs.attachments.as_slice());
    it.at = union(ours.at.as_slice(), theirs.at.as_slice());
    it.derived = ours.derived || theirs.derived;
    it.modified = match (ours.modified, theirs.modified) {
        (Some(x), Some(y)) => Some(if x >= y { x } else { y }),
        (Some(x), None) => Some(x),
        (None, y) => y,
    };
    let b0 = base_opt(base, 0);
    it.category = scalar("category", &b0, &ours.category, &theirs.category, addr, conflicts);
    let ghost c1 = svec(conflicts@);
    let b1 = base_opt(base, 1);
    it.id = scalar("id", &b1, &ours.id, &theirs.id, addr, conflicts);
    let ghost c2 = svec(conflicts@);
    let b2 = base_opt(base, 2);
    it.comment = scalar("comment", &b2, &ours.comment, &theirs.comment, addr, conflicts);
    let ghost c3 = svec(conflicts@);
    let b3 = base_opt(base, 3);
    it.sha = scalar("sha", &b3, &ours.sha, &theirs.sha, addr, conflicts);
    let ghost c4 = svec(conflicts@);
    let bst = match base {
        Some(b) => b.status,
        None => None,
    };
    let (st, c) = pick3_status(bst, ours.status, theirs.status);
    if c {
        let mut pair: Vec<Option<Status>> = Vec::new();
        pair.push(ours.status);
        pair.push(theirs.status);
        assert(pair@ =~= seq![ours@.status, theirs@.status]);
        let worst = rollup_status(&pair);
        it.status = worst;
        let mut note = to_owned("merge: status conflict (ours=");
        push_str(&mut note, st_word(ours.status));
        push_str(&mut note, ", theirs=");
        push_str(&mut note, st_word(theirs.status));
        push_str(&mut note, ") → ");
        push_str(&mut note, st_word(worst));
        assert(note@ =~= status_note(ours@.status, theirs@.status));
        let com = match &it.comment {
            Some(cm) => {
                let mut s = cm.clone();
                push_str(&mut s, "; ");
                push_str(&mut s, note.as_str());
                s
            },
            None => note,
        };
        it.comment = Some(com);
        let mut line = to_owned(addr);
        push_str(&mut line, ": status");
        let ghost before = conflicts@;
        conflicts.push(line);
        assert(svec(conflicts@) =~= svec(before).push(addr@ + ": status"@));
    } else {
        it.status = st;
    }
    proof {
        let m = spec_merge_item(opt_item(base), ours@, theirs@, addr@);
        assert(svec(conflicts@).skip(c0.len() as int) =~= m.1);
        assert(svec(conflicts@).take(c0.len() as int) =~= c0);
        assert(it@ == m.0);
    }
    it
}

// ─── items of a column ──────────────────────────────────────────────────────

/// The titles of items.
pub open spec fn item_texts(v: Seq<ItemModel>) -> Seq<Seq<char>> {
    v.map_values(|i: ItemModel| i.text)
}

/// The first item titled `t`.
pub open spec fn first_titled(v: Seq<ItemModel>, t: Seq<char>) -> Option<ItemModel>
    decreases v.len(),
{
    if v.len() == 0 {
        None
    } else if v[0].text == t {
        Some(v[0])
    } else {
        first_titled(v.drop_first(), t)
    }
}

/// What one title contributes to the merged column: its item (if kept) and
/// the conflict lines.
pub open spec fn title_step(
    b: Seq<ItemModel>,
    o: Seq<ItemModel>,
    t: Seq<ItemModel>,
    addr: Seq<char>,
    title: Seq<char>,
) -> (Seq<ItemModel>, Seq<Seq<char>>) {
    let at = addr + "/"@ + title;
    let bo = first_titled(b, title);
    match (first_titled(o, title), first_titled(t, title)) {
        (Some(x), Some(y)) => {
            let m = spec_merge_item(bo, x, y, at);
            (seq![m.0], m.1)
        },
        (Some(x), None) => if bo is None {
            (seq![x], Seq::empty())
        } else if bo != Some(x) {
            (seq![x], seq![at + ": modified by ours, deleted by theirs (kept)"@])
        } else {
            (Seq::empty(), Seq::empty())
        },
        (None, Some(y)) => if bo is None {
            (seq![y], Seq::empty())
        } else if bo != Some(y) {
            (seq![y], seq![at + ": modified by theirs, deleted by ours (kept)"@])
        } else {
            (Seq::empty(), Seq::empty())
        },
        (None, None) => (Seq::empty(), Seq::empty()),
    }
}

/// The merged items for the titles `ts`, in order, with the conflict lines.
pub open spec fn merge_titles(
    b: Seq<ItemModel>,
    o: Seq<ItemModel>,
    t: Seq<ItemModel>,
    addr: Seq<char>,
    ts: Seq<Seq<char>>,
) -> (Seq<ItemModel>, Seq<Seq<char>>)
    decreases ts.len(),
{
    if ts.len() == 0 {
        (Seq::empty(), Seq::empty())
    } else {
        let prev = merge_titles(b, o, t, addr, ts.drop_last());
        let st = title_step(b, o, t, addr, ts.last());
        (prev.0 + st.0, prev.1 + st.1)
    }
}

/// A column's items merged by title: ours' titles in order, then theirs' new ones.
pub open spec fn spec_merge_items(b: Seq<ItemModel>, o: Seq<ItemModel>, t: Seq<ItemModel>, addr: Seq<char>) -> (
    Seq<ItemModel>,
    Seq<Seq<char>>,
) {
    merge_titles(b, o, t, addr, spec_union(item_texts(o), item_texts(t)))
}

fn strings_eq(a: &Vec<String>, b: &Vec<String>) -> (r: bool)
    ensures
        r == (svec(a@) == svec(b@)),
{
    if a.len() != b.len() {
        return false;
    }
    let mut i: usize = 0;
    while i < a.len()
        invariant
            a@.len() == b@.len(),
            i <= a@.len(),
            forall|j: int| 0 <= j < i ==> a@[j]@ == b@[j]@,
        decreases a.len() - i,
    {
        if !str_eq(a[i].as_str(), b[i].as_str()) {
            assert(svec(a@)[i as int] != svec(b@)[i as int]);
            return false;
        }
        i += 1;
    }
    assert(svec(a@) =~= svec(b@));
    true
}

/// Whether two items are the same in every field.
pub fn item_eq(a: &Item, b: &Item) -> (r: bool)
    ensures
        r == (a@ == b@),
{
    let r = str_eq(a.text.as_str(), b.text.as_str()) && strings_eq(&a.serves, &b.serves) && a.status
        == b.status && strings_eq(&a.note, &b.note) && strings_eq(&a.attachments, &b.attachments)
        && strings_eq(&a.at, &b.at) && opt_eq(&a.category, &b.category) && opt_eq(&a.id, &b.id)
        && opt_eq(&a.comment, &b.comment) && a.derived == b.derived && opt_eq(&a.sha, &b.sha)
        && a.modified == b.modified;
    r
}

fn find_titled<'a>(v: &'a [Item], t: &str) -> (r: Option<&'a Item>)
    ensures
        opt_item(r) == first_titled(items_view(v@), t@),
{
    let ghost iv = items_view(v@);
    let mut i: usize = 0;
    assert(iv.skip(0) =~= iv);
    while i < v.len()
        invariant
            i <= v@.len(),
            iv == items_view(v@),
            first_titled(iv, t@) == first_titled(iv.skip(i as int), t@),
        decreases v.len() - i,
    {
        assert(iv.skip(i as int)[0] == v@[i as int]@);
        if str_eq(v[i].text.as_str(), t) {
            return Some(&v[i]);
        }
        assert(iv.skip(i as int).drop_first() =~= iv.skip(i + 1));
        i += 1;
    }
    assert(iv.skip(i as int) =~= Seq::<ItemModel>::empty());
    None
}

fn texts_of(v: &[Item]) -> (r: Vec<String>)
    ensures
        svec(r@) == item_texts(items_view(v@)),
{
    let mut out: Vec<String> = Vec::new();
    let mut i: usize = 0;
    while i < v.len()
        invariant
            i <= v@.len(),
            svec(out@) == item_texts(items_view(v@)).take(i as int),
        decreases v.len() - i,
    {
        let ghost before = out@;
        out.push(v[i].text.clone());
        assert(svec(out@) =~= svec(before).push(v@[i as int].text@));
        assert(svec(out@) =~= item_texts(items_view(v@)).take(i + 1));
        i += 1;
    }
    assert(item_texts(items_view(v@)).take(i as int) =~= item_texts(items_view(v@)));
    out
}

pub open spec fn kept_items(v: Seq<Item>) -> Seq<ItemModel> {
    items_view(v)
}

/// Merge a column's items by title (the identity): both sides → item merge;
/// one side only → kept when added or changed there, dropped when the other
/// side deleted it unchanged; a change against a deletion is kept and listed.
pub fn merge_items(base: &[Item], ours: &[Item], theirs: &[Item], addr: &str, conflicts: &mut Vec<String>) -> (r:
    Vec<Item>)
    ensures
        (items_view(r@), svec(final(conflicts)@).skip(old(conflicts)@.len() as int)) == spec_merge_items(
            items_view(base@),
            items_view(ours@),
            items_view(theirs@),
            addr@,
        ),
        svec(final(conflicts)@).take(old(conflicts)@.len() as int) == svec(old(conflicts)@),
        final(conflicts)@.len() == old(conflicts)@.len() + spec_merge_items(
            items_view(base@),
            items_view(ours@),
            items_view(theirs@),
            addr@,
        ).1.len(),
{
    proof {
        reveal_strlit("/");
        reveal_strlit(": modified by ours, deleted by theirs (kept)");
        reveal_strlit(": modified by theirs, deleted by ours (kept)");
    }
    let ghost bv = items_view(base@);
    let ghost ov = items_view(ours@);
    let ghost tv = items_view(theirs@);
    let ghost c0 = svec(conflicts@);
    let to = texts_of(ours);
    let tt = texts_of(theirs);
    let titles = union(to.as_slice(), tt.as_slice());
    let ghost ts = svec(titles@);
    let mut out: Vec<Item> = Vec::new();
    let mut i: usize = 0;
    while i < titles.len()
        invariant
            i <= titles@.len(),
            ts == svec(titles@),
            bv == items_view(base@),
            ov == items_view(ours@),
            tv == items_view(theirs@),
            svec(conflicts@).take(c0.len() as int) == c0,
            svec(conflicts@).len() == c0.len() + merge_titles(bv, ov, tv, addr@, ts.take(i as int)).1.len(),
            (items_view(out@), svec(conflicts@).skip(c0.len() as int)) == merge_titles(
                bv,
                ov,
                tv,
                addr@,
                ts.take(i as int),
            ),
        decreases titles.len() - i,
    {
        let t = titles[i].as_str();
        assert(ts.take(i + 1).drop_last() =~= ts.take(i as int));
        assert(ts.take(i + 1).last() == t@);
        let mut at = to_owned(addr);
        push_str(&mut at, "/");
        push_str(&mut at, t);
        let ghost before_out = items_view(out@);
        let ghost before_c = svec(conflicts@);
        let bo = find_titled(base, t);
        match (find_titled(ours, t), find_titled(theirs, t)) {
            (Some(o), Some(th)) => {
                let m = merge_item(bo, o, th, at.as_str(), conflicts);
                out.push(m);
            },
            (Some(o), None) => {
                match bo {
                    None => {
                        out.push(clone_item(o));
                    },
                    Some(b) => {
                        if !item_eq(b, o) {
                            let mut line = at.clone();
                            push_str(&mut line, ": modified by ours, deleted by theirs (kept)");
                            conflicts.push(line);
                            out.push(clone_item(o));
                        }
                    },
                }
            },
            (None, Some(th)) => {
                match bo {
                    None => {
                        out.push(clone_item(th));
                    },
                    Some(b) => {
                        if !item_eq(b, th) {
                            let mut line = at.clone();
                            push_str(&mut line, ": modified by theirs, deleted by ours (kept)");
                            conflicts.push(line);
                            out.push(clone_item(th));
                        }
                    },
                }
            },
            (None, None) => {},
        }
        proof {
            let st = title_step(bv, ov, tv, addr@, t@);
            assert(items_view(out@) =~= before_out + st.0);
            assert(svec(conflicts@).take(before_c.len() as int) =~= before_c);
            assert(svec(conflicts@).skip(before_c.len() as int) =~= st.1);
            assert(svec(conflicts@).len() == before_c.len() + st.1.len());
            assert(svec(conflicts@).skip(c0.len() as int) =~= before_c.skip(c0.len() as int) + st.1);
            assert(svec(conflicts@).take(c0.len() as int) =~= before_c.take(c0.len() as int));
        }
        i += 1;
    }
    assert(ts.take(i as int) =~= ts);
    out
}

// ─── columns ────────────────────────────────────────────────────────────────

/// A column as pure data.
pub struct ColModel {
    pub header: Seq<char>,
    pub key: Option<Seq<char>>,
    pub items: Seq<ItemModel>,
}

pub open spec fn col_view(c: BoardColumn) -> ColModel {
    ColModel { header: c.header@, key: sopt(c.key), items: items_view(c.items@) }
}

pub open spec fn cols_view(v: Seq<BoardColumn>) -> Seq<ColModel> {
    v.map_values(|c: BoardColumn| col_view(c))
}

/// A column's identity: its key, else its header.
pub open spec fn col_key(c: ColModel) -> Seq<char> {
    match c.key {
        Some(k) => k,
        None => c.header,
    }
}

pub open spec fn keys_of(v: Seq<ColModel>) -> Seq<Seq<char>> {
    v.map_values(|c: ColModel| col_key(c))
}

/// The first column with identity `k`.
pub open spec fn first_keyed(v: Seq<ColModel>, k: Seq<char>) -> Option<ColModel>
    decreases v.len(),
{
    if v.len() == 0 {
        None
    } else if col_key(v[0]) == k {
        Some(v[0])
    } else {
        first_keyed(v.drop_first(), k)
    }
}

pub open spec fn items_or_empty(c: Option<ColModel>) -> Seq<ItemModel> {
    match c {
        Some(x) => x.items,
        None => Seq::empty(),
    }
}

/// What one column identity contributes: the merged column (headed as ours,
/// else theirs) and its conflict lines.
pub open spec fn key_step(b: Seq<ColModel>, o: Seq<ColModel>, t: Seq<ColModel>, page: Seq<char>, k: Seq<char>) -> (
    Seq<ColModel>,
    Seq<Seq<char>>,
) {
    let oc = first_keyed(o, k);
    let tc = first_keyed(t, k);
    let anchor = if oc is Some { oc } else { tc };
    match anchor {
        Some(a) => {
            let m = spec_merge_items(
                items_or_empty(first_keyed(b, k)),
                items_or_empty(oc),
                items_or_empty(tc),
                page + "/"@ + k,
            );
            (seq![ColModel { header: a.header, key: a.key, items: m.0 }], m.1)
        },
        None => (Seq::empty(), Seq::empty()),
    }
}

pub open spec fn merge_keys(b: Seq<ColModel>, o: Seq<ColModel>, t: Seq<ColModel>, page: Seq<char>, ks: Seq<Seq<char>>) -> (
    Seq<ColModel>,
    Seq<Seq<char>>,
)
    decreases ks.len(),
{
    if ks.len() == 0 {
        (Seq::empty(), Seq::empty())
    } else {
        let prev = merge_keys(b, o, t, page, ks.drop_last());
        let st = key_step(b, o, t, page, ks.last());
        (prev.0 + st.0, prev.1 + st.1)
    }
}

/// Columns merged by identity: ours' in order, then theirs' new ones.
pub open spec fn spec_merge_columns(b: Seq<ColModel>, o: Seq<ColModel>, t: Seq<ColModel>, page: Seq<char>) -> (
    Seq<ColModel>,
    Seq<Seq<char>>,
) {
    merge_keys(b, o, t, page, spec_union(keys_of(o), keys_of(t)))
}

fn col_key_of(c: &BoardColumn) -> (r: String)
    ensures
        r@ == col_key(col_view(*c)),
{
    match &c.key {
        Some(k) => k.clone(),
        None => c.header.clone(),
    }
}

fn keys_vec(v: &[BoardColumn]) -> (r: Vec<String>)
    ensures
        svec(r@) == keys_of(cols_view(v@)),
{
    let mut out: Vec<String> = Vec::new();
    let mut i: usize = 0;
    while i < v.len()
        invariant
            i <= v@.len(),
            svec(out@) == keys_of(cols_view(v@)).take(i as int),
        decreases v.len() - i,
    {
        let ghost before = out@;
        out.push(col_key_of(&v[i]));
        assert(svec(out@) =~= svec(before).push(col_key(col_view(v@[i as int]))));
        assert(svec(out@) =~= keys_of(cols_view(v@)).take(i + 1));
        i += 1;
    }
    assert(keys_of(cols_view(v@)).take(i as int) =~= keys_of(cols_view(v@)));
    out
}

pub open spec fn opt_col(o: Option<&BoardColumn>) -> Option<ColModel> {
    match o {
        Some(c) => Some(col_view(*c)),
        None => None,
    }
}

fn find_keyed<'a>(v: &'a [BoardColumn], k: &str) -> (r: Option<&'a BoardColumn>)
    ensures
        opt_col(r) == first_keyed(cols_view(v@), k@),
{
    let ghost cv = cols_view(v@);
    let mut i: usize = 0;
    assert(cv.skip(0) =~= cv);
    while i < v.len()
        invariant
            i <= v@.len(),
            cv == cols_view(v@),
            first_keyed(cv, k@) == first_keyed(cv.skip(i as int), k@),
        decreases v.len() - i,
    {
        assert(cv.skip(i as int)[0] == col_view(v@[i as int]));
        let key = col_key_of(&v[i]);
        if str_eq(key.as_str(), k) {
            return Some(&v[i]);
        }
        assert(cv.skip(i as int).drop_first() =~= cv.skip(i + 1));
        i += 1;
    }
    assert(cv.skip(i as int) =~= Seq::<ColModel>::empty());
    None
}

/// Merge a page's columns by identity (key, else header); each merged column
/// keeps ours' header and key (theirs' when only theirs has it).
pub fn merge_columns(
    base: &[BoardColumn],
    ours: &[BoardColumn],
    theirs: &[BoardColumn],
    page: &str,
    conflicts: &mut Vec<String>,
) -> (r: Vec<BoardColumn>)
    ensures
        (cols_view(r@), svec(final(conflicts)@).skip(old(conflicts)@.len() as int)) == spec_merge_columns(
            cols_view(base@),
            cols_view(ours@),
            cols_view(theirs@),
            page@,
        ),
        svec(final(conflicts)@).take(old(conflicts)@.len() as int) == svec(old(conflicts)@),
{
    proof {
        reveal_strlit("/");
    }
    let ghost bv = cols_view(base@);
    let ghost ov = cols_view(ours@);
    let ghost tv = cols_view(theirs@);
    let ghost c0 = svec(conflicts@);
    let ko = keys_vec(ours);
    let kt = keys_vec(theirs);
    let keys = union(ko.as_slice(), kt.as_slice());
    let ghost ks = svec(keys@);
    let empty: Vec<Item> = Vec::new();
    let mut out: Vec<BoardColumn> = Vec::new();
    let mut i: usize = 0;
    while i < keys.len()
        invariant
            i <= keys@.len(),
            ks == svec(keys@),
            bv == cols_view(base@),
            ov == cols_view(ours@),
            tv == cols_view(theirs@),
            empty@.len() == 0,
            svec(conflicts@).take(c0.len() as int) == c0,
            svec(conflicts@).len() == c0.len() + merge_keys(bv, ov, tv, page@, ks.take(i as int)).1.len(),
            (cols_view(out@), svec(conflicts@).skip(c0.len() as int)) == merge_keys(
                bv,
                ov,
                tv,
                page@,
                ks.take(i as int),
            ),
        decreases keys.len() - i,
    {
        let k = keys[i].as_str();
        assert(ks.take(i + 1).drop_last() =~= ks.take(i as int));
        assert(ks.take(i + 1).last() == k@);
        let ghost before_out = cols_view(out@);
        let ghost before_c = svec(conflicts@);
        let oc = find_keyed(ours, k);
        let tc = find_keyed(theirs, k);
        let bc = find_keyed(base, k);
        let anchor = match oc {
            Some(c) => Some(c),
            None => tc,
        };
        match anchor {
            Some(a) => {
                let mut addr = to_owned(page);
                push_str(&mut addr, "/");
                push_str(&mut addr, k);
                let bi = match bc {
                    Some(c) => c.items.as_slice(),
                    None => empty.as_slice(),
                };
                let oi = match oc {
                    Some(c) => c.items.as_slice(),
                    None => empty.as_slice(),
                };
                let ti = match tc {
                    Some(c) => c.items.as_slice(),
                    None => empty.as_slice(),
                };
                assert(items_view(empty@) =~= Seq::<ItemModel>::empty());
                let items = merge_items(bi, oi, ti, addr.as_str(), conflicts);
                out.push(BoardColumn { header: a.header.clone(), key: opt_clone(&a.key), items });
            },
            None => {},
        }
        proof {
            let st = key_step(bv, ov, tv, page@, k@);
            assert(cols_view(out@) =~= before_out + st.0);
            assert(svec(conflicts@).skip(before_c.len() as int) =~= st.1);
            assert(svec(conflicts@).len() == before_c.len() + st.1.len());
            assert(svec(conflicts@).skip(c0.len() as int) =~= before_c.skip(c0.len() as int) + st.1);
            assert(svec(conflicts@).take(c0.len() as int) =~= before_c.take(c0.len() as int));
        }
        i += 1;
    }
    assert(ks.take(i as int) =~= ks);
    out
}

/// What both sides linked stays linked: a merged item links to every title
/// either side's item linked to.
pub proof fn law_merge_keeps_every_link(base: Option<ItemModel>, o: ItemModel, t: ItemModel, addr: Seq<char>, x: Seq<char>)
    requires
        o.serves.contains(x) || t.serves.contains(x),
    ensures
        spec_merge_item(base, o, t, addr).0.serves.contains(x),
{
    lemma_union_contains(o.serves, t.serves, x);
}

/// The union holds every element of both inputs.
pub proof fn lemma_union_contains(a: Seq<Seq<char>>, b: Seq<Seq<char>>, x: Seq<char>)
    requires
        a.contains(x) || b.contains(x),
    ensures
        spec_union(a, b).contains(x),
    decreases b.len(),
{
    if b.len() == 0 {
    } else {
        let v = spec_union(a, b.drop_last());
        if a.contains(x) || b.drop_last().contains(x) {
            lemma_union_contains(a, b.drop_last(), x);
            if !v.contains(b.last()) {
                crate::graph::lemma_push_contains(v, b.last());
            }
        } else {
            assert(b.last() == x) by {
                let j = choose|j: int| 0 <= j < b.len() && b[j] == x;
                if j < b.len() - 1 {
                    assert(b.drop_last()[j] == x);
                }
            }
            if !v.contains(b.last()) {
                crate::graph::lemma_push_contains(v, b.last());
            }
        }
    }
}

} // verus!
