//! Export of the viewer's board pages as a node graph: one node text per
//! item, with stable ids and links resolved from titles to ids, and the
//! `arte.toml` that declares the chain and each role's subsets.
use vstd::prelude::*;

use crate::agent::join;
use crate::graph::strs;
use crate::ident::{is_ascii_alnum, lower, slug_raw, take_upto, to_lower, trim_dash_range, trim_dashes};
use crate::protocol::{sopt, spec_status_word, status_word, svec, BoardColumn, Item, ItemModel};
use crate::state::{free_name, fresh_step};
use crate::text::{chars_of, push_str, str_eq, string_from, to_owned, trim, trim_str};

verus! {

/// The one-letter code of a role in a default id.
pub open spec fn role_code(role: Seq<char>) -> Seq<char> {
    if role == "intent"@ {
        "i"@
    } else if role == "impl"@ {
        "m"@
    } else if role == "control"@ {
        "c"@
    } else if role == "validation"@ {
        "v"@
    } else {
        "n"@
    }
}

fn role_code_of(role: &str) -> (r: &'static str)
    ensures
        r@ == role_code(role@),
{
    proof {
        reveal_strlit("intent");
        reveal_strlit("impl");
        reveal_strlit("control");
        reveal_strlit("validation");
    }
    if str_eq(role, "intent") {
        "i"
    } else if str_eq(role, "impl") {
        "m"
    } else if str_eq(role, "control") {
        "c"
    } else if str_eq(role, "validation") {
        "v"
    } else {
        "n"
    }
}

/// The short slug of an exported title or header: lower-case ASCII
/// alphanumerics joined by single dashes, no dash at either end, at most 28
/// characters.
pub open spec fn export_slug(s: Seq<char>) -> Seq<char> {
    take_upto(trim_dashes(slug_raw(s)), 28)
}

/// The short slug of a title or header.
pub fn short_slug(s: &str) -> (r: String)
    ensures
        r@ == export_slug(s@),
{
    let cs = chars_of(s);
    let mut o: Vec<char> = Vec::new();
    let mut dash = false;
    let mut k: usize = 0;
    while k < cs.len()
        invariant
            k <= cs.len(),
            cs@ == s@,
            o@ == slug_raw(cs@.take(k as int)),
            dash == (o@.len() > 0 && o@.last() == '-'),
        decreases cs.len() - k,
    {
        let ch = cs[k];
        proof {
            assert(cs@.take(k + 1).drop_last() =~= cs@.take(k as int));
        }
        k += 1;
        if is_ascii_alnum(ch) {
            o.push(to_lower(ch));
            dash = false;
        } else if !dash && o.len() > 0 {
            o.push('-');
            dash = true;
        }
    }
    assert(cs@.take(k as int) =~= s@);
    let (a, b) = trim_dash_range(&o, 0, o.len());
    assert(o@.subrange(0, o@.len() as int) =~= o@);
    let hi = if b - a <= 28 { b } else { a + 28 };
    assert(o@.subrange(a as int, hi as int) =~= take_upto(o@.subrange(a as int, b as int), 28));
    let mut out: Vec<char> = Vec::new();
    let mut i: usize = a;
    while i < hi
        invariant
            a <= i <= hi <= o.len(),
            out@ == o@.subrange(a as int, i as int),
        decreases hi - i,
    {
        out.push(o[i]);
        assert(o@.subrange(a as int, i + 1) =~= o@.subrange(a as int, i as int).push(o@[i as int]));
        i += 1;
    }
    string_from(&out)
}

/// An item to export: its role (page), its subset (column) and the item.
pub type Entry = (Seq<char>, Seq<char>, ItemModel);

/// A column's subset: its key, else the slug of its header.
pub open spec fn frame_of(c: BoardColumn) -> Seq<char> {
    match c.key {
        Some(k) => k@,
        None => export_slug(c.header@),
    }
}

/// The entries of one page's columns, column by column.
pub open spec fn column_entries(role: Seq<char>, cols: Seq<BoardColumn>) -> Seq<Entry>
    decreases cols.len(),
{
    if cols.len() == 0 {
        Seq::empty()
    } else {
        column_entries(role, cols.drop_last()) + cols.last().items@.map_values(
            |it: Item| (role, frame_of(cols.last()), it@),
        )
    }
}

/// The entries of all pages, page by page.
pub open spec fn page_entries(pages: Seq<(String, Vec<BoardColumn>)>) -> Seq<Entry>
    decreases pages.len(),
{
    if pages.len() == 0 {
        Seq::empty()
    } else {
        page_entries(pages.drop_last()) + column_entries(pages.last().0@, pages.last().1@)
    }
}

/// An entry's id before collisions: the item's own id when it has one,
/// else `<role code>-<slug of its text>`.
pub open spec fn base_id(e: Entry) -> Seq<char> {
    match e.2.id {
        Some(id) if id.len() > 0 => id,
        _ => role_code(e.0) + "-"@ + export_slug(e.2.text),
    }
}

/// `ids` are the entries' ids in order: each its base id, or the base with
/// `-<n>` for the least free `n >= 2` when an earlier entry took it.
pub open spec fn ids_assigned(entries: Seq<Entry>, ids: Seq<Seq<char>>) -> bool {
    &&& ids.len() == entries.len()
    &&& forall|k: int| 0 <= k < entries.len() ==> fresh_step(ids.take(k), base_id(#[trigger] entries[k]), '-', ids[k])
}

/// The entries as pure data.
pub open spec fn entries_view(v: Seq<(String, String, Item)>) -> Seq<Entry> {
    v.map_values(|e: (String, String, Item)| (e.0@, e.1@, e.2@))
}

/// A column's subset name.
fn frame_str(c: &BoardColumn) -> (r: String)
    ensures
        r@ == frame_of(*c),
{
    match &c.key {
        Some(k) => to_owned(k.as_str()),
        None => short_slug(c.header.as_str()),
    }
}

/// Every item of every page with its role and subset, in order.
fn collect_entries(pages: &Vec<(String, Vec<BoardColumn>)>) -> (r: Vec<(String, String, Item)>)
    ensures
        entries_view(r@) == page_entries(pages@),
{
    let mut out: Vec<(String, String, Item)> = Vec::new();
    let mut p: usize = 0;
    while p < pages.len()
        invariant
            p <= pages@.len(),
            entries_view(out@) == page_entries(pages@.take(p as int)),
        decreases pages.len() - p,
    {
        assert(pages@.take(p + 1).drop_last() =~= pages@.take(p as int));
        let role = &pages[p].0;
        let cols = &pages[p].1;
        let ghost base = entries_view(out@);
        let mut c: usize = 0;
        while c < cols.len()
            invariant
                p < pages@.len(),
                role == &pages@[p as int].0,
                cols == &pages@[p as int].1,
                c <= cols@.len(),
                entries_view(out@) == base + column_entries(role@, cols@.take(c as int)),
            decreases cols.len() - c,
        {
            assert(cols@.take(c + 1).drop_last() =~= cols@.take(c as int));
            let frame = frame_str(&cols[c]);
            let ghost before_col = entries_view(out@);
            let mut i: usize = 0;
            while i < cols[c].items.len()
                invariant
                    c < cols@.len(),
                    i <= cols@[c as int].items@.len(),
                    frame@ == frame_of(cols@[c as int]),
                    entries_view(out@) == before_col + cols@[c as int].items@.take(i as int).map_values(
                        |it: Item| (role@, frame_of(cols@[c as int]), it@),
                    ),
                decreases cols@[c as int].items@.len() - i,
            {
                let ghost po = entries_view(out@);
                let it = crate::merge::clone_item(&cols[c].items[i]);
                let ghost e = (role@, frame@, it@);
                out.push((to_owned(role.as_str()), to_owned(frame.as_str()), it));
                assert(entries_view(out@) =~= po.push(e));
                assert(cols@[c as int].items@.take(i + 1).map_values(
                    |it: Item| (role@, frame_of(cols@[c as int]), it@),
                ) =~= cols@[c as int].items@.take(i as int).map_values(
                    |it: Item| (role@, frame_of(cols@[c as int]), it@),
                ).push(e));
                assert(entries_view(out@) =~= before_col + cols@[c as int].items@.take(i + 1).map_values(
                    |it: Item| (role@, frame_of(cols@[c as int]), it@),
                ));
                i += 1;
            }
            assert(cols@[c as int].items@.take(i as int) =~= cols@[c as int].items@);
            assert(entries_view(out@) =~= base + column_entries(role@, cols@.take(c + 1)));
            c += 1;
        }
        assert(cols@.take(c as int) =~= cols@);
        assert(entries_view(out@) =~= page_entries(pages@.take(p + 1)));
        p += 1;
    }
    assert(pages@.take(p as int) =~= pages@);
    out
}

/// An entry's id before collisions.
fn base_of(e: &(String, String, Item)) -> (r: String)
    ensures
        r@ == base_id((e.0@, e.1@, e.2@)),
{
    match &e.2.id {
        Some(id) => {
            if chars_of(id.as_str()).len() > 0 {
                return to_owned(id.as_str());
            }
        },
        None => {},
    }
    let mut b = to_owned(role_code_of(e.0.as_str()));
    proof {
        reveal_strlit("-");
    }
    push_str(&mut b, "-");
    let sl = short_slug(e.2.text.as_str());
    push_str(&mut b, sl.as_str());
    b
}

/// The ids of the entries, each unique among those before it.
fn assign_ids(entries: &Vec<(String, String, Item)>) -> (r: Vec<String>)
    requires
        entries@.len() < usize::MAX - 2,
    ensures
        ids_assigned(entries_view(entries@), strs(r@)),
{
    let ghost ev = entries_view(entries@);
    let mut used: Vec<String> = Vec::new();
    let mut k: usize = 0;
    while k < entries.len()
        invariant
            k <= entries@.len() < usize::MAX - 2,
            ev == entries_view(entries@),
            used@.len() == k,
            forall|j: int| 0 <= j < k ==> fresh_step(strs(used@).take(j), base_id(#[trigger] ev[j]), '-', strs(used@)[j]),
        decreases entries.len() - k,
    {
        let base = base_of(&entries[k]);
        assert(ev[k as int] == (entries@[k as int].0@, entries@[k as int].1@, entries@[k as int].2@));
        let id = free_name(&used, &base, '-');
        let ghost old_used = strs(used@);
        assert(svec(used@) == old_used);
        used.push(id);
        proof {
            assert(strs(used@).take(k as int) =~= old_used);
            assert forall|j: int| 0 <= j < k + 1 implies fresh_step(strs(used@).take(j), base_id(#[trigger] ev[j]), '-', strs(used@)[j]) by {
                if j < k {
                    assert(strs(used@).take(j) =~= old_used.take(j));
                    assert(strs(used@)[j] == old_used[j]);
                }
            }
        }
        k += 1;
    }
    used
}

/// The id a link to title `t` exports as: the id of the first entry with
/// that title, else the title itself.
pub open spec fn id_for_title(entries: Seq<Entry>, ids: Seq<Seq<char>>, t: Seq<char>) -> Seq<char>
    decreases entries.len(),
{
    if entries.len() == 0 || ids.len() == 0 {
        t
    } else if entries[0].2.text == t {
        ids[0]
    } else {
        id_for_title(entries.drop_first(), ids.drop_first(), t)
    }
}

/// One `<prefix><value>` line per value.
pub open spec fn lines_of(prefix: Seq<char>, vs: Seq<Seq<char>>) -> Seq<char>
    decreases vs.len(),
{
    if vs.len() == 0 {
        Seq::empty()
    } else {
        lines_of(prefix, vs.drop_last()) + prefix + vs.last() + "\n"@
    }
}

/// The exported category: the item's when not blank; a control without one
/// gets `TBD`.
pub open spec fn category_of(role: Seq<char>, it: ItemModel) -> Option<Seq<char>> {
    match it.category {
        Some(c) if trim(c).len() > 0 => Some(c),
        _ => if role == "control"@ { Some("TBD"@) } else { None },
    }
}

/// The node text of an entry.
pub open spec fn node_text(e: Entry, id: Seq<char>, entries: Seq<Entry>, ids: Seq<Seq<char>>) -> Seq<char> {
    "id: "@ + id + "\n"@ + "role: "@ + e.0 + "\n"@ + "subset: "@ + e.1 + "\n"@ + "title: "@ + e.2.text + "\n"@
        + match category_of(e.0, e.2) {
        Some(c) => "category: "@ + c + "\n"@,
        None => Seq::empty(),
    } + lines_of("serves: "@, e.2.serves.map_values(|t: Seq<char>| id_for_title(entries, ids, t))) + lines_of(
        "at: "@,
        e.2.at,
    ) + match e.2.status {
        Some(st) => "status: "@ + spec_status_word(st) + "\n"@,
        None => Seq::empty(),
    } + lines_of("note: "@, e.2.note)
}

/// Values in double quotes, comma separated.
pub open spec fn quoted_list(vs: Seq<Seq<char>>) -> Seq<char> {
    join(vs.map_values(|v: Seq<char>| "\""@ + v + "\""@), ", "@)
}

/// The distinct subsets the entries of `role` use, in order of first use.
pub open spec fn role_frames(entries: Seq<Entry>, role: Seq<char>) -> Seq<Seq<char>>
    decreases entries.len(),
{
    if entries.len() == 0 {
        Seq::empty()
    } else {
        let before = role_frames(entries.drop_last(), role);
        let e = entries.last();
        if e.0 == role && !before.contains(e.1) { before.push(e.1) } else { before }
    }
}

/// One `<role> = [...]` line per role.
pub open spec fn subset_lines(roles: Seq<Seq<char>>, entries: Seq<Entry>) -> Seq<char>
    decreases roles.len(),
{
    if roles.len() == 0 {
        Seq::empty()
    } else {
        subset_lines(roles.drop_last(), entries) + roles.last() + " = ["@ + quoted_list(
            role_frames(entries, roles.last()),
        ) + "]\n"@
    }
}

/// The exported `arte.toml`: the chain of roles, then each role's subsets.
pub open spec fn export_toml(roles: Seq<Seq<char>>, entries: Seq<Entry>) -> Seq<char> {
    "chain = ["@ + quoted_list(roles) + "]\n\n[subsets]\n"@ + subset_lines(roles, entries)
}

/// The roles: the pages' ids.
pub open spec fn page_roles(pages: Seq<(String, Vec<BoardColumn>)>) -> Seq<Seq<char>> {
    pages.map_values(|p: (String, Vec<BoardColumn>)| p.0@)
}

fn push_lines(out: &mut String, prefix: &str, vs: &Vec<String>)
    ensures
        final(out)@ == old(out)@ + lines_of(prefix@, svec(vs@)),
{
    proof {
        reveal_strlit("\n");
    }
    let mut i: usize = 0;
    while i < vs.len()
        invariant
            i <= vs@.len(),
            out@ == old(out)@ + lines_of(prefix@, svec(vs@).take(i as int)),
        decreases vs.len() - i,
    {
        assert(svec(vs@).take(i + 1).drop_last() =~= svec(vs@).take(i as int));
        push_str(out, prefix);
        push_str(out, vs[i].as_str());
        push_str(out, "\n");
        assert(out@ =~= old(out)@ + lines_of(prefix@, svec(vs@).take(i + 1)));
        i += 1;
    }
    assert(svec(vs@).take(i as int) =~= svec(vs@));
}

/// The id a link to `t` exports as.
fn lookup_id(entries: &Vec<(String, String, Item)>, ids: &Vec<String>, t: &str) -> (r: String)
    requires
        ids@.len() == entries@.len(),
    ensures
        r@ == id_for_title(entries_view(entries@), strs(ids@), t@),
{
    let ghost ev = entries_view(entries@);
    let mut k: usize = 0;
    assert(ev.skip(0) =~= ev);
    assert(strs(ids@).skip(0) =~= strs(ids@));
    while k < entries.len()
        invariant
            k <= entries@.len() == ids@.len(),
            ev == entries_view(entries@),
            id_for_title(ev, strs(ids@), t@) == id_for_title(ev.skip(k as int), strs(ids@).skip(k as int), t@),
        decreases entries.len() - k,
    {
        assert(ev.skip(k as int)[0] == ev[k as int]);
        assert(ev.skip(k as int).drop_first() =~= ev.skip(k + 1));
        assert(strs(ids@).skip(k as int).drop_first() =~= strs(ids@).skip(k + 1));
        if str_eq(entries[k].2.text.as_str(), t) {
            return to_owned(ids[k].as_str());
        }
        k += 1;
    }
    to_owned(t)
}

/// The node text of entry `k`.
fn node_text_of(entries: &Vec<(String, String, Item)>, ids: &Vec<String>, k: usize) -> (r: String)
    requires
        ids@.len() == entries@.len(),
        k < entries@.len(),
    ensures
        r@ == node_text(entries_view(entries@)[k as int], strs(ids@)[k as int], entries_view(entries@), strs(ids@)),
{
    proof {
        reveal_strlit("id: ");
        reveal_strlit("\n");
        reveal_strlit("role: ");
        reveal_strlit("subset: ");
        reveal_strlit("title: ");
        reveal_strlit("category: ");
        reveal_strlit("TBD");
        reveal_strlit("control");
        reveal_strlit("status: ");
    }
    let e = &entries[k];
    let it = &e.2;
    let ghost ev = entries_view(entries@);
    let ghost iv = ids@;
    let mut s = to_owned("id: ");
    push_str(&mut s, ids[k].as_str());
    push_str(&mut s, "\n");
    push_str(&mut s, "role: ");
    push_str(&mut s, e.0.as_str());
    push_str(&mut s, "\n");
    push_str(&mut s, "subset: ");
    push_str(&mut s, e.1.as_str());
    push_str(&mut s, "\n");
    push_str(&mut s, "title: ");
    push_str(&mut s, it.text.as_str());
    push_str(&mut s, "\n");
    let ghost head = s@;
    let cat: Option<String> = match &it.category {
        Some(c) => {
            if chars_of(trim_str(c.as_str()).as_str()).len() > 0 {
                Some(to_owned(c.as_str()))
            } else if str_eq(e.0.as_str(), "control") {
                Some(to_owned("TBD"))
            } else {
                None
            }
        },
        None => {
            if str_eq(e.0.as_str(), "control") {
                Some(to_owned("TBD"))
            } else {
                None
            }
        },
    };
    assert(sopt(cat) == category_of(ev[k as int].0, ev[k as int].2));
    match &cat {
        Some(c) => {
            push_str(&mut s, "category: ");
            push_str(&mut s, c.as_str());
            push_str(&mut s, "\n");
        },
        None => {},
    }
    let ghost after_cat = s@;
    let mut resolved: Vec<String> = Vec::new();
    let mut i: usize = 0;
    while i < it.serves.len()
        invariant
            ids@.len() == entries@.len(),
            k < entries@.len(),
            it == &entries@[k as int].2,
            ev == entries_view(entries@),
            i <= it.serves@.len(),
            svec(resolved@) == svec(it.serves@).take(i as int).map_values(
                |t: Seq<char>| id_for_title(ev, strs(ids@), t),
            ),
        decreases it.serves.len() - i,
    {
        let ghost po = svec(resolved@);
        let x = lookup_id(entries, ids, it.serves[i].as_str());
        resolved.push(x);
        assert(svec(resolved@) =~= po.push(id_for_title(ev, strs(ids@), it.serves@[i as int]@)));
        assert(svec(it.serves@).take(i + 1).map_values(|t: Seq<char>| id_for_title(ev, strs(ids@), t))
            =~= svec(it.serves@).take(i as int).map_values(|t: Seq<char>| id_for_title(ev, strs(ids@), t)).push(
            id_for_title(ev, strs(ids@), it.serves@[i as int]@),
        ));
        i += 1;
    }
    assert(svec(it.serves@).take(i as int) =~= svec(it.serves@));
    push_lines(&mut s, "serves: ", &resolved);
    push_lines(&mut s, "at: ", &it.at);
    match it.status {
        Some(st) => {
            push_str(&mut s, "status: ");
            push_str(&mut s, status_word(st));
            push_str(&mut s, "\n");
        },
        None => {},
    }
    push_lines(&mut s, "note: ", &it.note);
    proof {
        reveal_strlit("serves: ");
        reveal_strlit("at: ");
        reveal_strlit("note: ");
    }
    assert(s@ =~= node_text(ev[k as int], strs(ids@)[k as int], ev, strs(ids@)));
    s
}

fn push_quoted_list(out: &mut String, vs: &Vec<String>)
    ensures
        final(out)@ == old(out)@ + quoted_list(svec(vs@)),
{
    proof {
        reveal_strlit("\"");
        reveal_strlit(", ");
    }
    let mut q: Vec<String> = Vec::new();
    let mut i: usize = 0;
    while i < vs.len()
        invariant
            i <= vs@.len(),
            svec(q@) == svec(vs@).take(i as int).map_values(|v: Seq<char>| "\""@ + v + "\""@),
        decreases vs.len() - i,
    {
        let mut x = to_owned("\"");
        push_str(&mut x, vs[i].as_str());
        push_str(&mut x, "\"");
        let ghost po = svec(q@);
        let ghost xv = x@;
        q.push(x);
        assert(svec(q@) =~= po.push(xv));
        assert(svec(vs@).take(i + 1).map_values(|v: Seq<char>| "\""@ + v + "\""@) =~= svec(vs@).take(
            i as int,
        ).map_values(|v: Seq<char>| "\""@ + v + "\""@).push(xv));
        assert(svec(q@) =~= svec(vs@).take(i + 1).map_values(|v: Seq<char>| "\""@ + v + "\""@));
        i += 1;
    }
    assert(svec(vs@).take(i as int) =~= svec(vs@));
    crate::agent::push_joined(out, &q, ", ");
}

/// The distinct subsets of `role`, in order of first use.
fn frames_of_role(entries: &Vec<(String, String, Item)>, role: &str) -> (r: Vec<String>)
    ensures
        svec(r@) == role_frames(entries_view(entries@), role@),
{
    let ghost ev = entries_view(entries@);
    let mut out: Vec<String> = Vec::new();
    let mut k: usize = 0;
    while k < entries.len()
        invariant
            k <= entries@.len(),
            ev == entries_view(entries@),
            svec(out@) == role_frames(ev.take(k as int), role@),
        decreases entries.len() - k,
    {
        assert(ev.take(k + 1).drop_last() =~= ev.take(k as int));
        assert(ev.take(k + 1).last() == ev[k as int]);
        if str_eq(entries[k].0.as_str(), role) && !crate::graph::contains_string(&out, entries[k].1.as_str()) {
            let ghost po = svec(out@);
            out.push(to_owned(entries[k].1.as_str()));
            assert(svec(out@) =~= po.push(ev[k as int].1));
        }
        k += 1;
    }
    assert(ev.take(k as int) =~= ev);
    out
}

/// The board pages exported as a node graph (the work of `run_export_arte`
/// short of writing files): each item's id and node text, in page, column
/// and item order, and the `arte.toml` text. Ids are the items' own, else
/// `<role code>-<slug>`, made unique with `-<n>`; links name the id of the
/// first item with the linked title.
pub fn export_arte(pages: &Vec<(String, Vec<BoardColumn>)>) -> (r: (Vec<(String, String)>, String))
    requires
        page_entries(pages@).len() < usize::MAX - 2,
    ensures
        r.0@.len() == page_entries(pages@).len(),
        ids_assigned(page_entries(pages@), r.0@.map_values(|f: (String, String)| f.0@)),
        forall|k: int|
            0 <= k < r.0@.len() ==> (#[trigger] r.0@[k]).1@ == node_text(
                page_entries(pages@)[k],
                r.0@[k].0@,
                page_entries(pages@),
                r.0@.map_values(|f: (String, String)| f.0@),
            ),
        r.1@ == export_toml(page_roles(pages@), page_entries(pages@)),
{
    let entries = collect_entries(pages);
    let ids = assign_ids(&entries);
    let ghost ev = entries_view(entries@);
    let mut files: Vec<(String, String)> = Vec::new();
    let mut k: usize = 0;
    while k < entries.len()
        invariant
            k <= entries@.len() == ids@.len(),
            ev == entries_view(entries@),
            files@.len() == k,
            forall|j: int| 0 <= j < k ==> (#[trigger] files@[j]).0@ == strs(ids@)[j],
            forall|j: int|
                0 <= j < k ==> (#[trigger] files@[j]).1@ == node_text(ev[j], strs(ids@)[j], ev, strs(ids@)),
        decreases entries.len() - k,
    {
        let text = node_text_of(&entries, &ids, k);
        files.push((to_owned(ids[k].as_str()), text));
        k += 1;
    }
    assert(files@.map_values(|f: (String, String)| f.0@) =~= strs(ids@));
    proof {
        reveal_strlit("chain = [");
        reveal_strlit("]\n\n[subsets]\n");
        reveal_strlit(" = [");
        reveal_strlit("]\n");
    }
    let mut roles: Vec<String> = Vec::new();
    let mut p: usize = 0;
    while p < pages.len()
        invariant
            p <= pages@.len(),
            svec(roles@) == page_roles(pages@).take(p as int),
        decreases pages.len() - p,
    {
        let ghost po = svec(roles@);
        roles.push(to_owned(pages[p].0.as_str()));
        assert(svec(roles@) =~= po.push(pages@[p as int].0@));
        assert(svec(roles@) =~= page_roles(pages@).take(p + 1));
        p += 1;
    }
    assert(page_roles(pages@).take(p as int) =~= page_roles(pages@));
    let mut toml = to_owned("chain = [");
    push_quoted_list(&mut toml, &roles);
    push_str(&mut toml, "]\n\n[subsets]\n");
    let ghost head = toml@;
    let mut q: usize = 0;
    while q < roles.len()
        invariant
            q <= roles@.len(),
            ev == entries_view(entries@),
            toml@ == head + subset_lines(svec(roles@).take(q as int), ev),
        decreases roles.len() - q,
    {
        assert(svec(roles@).take(q + 1).drop_last() =~= svec(roles@).take(q as int));
        push_str(&mut toml, roles[q].as_str());
        push_str(&mut toml, " = [");
        let fr = frames_of_role(&entries, roles[q].as_str());
        push_quoted_list(&mut toml, &fr);
        push_str(&mut toml, "]\n");
        assert(toml@ =~= head + subset_lines(svec(roles@).take(q + 1), ev));
        q += 1;
    }
    assert(svec(roles@).take(q as int) =~= svec(roles@));
    (files, toml)
}

} // verus!
