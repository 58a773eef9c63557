//! The viewer's reading of an arte project: node files into nodes, the
//! chain and subsets out of `arte.toml`, and the nodes into board pages, one
//! per role with one column per subset.
use vstd::prelude::*;

use crate::arte_view::{by_id, ArteNode};
use crate::command::nonempty;
use crate::conf::{split_bounds, split_on};
use crate::graph::strs;
use crate::ident::{trim_char_end, trim_char_start};
use crate::protocol::{plain_item, sopt, svec, BoardColumn, BoardStyle, Item, ItemModel, Status};
use crate::text::{
    chars_of, find_char, first_index, has_prefix, is_whitespace, is_ws, matches_at, push_str, str_eq, string_of, to_owned,
    trim, trim_start, trim_str, upper_text, uppercase,
};
use crate::state::{dedupe_items, deduped, texts};

verus! {

/// A node as pure data.
pub struct ArteNodeModel {
    pub id: Seq<char>,
    pub role: Seq<char>,
    pub frame: Option<Seq<char>>,
    pub title: Seq<char>,
    pub serves: Seq<Seq<char>>,
    pub status: Option<Seq<char>>,
    pub category: Option<Seq<char>>,
    pub note: Seq<Seq<char>>,
    pub at: Seq<Seq<char>>,
    pub sha: Option<Seq<char>>,
    pub modified: Option<u64>,
}

impl View for ArteNode {
    type V = ArteNodeModel;

    open spec fn view(&self) -> ArteNodeModel {
        ArteNodeModel {
            id: self.id@,
            role: self.role@,
            frame: sopt(self.frame),
            title: self.title@,
            serves: svec(self.serves@),
            status: sopt(self.status),
            category: sopt(self.category),
            note: svec(self.note@),
            at: svec(self.at@),
            sha: sopt(self.sha),
            modified: self.modified,
        }
    }
}

/// A node with nothing read yet.
pub open spec fn blank_node(modified: Option<u64>) -> ArteNodeModel {
    ArteNodeModel {
        id: Seq::empty(),
        role: Seq::empty(),
        frame: None,
        title: Seq::empty(),
        serves: Seq::empty(),
        status: None,
        category: None,
        note: Seq::empty(),
        at: Seq::empty(),
        sha: None,
        modified,
    }
}

/// One `key: value` line applied to a node; blank lines, `#` comments,
/// lines without a colon and unknown keys change nothing. `subset` is the
/// node's frame; `serves`, `note` and `at` repeat.
pub open spec fn node_line(n: ArteNodeModel, line: Seq<char>) -> ArteNodeModel {
    let l = trim(line);
    let i = first_index(l, ':');
    if l.len() == 0 || l[0] == '#' || i >= l.len() {
        n
    } else {
        let k = trim(l.take(i));
        let v = trim(l.skip(i + 1));
        if k == "id"@ {
            ArteNodeModel { id: v, ..n }
        } else if k == "role"@ {
            ArteNodeModel { role: v, ..n }
        } else if k == "subset"@ {
            ArteNodeModel { frame: Some(v), ..n }
        } else if k == "title"@ {
            ArteNodeModel { title: v, ..n }
        } else if k == "serves"@ {
            ArteNodeModel { serves: n.serves.push(v), ..n }
        } else if k == "status"@ {
            ArteNodeModel { status: Some(v), ..n }
        } else if k == "category"@ {
            ArteNodeModel { category: Some(v), ..n }
        } else if k == "note"@ {
            ArteNodeModel { note: n.note.push(v), ..n }
        } else if k == "at"@ {
            ArteNodeModel { at: n.at.push(v), ..n }
        } else if k == "sha"@ {
            ArteNodeModel { sha: Some(v), ..n }
        } else {
            n
        }
    }
}

/// The lines applied in order.
pub open spec fn node_lines(ls: Seq<Seq<char>>, n: ArteNodeModel) -> ArteNodeModel
    decreases ls.len(),
{
    if ls.len() == 0 {
        n
    } else {
        node_line(node_lines(ls.drop_last(), n), ls.last())
    }
}

/// The node a file holds, if it names an id.
pub open spec fn read_node(text: Seq<char>, modified: Option<u64>) -> Option<ArteNodeModel> {
    let n = node_lines(split_on(text, '\n'), blank_node(modified));
    if n.id.len() > 0 { Some(n) } else { None }
}

fn apply_line(n: &mut ArteNode, line: &str)
    ensures
        final(n)@ == node_line(old(n)@, line@),
{
    proof {
        reveal_strlit("id");
        reveal_strlit("role");
        reveal_strlit("subset");
        reveal_strlit("title");
        reveal_strlit("serves");
        reveal_strlit("status");
        reveal_strlit("category");
        reveal_strlit("note");
        reveal_strlit("at");
        reveal_strlit("sha");
    }
    let t = trim_str(line);
    let v = chars_of(t.as_str());
    if v.len() == 0 || v[0] == '#' {
        return;
    }
    let i = find_char(&v, ':', 0, v.len());
    assert(v@.subrange(0, v@.len() as int) =~= t@);
    if i >= v.len() {
        return;
    }
    let k = trim_str(string_of(&v, 0, i).as_str());
    let val = trim_str(string_of(&v, i + 1, v.len()).as_str());
    assert(v@.subrange(0, i as int) =~= t@.take(i as int));
    assert(v@.subrange(i + 1, v@.len() as int) =~= t@.skip(i + 1));
    let kk = k.as_str();
    let ghost vv = val@;
    if str_eq(kk, "id") {
        n.id = val;
    } else if str_eq(kk, "role") {
        n.role = val;
    } else if str_eq(kk, "subset") {
        n.frame = Some(val);
    } else if str_eq(kk, "title") {
        n.title = val;
    } else if str_eq(kk, "serves") {
        n.serves.push(val);
        assert(svec(n.serves@) =~= old(n)@.serves.push(vv));
    } else if str_eq(kk, "status") {
        n.status = Some(val);
    } else if str_eq(kk, "category") {
        n.category = Some(val);
    } else if str_eq(kk, "note") {
        n.note.push(val);
        assert(svec(n.note@) =~= old(n)@.note.push(vv));
    } else if str_eq(kk, "at") {
        n.at.push(val);
        assert(svec(n.at@) =~= old(n)@.at.push(vv));
    } else if str_eq(kk, "sha") {
        n.sha = Some(val);
    }
}

/// Reads one `.node` file (`key: value` lines, repeated keys for lists);
/// `modified` is the file's time. A file that names no id holds no node
/// (`load_arte_nodes`, per file).
pub fn parse_arte_node(text: &str, modified: Option<u64>) -> (r: Option<ArteNode>)
    ensures
        match r {
            Some(n) => read_node(text@, modified) == Some(n@),
            None => read_node(text@, modified) is None,
        },
{
    let mut n = ArteNode {
        id: String::new(),
        role: String::new(),
        frame: None,
        title: String::new(),
        serves: Vec::new(),
        status: None,
        category: None,
        note: Vec::new(),
        at: Vec::new(),
        sha: None,
        modified,
    };
    assert(n@ == blank_node(modified)) by {
        assert(svec(n.serves@) =~= Seq::<Seq<char>>::empty());
        assert(svec(n.note@) =~= Seq::<Seq<char>>::empty());
        assert(svec(n.at@) =~= Seq::<Seq<char>>::empty());
    }
    let v = chars_of(text);
    let b = split_bounds(&v, '\n', 0, v.len());
    assert(v@.subrange(0, v@.len() as int) =~= text@);
    let ghost ls = split_on(text@, '\n');
    let mut k: usize = 0;
    while k < b.len()
        invariant
            k <= b@.len(),
            v@ == text@,
            ls == split_on(text@, '\n'),
            b@.len() == ls.len(),
            forall|q: int|
                0 <= q < b@.len() ==> (#[trigger] b@[q]).0 <= b@[q].1 <= v@.len() && v@.subrange(
                    b@[q].0 as int,
                    b@[q].1 as int,
                ) == ls[q],
            n@ == node_lines(ls.take(k as int), blank_node(modified)),
        decreases b.len() - k,
    {
        let (x, y) = b[k];
        let line = string_of(&v, x, y);
        assert(ls.take(k + 1).drop_last() =~= ls.take(k as int));
        apply_line(&mut n, line.as_str());
        k += 1;
    }
    assert(ls.take(k as int) =~= ls);
    if chars_of(n.id.as_str()).len() > 0 {
        Some(n)
    } else {
        None
    }
}

// ─── arte.toml ─────────────────────────────────────────────────────────────

pub open spec fn is_bracket(c: char) -> bool {
    c == '[' || c == ']'
}

pub open spec fn strip_brackets_start(s: Seq<char>) -> Seq<char>
    decreases s.len(),
{
    if s.len() > 0 && is_bracket(s[0]) { strip_brackets_start(s.drop_first()) } else { s }
}

pub open spec fn strip_brackets_end(s: Seq<char>) -> Seq<char>
    decreases s.len(),
{
    if s.len() > 0 && is_bracket(s.last()) { strip_brackets_end(s.drop_last()) } else { s }
}

/// `str::trim_matches(['[', ']'])`.
pub open spec fn strip_brackets(s: Seq<char>) -> Seq<char> {
    strip_brackets_end(strip_brackets_start(s))
}

/// `str::trim_matches('"')`.
pub open spec fn strip_quotes(s: Seq<char>) -> Seq<char> {
    trim_char_end(trim_char_start(s, '"'), '"')
}

/// The non-empty values of a `[ "a", "b" ]` list.
pub open spec fn list_values(v: Seq<char>) -> Seq<Seq<char>> {
    nonempty(split_on(strip_brackets(trim(v)), ',').map_values(|x: Seq<char>| strip_quotes(trim(x))))
}

/// Bounds of `strip_brackets(v[lo..hi])`.
fn strip_brackets_range(v: &Vec<char>, lo: usize, hi: usize) -> (r: (usize, usize))
    requires
        lo <= hi <= v.len(),
    ensures
        lo <= r.0 <= r.1 <= hi,
        v@.subrange(r.0 as int, r.1 as int) == strip_brackets(v@.subrange(lo as int, hi as int)),
{
    let mut a: usize = lo;
    while a < hi && (v[a] == '[' || v[a] == ']')
        invariant
            lo <= a <= hi <= v.len(),
            strip_brackets_start(v@.subrange(lo as int, hi as int)) == strip_brackets_start(
                v@.subrange(a as int, hi as int),
            ),
        decreases hi - a,
    {
        assert(v@.subrange(a as int, hi as int).drop_first() =~= v@.subrange(a + 1, hi as int));
        a += 1;
    }
    let mut b: usize = hi;
    while b > a && (v[b - 1] == '[' || v[b - 1] == ']')
        invariant
            lo <= a <= b <= hi <= v.len(),
            strip_brackets_end(v@.subrange(a as int, hi as int)) == strip_brackets_end(
                v@.subrange(a as int, b as int),
            ),
        decreases b - a,
    {
        assert(v@.subrange(a as int, b as int).drop_last() =~= v@.subrange(a as int, b - 1));
        b -= 1;
    }
    (a, b)
}

/// Bounds of `strip_quotes(v[lo..hi])`.
fn strip_quotes_range(v: &Vec<char>, lo: usize, hi: usize) -> (r: (usize, usize))
    requires
        lo <= hi <= v.len(),
    ensures
        lo <= r.0 <= r.1 <= hi,
        v@.subrange(r.0 as int, r.1 as int) == strip_quotes(v@.subrange(lo as int, hi as int)),
{
    let mut a: usize = lo;
    while a < hi && v[a] == '"'
        invariant
            lo <= a <= hi <= v.len(),
            trim_char_start(v@.subrange(lo as int, hi as int), '"') == trim_char_start(
                v@.subrange(a as int, hi as int),
                '"',
            ),
        decreases hi - a,
    {
        assert(v@.subrange(a as int, hi as int).drop_first() =~= v@.subrange(a + 1, hi as int));
        a += 1;
    }
    let mut b: usize = hi;
    while b > a && v[b - 1] == '"'
        invariant
            lo <= a <= b <= hi <= v.len(),
            trim_char_end(v@.subrange(a as int, hi as int), '"') == trim_char_end(v@.subrange(a as int, b as int), '"'),
        decreases b - a,
    {
        assert(v@.subrange(a as int, b as int).drop_last() =~= v@.subrange(a as int, b - 1));
        b -= 1;
    }
    (a, b)
}

/// The non-empty values of a `[ "a", "b" ]` list.
pub fn parse_list(s: &str) -> (r: Vec<String>)
    ensures
        strs(r@) == list_values(s@),
{
    let t = trim_str(s);
    let v = chars_of(t.as_str());
    let (a, b) = strip_brackets_range(&v, 0, v.len());
    assert(v@.subrange(0, v@.len() as int) =~= t@);
    let core = string_of(&v, a, b);
    let w = chars_of(core.as_str());
    let parts = split_bounds(&w, ',', 0, w.len());
    assert(w@.subrange(0, w@.len() as int) =~= core@);
    let ghost ps = split_on(core@, ',');
    let ghost mapped = ps.map_values(|x: Seq<char>| strip_quotes(trim(x)));
    let mut out: Vec<String> = Vec::new();
    let mut k: usize = 0;
    while k < parts.len()
        invariant
            k <= parts@.len(),
            w@ == core@,
            ps == split_on(core@, ','),
            mapped == ps.map_values(|x: Seq<char>| strip_quotes(trim(x))),
            parts@.len() == ps.len(),
            forall|q: int|
                0 <= q < parts@.len() ==> (#[trigger] parts@[q]).0 <= parts@[q].1 <= w@.len() && w@.subrange(
                    parts@[q].0 as int,
                    parts@[q].1 as int,
                ) == ps[q],
            strs(out@) == nonempty(mapped.take(k as int)),
        decreases parts.len() - k,
    {
        let (x, y) = parts[k];
        let piece = trim_str(string_of(&w, x, y).as_str());
        let pv = chars_of(piece.as_str());
        let (c, d) = strip_quotes_range(&pv, 0, pv.len());
        assert(pv@.subrange(0, pv@.len() as int) =~= piece@);
        assert(mapped.take(k + 1).drop_last() =~= mapped.take(k as int));
        assert(mapped.take(k + 1).last() == mapped[k as int]);
        if d > c {
            let ghost po = strs(out@);
            out.push(string_of(&pv, c, d));
            assert(strs(out@) =~= po.push(mapped[k as int]));
        }
        k += 1;
    }
    assert(mapped.take(k as int) =~= mapped);
    out
}

/// The chain when `arte.toml` does not declare one.
pub open spec fn default_chain() -> Seq<Seq<char>> {
    seq!["intent"@, "impl"@, "control"@, "validation"@]
}

/// The first line that starts (after white space) with `chain`.
pub open spec fn chain_line(ls: Seq<Seq<char>>) -> Option<Seq<char>>
    decreases ls.len(),
{
    if ls.len() == 0 {
        None
    } else if has_prefix(trim_start(ls[0]), "chain"@) {
        Some(ls[0])
    } else {
        chain_line(ls.drop_first())
    }
}

/// The chain `arte.toml` declares (`chain = [...]`), or the default one
/// when there is no file, no chain line, or no `=` on it.
pub open spec fn spec_arte_chain(toml: Option<Seq<char>>) -> Seq<Seq<char>> {
    match toml {
        None => default_chain(),
        Some(s) => match chain_line(split_on(s, '\n')) {
            None => default_chain(),
            Some(l) => {
                let i = first_index(l, '=');
                if i < l.len() { list_values(l.skip(i + 1)) } else { default_chain() }
            },
        },
    }
}

/// Whether `s` starts with `p` after its leading white space.
fn starts_after_ws(s: &str, p: &str) -> (r: bool)
    ensures
        r == has_prefix(trim_start(s@), p@),
{
    let v = chars_of(s);
    let mut a: usize = 0;
    assert(s@.skip(0) =~= s@);
    while a < v.len() && is_whitespace(v[a])
        invariant
            a <= v@.len(),
            v@ == s@,
            trim_start(s@) == trim_start(s@.skip(a as int)),
        decreases v.len() - a,
    {
        assert(s@.skip(a as int).drop_first() =~= s@.skip(a + 1));
        a += 1;
    }
    assert(trim_start(s@.skip(a as int)) == s@.skip(a as int));
    let q = chars_of(p);
    if q.len() > v.len() - a {
        return false;
    }
    let r = matches_at(&v, a, &q);
    assert(s@.skip(a as int).take(q@.len() as int) =~= s@.subrange(a as int, a + q@.len()));
    r
}

/// The chain of roles: from the text of `arte.toml`, if any.
pub fn arte_chain(toml: Option<&str>) -> (r: Vec<String>)
    ensures
        strs(r@) == spec_arte_chain(match toml {
            Some(s) => Some(s@),
            None => None,
        }),
{
    proof {
        reveal_strlit("intent");
        reveal_strlit("impl");
        reveal_strlit("control");
        reveal_strlit("validation");
        reveal_strlit("chain");
    }
    let mut dflt: Vec<String> = Vec::new();
    dflt.push(to_owned("intent"));
    dflt.push(to_owned("impl"));
    dflt.push(to_owned("control"));
    dflt.push(to_owned("validation"));
    assert(strs(dflt@) =~= default_chain());
    let s = match toml {
        Some(s) => s,
        None => {
            return dflt;
        },
    };
    let v = chars_of(s);
    let b = split_bounds(&v, '\n', 0, v.len());
    assert(v@.subrange(0, v@.len() as int) =~= s@);
    let ghost ls = split_on(s@, '\n');
    let mut k: usize = 0;
    assert(ls.skip(0) =~= ls);
    while k < b.len()
        invariant
            k <= b@.len(),
            v@ == s@,
            ls == split_on(s@, '\n'),
            b@.len() == ls.len(),
            forall|q: int|
                0 <= q < b@.len() ==> (#[trigger] b@[q]).0 <= b@[q].1 <= v@.len() && v@.subrange(
                    b@[q].0 as int,
                    b@[q].1 as int,
                ) == ls[q],
            chain_line(ls) == chain_line(ls.skip(k as int)),
            strs(dflt@) == default_chain(),
            toml == Some(s),
        decreases b.len() - k,
    {
        proof {
            reveal_strlit("chain");
        }
        assert(ls.skip(k as int)[0] == ls[k as int]);
        assert(ls.skip(k as int).drop_first() =~= ls.skip(k + 1));
        let (x, y) = b[k];
        let line = string_of(&v, x, y);
        if starts_after_ws(line.as_str(), "chain") {
            let lv = chars_of(line.as_str());
            let i = find_char(&lv, '=', 0, lv.len());
            assert(lv@.subrange(0, lv@.len() as int) =~= line@);
            if i < lv.len() {
                let rest = string_of(&lv, i + 1, lv.len());
                assert(lv@.subrange(i + 1, lv@.len() as int) =~= line@.skip(i + 1));
                return parse_list(rest.as_str());
            }
            return dflt;
        }
        k += 1;
    }
    dflt
}

/// One line of `arte.toml` for the subsets: a `[section]` header switches
/// the reading on for `[subsets]` and off for any other; inside `[subsets]`
/// a `role = [...]` line with at least one value records them.
pub open spec fn frames_step(st: (bool, Seq<(Seq<char>, Seq<Seq<char>>)>), line: Seq<char>) -> (
    bool,
    Seq<(Seq<char>, Seq<Seq<char>>)>,
) {
    let t = trim(line);
    if t.len() > 0 && t[0] == '[' {
        (t == "[subsets]"@, st.1)
    } else if !st.0 {
        st
    } else {
        let i = first_index(t, '=');
        if i < t.len() && list_values(t.skip(i + 1)).len() > 0 {
            (true, st.1.push((trim(t.take(i)), list_values(t.skip(i + 1)))))
        } else {
            st
        }
    }
}

pub open spec fn frames_lines(ls: Seq<Seq<char>>) -> (bool, Seq<(Seq<char>, Seq<Seq<char>>)>)
    decreases ls.len(),
{
    if ls.len() == 0 {
        (false, Seq::empty())
    } else {
        frames_step(frames_lines(ls.drop_last()), ls.last())
    }
}

/// The subsets `arte.toml` declares per role, in file order.
pub open spec fn spec_arte_frames(toml: Seq<char>) -> Seq<(Seq<char>, Seq<Seq<char>>)> {
    frames_lines(split_on(toml, '\n')).1
}

pub open spec fn frames_view(v: Seq<(String, Vec<String>)>) -> Seq<(Seq<char>, Seq<Seq<char>>)> {
    v.map_values(|f: (String, Vec<String>)| (f.0@, strs(f.1@)))
}

/// The `[subsets]` of `arte.toml`: per role, its subsets.
pub fn arte_frames(toml: &str) -> (r: Vec<(String, Vec<String>)>)
    ensures
        frames_view(r@) == spec_arte_frames(toml@),
{
    proof {
        reveal_strlit("[subsets]");
    }
    let v = chars_of(toml);
    let b = split_bounds(&v, '\n', 0, v.len());
    assert(v@.subrange(0, v@.len() as int) =~= toml@);
    let ghost ls = split_on(toml@, '\n');
    let mut on = false;
    let mut out: Vec<(String, Vec<String>)> = Vec::new();
    let mut k: usize = 0;
    while k < b.len()
        invariant
            k <= b@.len(),
            v@ == toml@,
            ls == split_on(toml@, '\n'),
            b@.len() == ls.len(),
            forall|q: int|
                0 <= q < b@.len() ==> (#[trigger] b@[q]).0 <= b@[q].1 <= v@.len() && v@.subrange(
                    b@[q].0 as int,
                    b@[q].1 as int,
                ) == ls[q],
            (on, frames_view(out@)) == frames_lines(ls.take(k as int)),
        decreases b.len() - k,
    {
        proof {
            reveal_strlit("[subsets]");
        }
        assert(ls.take(k + 1).drop_last() =~= ls.take(k as int));
        let (x, y) = b[k];
        let t = trim_str(string_of(&v, x, y).as_str());
        let tv = chars_of(t.as_str());
        if tv.len() > 0 && tv[0] == '[' {
            on = str_eq(t.as_str(), "[subsets]");
        } else if on {
            let i = find_char(&tv, '=', 0, tv.len());
            assert(tv@.subrange(0, tv@.len() as int) =~= t@);
            if i < tv.len() {
                let rest = string_of(&tv, i + 1, tv.len());
                assert(tv@.subrange(i + 1, tv@.len() as int) =~= t@.skip(i + 1));
                let fr = parse_list(rest.as_str());
                if fr.len() > 0 {
                    let key = trim_str(string_of(&tv, 0, i).as_str());
                    assert(tv@.subrange(0, i as int) =~= t@.take(i as int));
                    let ghost po = frames_view(out@);
                    let ghost e = (key@, strs(fr@));
                    out.push((key, fr));
                    assert(frames_view(out@) =~= po.push(e));
                }
            }
        }
        k += 1;
    }
    assert(ls.take(k as int) =~= ls);
    out
}

// ─── nodes into pages ──────────────────────────────────────────────────────

pub open spec fn models(ns: Seq<ArteNode>) -> Seq<ArteNodeModel> {
    ns.map_values(|n: ArteNode| n@)
}

/// The roles: the chain, then each other role a node has, in node order.
pub open spec fn roles_of(chain: Seq<Seq<char>>, ns: Seq<ArteNodeModel>) -> Seq<Seq<char>>
    decreases ns.len(),
{
    if ns.len() == 0 {
        chain
    } else {
        let r = roles_of(chain, ns.drop_last());
        if r.contains(ns.last().role) { r } else { r.push(ns.last().role) }
    }
}

/// Each role once, at its last place (a later page of a role replaces an
/// earlier one).
pub open spec fn last_only(rs: Seq<Seq<char>>) -> Seq<Seq<char>>
    decreases rs.len(),
{
    if rs.len() == 0 {
        rs
    } else if rs.drop_first().contains(rs[0]) {
        last_only(rs.drop_first())
    } else {
        seq![rs[0]] + last_only(rs.drop_first())
    }
}

/// The subsets declared for `role` (the last declaration wins).
pub open spec fn frames_for(fs: Seq<(Seq<char>, Seq<Seq<char>>)>, role: Seq<char>) -> Seq<Seq<char>>
    decreases fs.len(),
{
    if fs.len() == 0 {
        Seq::empty()
    } else if fs.last().0 == role {
        fs.last().1
    } else {
        frames_for(fs.drop_last(), role)
    }
}

/// A node's subset, `general` when it names none.
pub open spec fn frame_or_general(n: ArteNodeModel) -> Seq<char> {
    match n.frame {
        Some(f) => f,
        None => "general"@,
    }
}

/// The declared subsets, then each other subset a node of the role uses.
pub open spec fn role_frames_from(declared: Seq<Seq<char>>, ns: Seq<ArteNodeModel>, role: Seq<char>) -> Seq<Seq<char>>
    decreases ns.len(),
{
    if ns.len() == 0 {
        declared
    } else {
        let fr = role_frames_from(declared, ns.drop_last(), role);
        let n = ns.last();
        if n.role == role && !fr.contains(frame_or_general(n)) { fr.push(frame_or_general(n)) } else { fr }
    }
}

/// A role's columns: its subsets, or `general` alone when it has none.
pub open spec fn columns_for(fs: Seq<(Seq<char>, Seq<Seq<char>>)>, ns: Seq<ArteNodeModel>, role: Seq<char>) -> Seq<Seq<char>> {
    let fr = role_frames_from(frames_for(fs, role), ns, role);
    if fr.len() == 0 { seq!["general"@] } else { fr }
}

/// A node's status word as a status (unknown words are none).
pub open spec fn status_of_word(w: Option<Seq<char>>) -> Option<Status> {
    match w {
        Some(s) => if s == "ok"@ {
            Some(Status::Okay)
        } else if s == "ko"@ || s == "fail"@ {
            Some(Status::Fail)
        } else if s == "pending"@ {
            Some(Status::Pending)
        } else if s == "justified"@ {
            Some(Status::Justified)
        } else {
            None
        },
        None => None,
    }
}

/// A link shown by title: the title of the last node with that id, else the
/// id itself.
pub open spec fn link_title(ns: Seq<ArteNodeModel>, id: Seq<char>) -> Seq<char>
    decreases ns.len(),
{
    if ns.len() == 0 {
        id
    } else if ns.last().id == id {
        ns.last().title
    } else {
        link_title(ns.drop_last(), id)
    }
}

/// A node as a board item.
pub open spec fn node_item(n: ArteNodeModel, ns: Seq<ArteNodeModel>) -> ItemModel {
    ItemModel {
        text: n.title,
        serves: n.serves.map_values(|s: Seq<char>| link_title(ns, s)),
        status: status_of_word(n.status),
        note: n.note,
        attachments: Seq::empty(),
        at: n.at,
        category: n.category,
        id: if n.id.len() > 0 { Some(n.id) } else { None },
        comment: None,
        derived: false,
        sha: n.sha,
        modified: n.modified,
    }
}

/// The items of one column: the role's nodes in that subset, in node order.
pub open spec fn column_items(ns: Seq<ArteNodeModel>, all: Seq<ArteNodeModel>, role: Seq<char>, frame: Seq<char>) -> Seq<ItemModel>
    decreases ns.len(),
{
    if ns.len() == 0 {
        Seq::empty()
    } else {
        let before = column_items(ns.drop_last(), all, role, frame);
        let n = ns.last();
        if n.role == role && frame_or_general(n) == frame { before.push(node_item(n, all)) } else { before }
    }
}

/// The board style a role is shown in.
pub open spec fn role_style(role: Seq<char>) -> BoardStyle {
    if role == "impl"@ {
        BoardStyle::Cards
    } else if role == "control"@ {
        BoardStyle::Panel
    } else if role == "validation"@ {
        BoardStyle::Sheet
    } else {
        BoardStyle::List
    }
}

/// A built column: the subset's uppercase header, the subset as key, and the
/// subset's items with titles made unique within the column.
pub open spec fn column_built(c: BoardColumn, ns: Seq<ArteNodeModel>, role: Seq<char>, frame: Seq<char>) -> bool {
    let want = column_items(ns, ns, role, frame);
    let got = c.items@.map_values(|i: Item| i@);
    &&& c.header@ == upper_text(frame)
    &&& sopt(c.key) == Some(frame)
    &&& got.len() == want.len()
    &&& deduped(texts(want), texts(got))
    &&& forall|k: int| 0 <= k < want.len() ==> (#[trigger] got[k]) == (ItemModel { text: got[k].text, ..want[k] })
}

fn status_from_word(w: &Option<String>) -> (r: Option<Status>)
    ensures
        r == status_of_word(sopt(*w)),
{
    proof {
        reveal_strlit("ok");
        reveal_strlit("ko");
        reveal_strlit("fail");
        reveal_strlit("pending");
        reveal_strlit("justified");
    }
    match w {
        Some(s) => {
            let s = s.as_str();
            if str_eq(s, "ok") {
                Some(Status::Okay)
            } else if str_eq(s, "ko") || str_eq(s, "fail") {
                Some(Status::Fail)
            } else if str_eq(s, "pending") {
                Some(Status::Pending)
            } else if str_eq(s, "justified") {
                Some(Status::Justified)
            } else {
                None
            }
        },
        None => None,
    }
}

fn title_for_id(ns: &Vec<ArteNode>, id: &str) -> (r: String)
    ensures
        r@ == link_title(models(ns@), id@),
{
    let ghost ms = models(ns@);
    let mut k: usize = ns.len();
    assert(ms.take(k as int) =~= ms);
    while k > 0
        invariant
            k <= ns@.len(),
            ms == models(ns@),
            link_title(ms, id@) == link_title(ms.take(k as int), id@),
        decreases k,
    {
        assert(ms.take(k as int).last() == ns@[k - 1]@);
        assert(ms.take(k as int).drop_last() =~= ms.take(k - 1));
        if str_eq(ns[k - 1].id.as_str(), id) {
            return to_owned(ns[k - 1].title.as_str());
        }
        k -= 1;
    }
    to_owned(id)
}

fn copy_strs(v: &Vec<String>) -> (r: Vec<String>)
    ensures
        strs(r@) == strs(v@),
{
    let mut out: Vec<String> = Vec::new();
    let mut i: usize = 0;
    while i < v.len()
        invariant
            i <= v@.len(),
            strs(out@) == strs(v@).take(i as int),
        decreases v.len() - i,
    {
        let ghost po = strs(out@);
        out.push(to_owned(v[i].as_str()));
        assert(strs(out@) =~= po.push(v@[i as int]@));
        assert(strs(v@).take(i + 1) =~= strs(v@).take(i as int).push(v@[i as int]@));
        i += 1;
    }
    assert(strs(v@).take(i as int) =~= strs(v@));
    out
}

fn copy_opt(o: &Option<String>) -> (r: Option<String>)
    ensures
        sopt(r) == sopt(*o),
{
    match o {
        Some(s) => Some(to_owned(s.as_str())),
        None => None,
    }
}

/// A node as a board item.
fn item_of(n: &ArteNode, ns: &Vec<ArteNode>) -> (r: Item)
    ensures
        r@ == node_item(n@, models(ns@)),
{
    let mut serves: Vec<String> = Vec::new();
    let mut i: usize = 0;
    while i < n.serves.len()
        invariant
            i <= n.serves@.len(),
            svec(serves@) == svec(n.serves@).take(i as int).map_values(|s: Seq<char>| link_title(models(ns@), s)),
        decreases n.serves.len() - i,
    {
        let ghost po = svec(serves@);
        let t = title_for_id(ns, n.serves[i].as_str());
        let ghost tv = t@;
        serves.push(t);
        assert(svec(serves@) =~= po.push(tv));
        assert(svec(n.serves@).take(i + 1).map_values(|s: Seq<char>| link_title(models(ns@), s)) =~= svec(n.serves@).take(
            i as int,
        ).map_values(|s: Seq<char>| link_title(models(ns@), s)).push(tv));
        i += 1;
    }
    assert(svec(n.serves@).take(i as int) =~= svec(n.serves@));
    let id = if chars_of(n.id.as_str()).len() > 0 { Some(to_owned(n.id.as_str())) } else { None };
    let it = Item {
        text: to_owned(n.title.as_str()),
        serves,
        status: status_from_word(&n.status),
        note: copy_strs(&n.note),
        attachments: Vec::new(),
        at: copy_strs(&n.at),
        category: copy_opt(&n.category),
        id,
        comment: None,
        derived: false,
        sha: copy_opt(&n.sha),
        modified: n.modified,
    };
    assert(svec(it.attachments@) =~= Seq::<Seq<char>>::empty());
    assert(svec(it.note@) =~= svec(n.note@));
    assert(svec(it.at@) =~= svec(n.at@));
    it
}

/// The chain, then each other role a node has.
fn all_roles(chain: &Vec<String>, ns: &Vec<ArteNode>) -> (r: Vec<String>)
    ensures
        strs(r@) == roles_of(strs(chain@), models(ns@)),
{
    let ghost ms = models(ns@);
    let mut out = copy_strs(chain);
    let mut k: usize = 0;
    while k < ns.len()
        invariant
            k <= ns@.len(),
            ms == models(ns@),
            strs(out@) == roles_of(strs(chain@), ms.take(k as int)),
        decreases ns.len() - k,
    {
        assert(ms.take(k + 1).drop_last() =~= ms.take(k as int));
        assert(ms.take(k + 1).last() == ns@[k as int]@);
        if !crate::graph::contains_string(&out, ns[k].role.as_str()) {
            let ghost po = strs(out@);
            out.push(to_owned(ns[k].role.as_str()));
            assert(strs(out@) =~= po.push(ns@[k as int].role@));
        }
        k += 1;
    }
    assert(ms.take(k as int) =~= ms);
    out
}

/// Each role once, at its last place.
fn last_places(rs: &Vec<String>) -> (r: Vec<String>)
    ensures
        strs(r@) == last_only(strs(rs@)),
{
    let ghost sv = strs(rs@);
    let mut out: Vec<String> = Vec::new();
    let mut i: usize = 0;
    assert(sv.skip(0) =~= sv);
    assert(strs(out@) + last_only(sv.skip(0)) =~= last_only(sv));
    while i < rs.len()
        invariant
            i <= rs@.len(),
            sv == strs(rs@),
            last_only(sv) == strs(out@) + last_only(sv.skip(i as int)),
        decreases rs.len() - i,
    {
        let ghost t = sv.skip(i as int);
        assert(t[0] == sv[i as int]);
        assert(t.drop_first() =~= sv.skip(i + 1));
        let mut later = false;
        let mut j: usize = i + 1;
        while j < rs.len()
            invariant
                i < j <= rs@.len(),
                sv == strs(rs@),
                later == exists|q: int| i + 1 <= q < j && sv[q] == sv[i as int],
            decreases rs.len() - j,
        {
            let same = str_eq(rs[j].as_str(), rs[i].as_str());
            proof {
                assert(sv[j as int] == rs@[j as int]@);
                assert(sv[i as int] == rs@[i as int]@);
                if same {
                    assert(i + 1 <= j && sv[j as int] == sv[i as int]);
                }
            }
            if same {
                later = true;
            }
            j += 1;
        }
        proof {
            if later {
                let q = choose|q: int| i + 1 <= q < rs@.len() && #[trigger] sv[q] == sv[i as int];
                assert(sv.skip(i + 1)[q - i - 1] == sv[i as int]);
            }
            if sv.skip(i + 1).contains(sv[i as int]) {
                let rest = sv.skip(i + 1);
                let q = choose|q: int| 0 <= q < rest.len() && #[trigger] rest[q] == sv[i as int];
                assert(sv[q + i + 1] == sv[i as int]);
            }
        }
        if !later {
            let ghost po = strs(out@);
            out.push(to_owned(rs[i].as_str()));
            assert(strs(out@) =~= po.push(sv[i as int]));
            assert(po + (seq![sv[i as int]] + last_only(sv.skip(i + 1))) =~= strs(out@) + last_only(sv.skip(i + 1)));
        }
        i += 1;
    }
    assert(last_only(sv.skip(i as int)) =~= Seq::<Seq<char>>::empty());
    assert(strs(out@) + Seq::<Seq<char>>::empty() =~= strs(out@));
    out
}

/// The columns of `role`: declared subsets, then those its nodes use, or
/// `general` alone.
fn role_columns(frames: &Vec<(String, Vec<String>)>, ns: &Vec<ArteNode>, role: &str) -> (r: Vec<String>)
    ensures
        strs(r@) == columns_for(frames_view(frames@), models(ns@), role@),
{
    proof {
        reveal_strlit("general");
    }
    let ghost fv = frames_view(frames@);
    let mut k: usize = frames.len();
    assert(fv.take(k as int) =~= fv);
    let mut fr: Vec<String> = Vec::new();
    let mut found = false;
    while k > 0 && !found
        invariant
            k <= frames@.len(),
            fv == frames_view(frames@),
            found ==> strs(fr@) == frames_for(fv, role@),
            !found ==> frames_for(fv, role@) == frames_for(fv.take(k as int), role@),
            !found ==> fr@.len() == 0,
        decreases 2 * k + (if found { 0int } else { 1int }),
    {
        assert(fv.take(k as int).last() == (frames@[k - 1].0@, strs(frames@[k - 1].1@)));
        assert(fv.take(k as int).drop_last() =~= fv.take(k - 1));
        if str_eq(frames[k - 1].0.as_str(), role) {
            fr = copy_strs(&frames[k - 1].1);
            found = true;
        } else {
            k -= 1;
        }
    }
    proof {
        if !found {
            assert(k == 0);
            assert(fv.take(0) =~= Seq::<(Seq<char>, Seq<Seq<char>>)>::empty());
            assert(frames_for(fv, role@) == Seq::<Seq<char>>::empty());
            assert(fr@.len() == 0);
            assert(strs(fr@) =~= frames_for(fv, role@));
        }
    }
    assert(strs(fr@) == frames_for(fv, role@));
    let ghost declared = strs(fr@);
    let ghost ms = models(ns@);
    let mut j: usize = 0;
    while j < ns.len()
        invariant
            j <= ns@.len(),
            ms == models(ns@),
            strs(fr@) == role_frames_from(declared, ms.take(j as int), role@),
        decreases ns.len() - j,
    {
        proof {
            reveal_strlit("general");
        }
        assert(ms.take(j + 1).drop_last() =~= ms.take(j as int));
        assert(ms.take(j + 1).last() == ns@[j as int]@);
        let n = &ns[j];
        if str_eq(n.role.as_str(), role) {
            let f = match &n.frame {
                Some(f) => to_owned(f.as_str()),
                None => to_owned("general"),
            };
            if !crate::graph::contains_string(&fr, f.as_str()) {
                let ghost po = strs(fr@);
                let ghost fv2 = f@;
                fr.push(f);
                assert(strs(fr@) =~= po.push(fv2));
            }
        }
        j += 1;
    }
    assert(ms.take(j as int) =~= ms);
    if fr.len() == 0 {
        let mut g: Vec<String> = Vec::new();
        g.push(to_owned("general"));
        assert(strs(g@) =~= seq!["general"@]);
        return g;
    }
    fr
}

/// One column of `role`'s page: the subset's nodes as items, titles made
/// unique.
fn column_of(ns: &Vec<ArteNode>, role: &str, frame: &str) -> (r: BoardColumn)
    requires
        ns@.len() < usize::MAX - 3,
    ensures
        column_built(r, models(ns@), role@, frame@),
{
    proof {
        reveal_strlit("general");
    }
    let ghost ms = models(ns@);
    let mut items: Vec<Item> = Vec::new();
    let mut k: usize = 0;
    while k < ns.len()
        invariant
            k <= ns@.len() < usize::MAX - 3,
            ms == models(ns@),
            items@.len() <= k,
            items@.map_values(|i: Item| i@) == column_items(ms.take(k as int), ms, role@, frame@),
        decreases ns.len() - k,
    {
        proof {
            reveal_strlit("general");
        }
        assert(ms.take(k + 1).drop_last() =~= ms.take(k as int));
        assert(ms.take(k + 1).last() == ns@[k as int]@);
        let n = &ns[k];
        let in_frame = match &n.frame {
            Some(f) => str_eq(f.as_str(), frame),
            None => str_eq("general", frame),
        };
        if str_eq(n.role.as_str(), role) && in_frame {
            let ghost po = items@.map_values(|i: Item| i@);
            let it = item_of(n, ns);
            let ghost iv = it@;
            items.push(it);
            assert(items@.map_values(|i: Item| i@) =~= po.push(iv));
        }
        k += 1;
    }
    assert(ms.take(k as int) =~= ms);
    let ghost want = items@.map_values(|i: Item| i@);
    let mut col = BoardColumn { header: uppercase(frame), key: Some(to_owned(frame)), items };
    dedupe_items(&mut col);
    proof {
        let got = col.items@.map_values(|i: Item| i@);
        assert forall|q: int| 0 <= q < want.len() implies (#[trigger] got[q]) == (ItemModel { text: got[q].text, ..want[q] }) by {
            assert(got[q] == col.items@[q]@);
        }
    }
    col
}

/// The arte nodes as board pages: one page per role (the
/// chain's, then any other a node has; a role's last page stands), in the
/// style of its role, with one column per subset (declared ones first, then
/// those the nodes use, `general` for none), links shown by title.
pub fn arte_pages(nodes: &Vec<ArteNode>, chain: &Vec<String>, frames: &Vec<(String, Vec<String>)>) -> (r: Vec<
    (String, BoardStyle, Vec<BoardColumn>),
>)
    requires
        nodes@.len() < usize::MAX - 3,
    ensures
        ({
            let ms = models(nodes@);
            let roles = last_only(roles_of(strs(chain@), ms));
            &&& r@.len() == roles.len()
            &&& forall|p: int|
                0 <= p < roles.len() ==> {
                    let pg = #[trigger] r@[p];
                    let fr = columns_for(frames_view(frames@), ms, roles[p]);
                    &&& pg.0@ == roles[p]
                    &&& pg.1 == role_style(roles[p])
                    &&& pg.2@.len() == fr.len()
                    &&& forall|c: int| 0 <= c < fr.len() ==> column_built(#[trigger] pg.2@[c], ms, roles[p], fr[c])
                }
        }),
{
    proof {
        reveal_strlit("impl");
        reveal_strlit("control");
        reveal_strlit("validation");
    }
    let ghost ms = models(nodes@);
    let all = all_roles(chain, nodes);
    let roles = last_places(&all);
    let ghost rv = strs(roles@);
    let mut out: Vec<(String, BoardStyle, Vec<BoardColumn>)> = Vec::new();
    let mut p: usize = 0;
    while p < roles.len()
        invariant
            p <= roles@.len(),
            nodes@.len() < usize::MAX - 3,
            ms == models(nodes@),
            rv == strs(roles@),
            out@.len() == p,
            forall|q: int|
                0 <= q < p ==> {
                    let pg = #[trigger] out@[q];
                    let fr = columns_for(frames_view(frames@), ms, rv[q]);
                    &&& pg.0@ == rv[q]
                    &&& pg.1 == role_style(rv[q])
                    &&& pg.2@.len() == fr.len()
                    &&& forall|c: int| 0 <= c < fr.len() ==> column_built(#[trigger] pg.2@[c], ms, rv[q], fr[c])
                },
        decreases roles.len() - p,
    {
        proof {
            reveal_strlit("impl");
            reveal_strlit("control");
            reveal_strlit("validation");
        }
        let role = roles[p].as_str();
        let fr = role_columns(frames, nodes, role);
        let mut cols: Vec<BoardColumn> = Vec::new();
        let mut c: usize = 0;
        while c < fr.len()
            invariant
                c <= fr@.len(),
                nodes@.len() < usize::MAX - 3,
                ms == models(nodes@),
                cols@.len() == c,
                forall|q: int| 0 <= q < c ==> column_built(#[trigger] cols@[q], ms, role@, fr@[q]@),
            decreases fr.len() - c,
        {
            let col = column_of(nodes, role, fr[c].as_str());
            cols.push(col);
            c += 1;
        }
        let style = if str_eq(role, "impl") {
            BoardStyle::Cards
        } else if str_eq(role, "control") {
            BoardStyle::Panel
        } else if str_eq(role, "validation") {
            BoardStyle::Sheet
        } else {
            BoardStyle::List
        };
        let ghost po = out@;
        out.push((to_owned(role), style, cols));
        assert forall|q: int| 0 <= q < p + 1 implies {
            let pg = #[trigger] out@[q];
            let fr2 = columns_for(frames_view(frames@), ms, rv[q]);
            &&& pg.0@ == rv[q]
            &&& pg.1 == role_style(rv[q])
            &&& pg.2@.len() == fr2.len()
            &&& forall|c2: int| 0 <= c2 < fr2.len() ==> column_built(#[trigger] pg.2@[c2], ms, rv[q], fr2[c2])
        } by {
            if q < p {
                assert(out@[q] == po[q]);
            } else {
                assert(strs(fr@) == columns_for(frames_view(frames@), ms, rv[q]));
                assert forall|c2: int| 0 <= c2 < fr@.len() implies column_built(#[trigger] out@[q].2@[c2], ms, rv[q], strs(fr@)[c2]) by {
                    assert(strs(fr@)[c2] == fr@[c2]@);
                }
            }
        }
        p += 1;
    }
    out
}

} // verus!
