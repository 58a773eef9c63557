//! `arte.toml`: the role chain, the subsets of each role and their axis labels,
//! the `[verify]` environment contract, the `[lanes]` commands and `[implement]`.
//! The file is read by the caller; these functions parse its text.
use vstd::prelude::*;

use crate::text::{
    chars_of, find_char, first_index, lemma_first_index, str_eq, string_of, to_owned, trim,
    trim_range,
};

verus! {

// ─── splitting ──────────────────────────────────────────────────────────────

/// The pieces of `s` between occurrences of `c` (`str::split`): always at least one.
pub open spec fn split_on(s: Seq<char>, c: char) -> Seq<Seq<char>>
    decreases s.len(),
{
    let i = first_index(s, c);
    if i < s.len() {
        proof {
            lemma_first_index(s, c);
        }
        seq![s.take(i)] + split_on(s.skip(i + 1), c)
    } else {
        seq![s]
    }
}

/// A split always has at least one piece.
pub proof fn lemma_split_nonempty(s: Seq<char>, c: char)
    ensures
        split_on(s, c).len() >= 1,
{
}

/// Bounds of the pieces of `v[lo..hi]` split at `c`.
pub fn split_bounds(v: &Vec<char>, c: char, lo: usize, hi: usize) -> (r: Vec<(usize, usize)>)
    requires
        lo <= hi <= v.len(),
    ensures
        r@.len() == split_on(v@.subrange(lo as int, hi as int), c).len(),
        forall|k: int|
            0 <= k < r@.len() ==> lo <= (#[trigger] r@[k]).0 <= r@[k].1 <= hi && v@.subrange(
                r@[k].0 as int,
                r@[k].1 as int,
            ) == split_on(v@.subrange(lo as int, hi as int), c)[k],
{
    let mut out: Vec<(usize, usize)> = Vec::new();
    let mut pos: usize = lo;
    let ghost whole = v@.subrange(lo as int, hi as int);
    loop
        invariant
            lo <= pos <= hi <= v.len(),
            whole == v@.subrange(lo as int, hi as int),
            out@.len() + split_on(v@.subrange(pos as int, hi as int), c).len() == split_on(
                whole,
                c,
            ).len(),
            forall|k: int|
                0 <= k < out@.len() ==> lo <= (#[trigger] out@[k]).0 <= out@[k].1 <= hi
                    && v@.subrange(out@[k].0 as int, out@[k].1 as int) == split_on(whole, c)[k],
            forall|k: int|
                0 <= k < split_on(v@.subrange(pos as int, hi as int), c).len() ==> #[trigger] split_on(
                    v@.subrange(pos as int, hi as int),
                    c,
                )[k] == split_on(whole, c)[out@.len() + k],
        decreases hi - pos,
    {
        let e = find_char(v, c, pos, hi);
        let ghost s = v@.subrange(pos as int, hi as int);
        let ghost rest = split_on(s, c);
        out.push((pos, e));
        proof {
            assert(s.take(e - pos) =~= v@.subrange(pos as int, e as int));
            assert(rest[0] == v@.subrange(pos as int, e as int));
        }
        if e >= hi {
            proof {
                assert(rest.len() == 1);
            }
            return out;
        }
        proof {
            assert(s.skip(e - pos + 1) =~= v@.subrange(e + 1, hi as int));
            let next = split_on(v@.subrange(e + 1, hi as int), c);
            assert(rest =~= seq![s.take(e - pos)] + next);
            assert forall|k: int| 0 <= k < next.len() implies #[trigger] next[k] == split_on(
                whole,
                c,
            )[out@.len() + k] by {
                assert(next[k] == rest[k + 1]);
            }
        }
        pos = e + 1;
    }
}

// ─── trimming sets of characters ────────────────────────────────────────────

pub open spec fn is_bracket(c: char) -> bool {
    c == '[' || c == ']'
}

/// `trim_matches(['[', ']'])`: brackets removed from both ends.
pub open spec fn trim_brackets(s: Seq<char>) -> Seq<char> {
    trim_set_end(trim_set_start(s, true), true)
}

/// `trim_matches('"')`: double quotes removed from both ends.
pub open spec fn trim_quotes(s: Seq<char>) -> Seq<char> {
    trim_set_end(trim_set_start(s, false), false)
}

/// The character set trimmed: brackets when `br`, else the double quote.
pub open spec fn in_set(c: char, br: bool) -> bool {
    if br {
        is_bracket(c)
    } else {
        c == '"'
    }
}

pub open spec fn trim_set_start(s: Seq<char>, br: bool) -> Seq<char>
    decreases s.len(),
{
    if s.len() > 0 && in_set(s[0], br) {
        trim_set_start(s.drop_first(), br)
    } else {
        s
    }
}

pub open spec fn trim_set_end(s: Seq<char>, br: bool) -> Seq<char>
    decreases s.len(),
{
    if s.len() > 0 && in_set(s.last(), br) {
        trim_set_end(s.drop_last(), br)
    } else {
        s
    }
}

fn in_set_exec(c: char, br: bool) -> (r: bool)
    ensures
        r == in_set(c, br),
{
    if br {
        c == '[' || c == ']'
    } else {
        c == '"'
    }
}

/// Bounds of `trim_set_end(trim_set_start(v[lo..hi]))`.
fn trim_set_range(v: &Vec<char>, lo: usize, hi: usize, br: bool) -> (r: (usize, usize))
    requires
        lo <= hi <= v.len(),
    ensures
        lo <= r.0 <= r.1 <= hi,
        v@.subrange(r.0 as int, r.1 as int) == trim_set_end(
            trim_set_start(v@.subrange(lo as int, hi as int), br),
            br,
        ),
{
    let mut a: usize = lo;
    while a < hi && in_set_exec(v[a], br)
        invariant
            lo <= a <= hi <= v.len(),
            trim_set_start(v@.subrange(lo as int, hi as int), br) == trim_set_start(
                v@.subrange(a as int, hi as int),
                br,
            ),
        decreases hi - a,
    {
        assert(v@.subrange(a as int, hi as int).drop_first() =~= v@.subrange(a + 1, hi as int));
        a += 1;
    }
    let mut b: usize = hi;
    while b > a && in_set_exec(v[b - 1], br)
        invariant
            lo <= a <= b <= hi <= v.len(),
            trim_set_end(v@.subrange(a as int, hi as int), br) == trim_set_end(
                v@.subrange(a as int, b as int),
                br,
            ),
        decreases b - a,
    {
        assert(v@.subrange(a as int, b as int).drop_last() =~= v@.subrange(a as int, b - 1));
        b -= 1;
    }
    (a, b)
}

// ─── arrays ─────────────────────────────────────────────────────────────────

/// The non-empty items of the pieces, each trimmed and unquoted.
pub open spec fn arr_items(ps: Seq<Seq<char>>) -> Seq<Seq<char>>
    decreases ps.len(),
{
    if ps.len() == 0 {
        Seq::empty()
    } else {
        let x = trim_quotes(trim(ps.last()));
        if x.len() > 0 {
            arr_items(ps.drop_last()).push(x)
        } else {
            arr_items(ps.drop_last())
        }
    }
}

/// A TOML-ish inline array `["a", "b"]`: brackets stripped, split at `,`, each
/// item trimmed and unquoted, empty items dropped.
pub open spec fn spec_parse_arr(v: Seq<char>) -> Seq<Seq<char>> {
    arr_items(split_on(trim_brackets(v), ','))
}

pub open spec fn strs(v: Seq<String>) -> Seq<Seq<char>> {
    v.map_values(|s: String| s@)
}

fn parse_arr_range(t: &Vec<char>, lo: usize, hi: usize) -> (r: Vec<String>)
    requires
        lo <= hi <= t.len(),
    ensures
        strs(r@) == spec_parse_arr(t@.subrange(lo as int, hi as int)),
{
    let (a, b) = trim_set_range(t, lo, hi, true);
    assert(t@.subrange(a as int, b as int) == trim_brackets(t@.subrange(lo as int, hi as int)));
    let ps = split_bounds(t, ',', a, b);
    let ghost pieces = split_on(t@.subrange(a as int, b as int), ',');
    let mut out: Vec<String> = Vec::new();
    let mut i: usize = 0;
    while i < ps.len()
        invariant
            i <= ps.len(),
            ps@.len() == pieces.len(),
            pieces == split_on(t@.subrange(a as int, b as int), ','),
            a <= b <= t.len(),
            forall|k: int|
                0 <= k < ps@.len() ==> a <= (#[trigger] ps@[k]).0 <= ps@[k].1 <= b && t@.subrange(
                    ps@[k].0 as int,
                    ps@[k].1 as int,
                ) == pieces[k],
            strs(out@) == arr_items(pieces.take(i as int)),
        decreases ps.len() - i,
    {
        let (pa, pb) = ps[i];
        assert(t@.subrange(pa as int, pb as int) == pieces[i as int]);
        let (ta, tb) = trim_range(t, pa, pb);
        let (qa, qb) = trim_set_range(t, ta, tb, false);
        proof {
            assert(pieces.take(i + 1).drop_last() =~= pieces.take(i as int));
            assert(pieces.take(i + 1).last() == pieces[i as int]);
        }
        if qa < qb {
            let item = string_of(t, qa, qb);
            out.push(item);
            assert(strs(out@) =~= arr_items(pieces.take(i as int)).push(item@));
        }
        i += 1;
    }
    assert(pieces.take(i as int) =~= pieces);
    out
}

/// Parse an inline array: `["a", "b"]` gives `a`, `b`.
pub fn parse_arr(v: &str) -> (r: Vec<String>)
    ensures
        strs(r@) == spec_parse_arr(v@),
{
    let t = chars_of(v);
    let r = parse_arr_range(&t, 0, t.len());
    assert(t@.subrange(0, t@.len() as int) =~= v@);
    r
}

// ─── line classification ────────────────────────────────────────────────────

/// The part of a raw line before any `#` comment, trimmed.
pub open spec fn content(raw: Seq<char>) -> Seq<char> {
    trim(raw.take(first_index(raw, '#')))
}

/// A `[section]` header: the trimmed name between the brackets.
pub open spec fn section_of(line: Seq<char>) -> Option<Seq<char>> {
    if line.len() >= 2 && line[0] == '[' && line.last() == ']' {
        Some(trim(line.subrange(1, line.len() - 1)))
    } else {
        None
    }
}

/// A `key = value` pair: both sides trimmed, split at the first `=`.
pub open spec fn pair_of(line: Seq<char>) -> Option<(Seq<char>, Seq<char>)> {
    if first_index(line, '=') < line.len() {
        Some((trim(line.take(first_index(line, '='))), trim(line.skip(first_index(line, '=') + 1))))
    } else {
        None
    }
}

/// Bounds of one raw line's content, its section name, and its key/value.
struct LineParts {
    a: usize,
    b: usize,
    section: Option<(usize, usize)>,
    pair: Option<(usize, usize, usize, usize)>,
}

fn line_parts(t: &Vec<char>, lo: usize, hi: usize) -> (r: LineParts)
    requires
        lo <= hi <= t.len(),
    ensures
        lo <= r.a <= r.b <= hi,
        t@.subrange(r.a as int, r.b as int) == content(t@.subrange(lo as int, hi as int)),
        match r.section {
            Some((sa, sb)) => sa <= sb <= t.len() && section_of(
                content(t@.subrange(lo as int, hi as int)),
            ) == Some(t@.subrange(sa as int, sb as int)),
            None => section_of(content(t@.subrange(lo as int, hi as int))) is None,
        },
        match r.pair {
            Some((ka, kb, va, vb)) => ka <= kb <= t.len() && va <= vb <= t.len() && pair_of(
                content(t@.subrange(lo as int, hi as int)),
            ) == Some((t@.subrange(ka as int, kb as int), t@.subrange(va as int, vb as int))),
            None => pair_of(content(t@.subrange(lo as int, hi as int))) is None,
        },
{
    let h = find_char(t, '#', lo, hi);
    let ghost raw = t@.subrange(lo as int, hi as int);
    assert(raw.take(h - lo) =~= t@.subrange(lo as int, h as int));
    let (a, b) = trim_range(t, lo, h);
    let ghost line = t@.subrange(a as int, b as int);
    let section = if b - a >= 2 && t[a] == '[' && t[b - 1] == ']' {
        let (sa, sb) = trim_range(t, a + 1, b - 1);
        assert(line.subrange(1, line.len() - 1) =~= t@.subrange(a + 1, b - 1));
        Some((sa, sb))
    } else {
        None
    };
    let e = find_char(t, '=', a, b);
    let pair = if e < b {
        let (ka, kb) = trim_range(t, a, e);
        let (va, vb) = trim_range(t, e + 1, b);
        assert(line.take(e - a) =~= t@.subrange(a as int, e as int));
        assert(line.skip(e - a + 1) =~= t@.subrange(e + 1, b as int));
        Some((ka, kb, va, vb))
    } else {
        None
    };
    LineParts { a, b, section, pair }
}

fn eq_range(t: &Vec<char>, lo: usize, hi: usize, s: &str) -> (r: bool)
    requires
        lo <= hi <= t.len(),
    ensures
        r == (t@.subrange(lo as int, hi as int) == s@),
{
    let x = string_of(t, lo, hi);
    str_eq(x.as_str(), s)
}

// ─── the role chain and subsets ─────────────────────────────────────────────

/// Key/value list where a later `put` of a key replaces its value in place.
pub open spec fn put<V>(m: Seq<(Seq<char>, V)>, k: Seq<char>, v: V) -> Seq<(Seq<char>, V)> {
    if exists|i: int| 0 <= i < m.len() && m[i].0 == k {
        m.update(choose|i: int| 0 <= i < m.len() && m[i].0 == k, (k, v))
    } else {
        m.push((k, v))
    }
}

/// The value stored under `k`.
pub open spec fn lookup<V>(m: Seq<(Seq<char>, V)>, k: Seq<char>) -> Option<V> {
    if exists|i: int| 0 <= i < m.len() && m[i].0 == k {
        Some(m[choose|i: int| 0 <= i < m.len() && m[i].0 == k].1)
    } else {
        None
    }
}

/// Keys are unique.
pub open spec fn keys_unique<V>(m: Seq<(Seq<char>, V)>) -> bool {
    forall|i: int, j: int| 0 <= i < j < m.len() ==> #[trigger] m[i].0 != #[trigger] m[j].0
}

/// `[subsets]` and the role chain: what `read_conf` gives.
pub struct Conf {
    pub chain: Vec<String>,
    pub subsets: Vec<(String, Vec<String>)>,
    pub subset_axis: Vec<(String, String)>,
}

/// The pure model of a `Conf`.
#[verifier::ext_equal]
pub struct ConfModel {
    pub chain: Seq<Seq<char>>,
    pub subsets: Seq<(Seq<char>, Seq<Seq<char>>)>,
    pub axis: Seq<(Seq<char>, Seq<char>)>,
}

impl Conf {
    pub open spec fn model(&self) -> ConfModel {
        ConfModel {
            chain: strs(self.chain@),
            subsets: self.subsets@.map_values(|e: (String, Vec<String>)| (e.0@, strs(e.1@))),
            axis: self.subset_axis@.map_values(|e: (String, String)| (e.0@, e.1@)),
        }
    }
}

/// Parser state: the model so far and the current section.
pub struct ConfState {
    pub m: ConfModel,
    pub sect: Seq<char>,
}

/// One line of `arte.toml` applied to the state.
pub open spec fn conf_line(st: ConfState, raw: Seq<char>) -> ConfState {
    let line = content(raw);
    match section_of(line) {
        Some(s) => ConfState { m: st.m, sect: s },
        None => match pair_of(line) {
            Some((k, v)) => if k == "chain"@ && st.sect.len() == 0 {
                ConfState { m: ConfModel { chain: spec_parse_arr(v), ..st.m }, sect: st.sect }
            } else if st.sect == "subsets"@ {
                ConfState {
                    m: ConfModel { subsets: put(st.m.subsets, k, spec_parse_arr(v)), ..st.m },
                    sect: st.sect,
                }
            } else if st.sect == "subset_axis"@ {
                ConfState { m: ConfModel { axis: put(st.m.axis, k, v), ..st.m }, sect: st.sect }
            } else {
                st
            },
            None => st,
        },
    }
}

pub open spec fn conf_lines(ls: Seq<Seq<char>>) -> ConfState
    decreases ls.len(),
{
    if ls.len() == 0 {
        ConfState {
            m: ConfModel { chain: Seq::empty(), subsets: Seq::empty(), axis: Seq::empty() },
            sect: Seq::empty(),
        }
    } else {
        conf_line(conf_lines(ls.drop_last()), ls.last())
    }
}

/// The configuration a text declares: `chain = [...]` before any section,
/// `[subsets]` role arrays and `[subset_axis]` labels; `#` starts a comment.
pub open spec fn spec_conf(text: Seq<char>) -> ConfModel {
    conf_lines(split_on(text, '\n')).m
}

proof fn lemma_put_unique<V>(m: Seq<(Seq<char>, V)>, k: Seq<char>, v: V)
    requires
        keys_unique(m),
    ensures
        keys_unique(put(m, k, v)),
{
    if exists|i: int| 0 <= i < m.len() && m[i].0 == k {
        let i = choose|i: int| 0 <= i < m.len() && m[i].0 == k;
        let u = m.update(i, (k, v));
        assert forall|a: int, b: int| 0 <= a < b < u.len() implies #[trigger] u[a].0
            != #[trigger] u[b].0 by {
            if a != i && b != i {
                assert(u[a] == m[a] && u[b] == m[b]);
            } else if a == i {
                assert(u[b] == m[b]);
            } else {
                assert(u[a] == m[a]);
            }
        }
    } else {
        let u = m.push((k, v));
        assert forall|a: int, b: int| 0 <= a < b < u.len() implies #[trigger] u[a].0
            != #[trigger] u[b].0 by {
            if b < m.len() {
                assert(u[a] == m[a] && u[b] == m[b]);
            } else {
                assert(u[a] == m[a]);
            }
        }
    }
}

/// Index of `k` in a key-unique list, when present.
fn find_key<V>(m: &Vec<(String, V)>, k: &String) -> (r: Option<usize>)
    ensures
        match r {
            Some(i) => i < m@.len() && m@[i as int].0@ == k@,
            None => forall|i: int| 0 <= i < m@.len() ==> m@[i].0@ != k@,
        },
{
    let mut i: usize = 0;
    while i < m.len()
        invariant
            i <= m.len(),
            forall|j: int| 0 <= j < i ==> m@[j].0@ != k@,
        decreases m.len() - i,
    {
        if str_eq(m[i].0.as_str(), k.as_str()) {
            return Some(i);
        }
        i += 1;
    }
    None
}

fn put_arr(m: &mut Vec<(String, Vec<String>)>, k: String, v: Vec<String>)
    requires
        keys_unique(old(m)@.map_values(|e: (String, Vec<String>)| (e.0@, strs(e.1@)))),
    ensures
        final(m)@.map_values(|e: (String, Vec<String>)| (e.0@, strs(e.1@))) == put(
            old(m)@.map_values(|e: (String, Vec<String>)| (e.0@, strs(e.1@))),
            k@,
            strs(v@),
        ),
{
    let ghost mv = m@.map_values(|e: (String, Vec<String>)| (e.0@, strs(e.1@)));
    match find_key(m, &k) {
        Some(i) => {
            proof {
                assert(mv[i as int].0 == k@);
                let c = choose|j: int| 0 <= j < mv.len() && mv[j].0 == k@;
                if c != i {
                    if c < i {
                        assert(mv[c].0 != mv[i as int].0);
                    } else {
                        assert(mv[i as int].0 != mv[c].0);
                    }
                }
            }
            m.set(i, (k, v));
            assert(m@.map_values(|e: (String, Vec<String>)| (e.0@, strs(e.1@))) =~= put(
                mv,
                k@,
                strs(v@),
            ));
        },
        None => {
            proof {
                assert(!exists|j: int| 0 <= j < mv.len() && mv[j].0 == k@);
            }
            m.push((k, v));
            assert(m@.map_values(|e: (String, Vec<String>)| (e.0@, strs(e.1@))) =~= put(
                mv,
                k@,
                strs(v@),
            ));
        },
    }
}

fn put_str(m: &mut Vec<(String, String)>, k: String, v: String)
    requires
        keys_unique(old(m)@.map_values(|e: (String, String)| (e.0@, e.1@))),
    ensures
        final(m)@.map_values(|e: (String, String)| (e.0@, e.1@)) == put(
            old(m)@.map_values(|e: (String, String)| (e.0@, e.1@)),
            k@,
            v@,
        ),
{
    let ghost mv = m@.map_values(|e: (String, String)| (e.0@, e.1@));
    match find_key(m, &k) {
        Some(i) => {
            proof {
                assert(mv[i as int].0 == k@);
                let c = choose|j: int| 0 <= j < mv.len() && mv[j].0 == k@;
                if c != i {
                    if c < i {
                        assert(mv[c].0 != mv[i as int].0);
                    } else {
                        assert(mv[i as int].0 != mv[c].0);
                    }
                }
            }
            m.set(i, (k, v));
            assert(m@.map_values(|e: (String, String)| (e.0@, e.1@)) =~= put(mv, k@, v@));
        },
        None => {
            proof {
                assert(!exists|j: int| 0 <= j < mv.len() && mv[j].0 == k@);
            }
            m.push((k, v));
            assert(m@.map_values(|e: (String, String)| (e.0@, e.1@)) =~= put(mv, k@, v@));
        },
    }
}

/// Parse the text of `arte.toml` into the role chain, subsets and axis labels.
pub fn read_conf(text: &str) -> (r: Conf)
    ensures
        r.model() == spec_conf(text@),
        keys_unique(r.model().subsets),
        keys_unique(r.model().axis),
{
    let t = chars_of(text);
    let ls = split_bounds(&t, '\n', 0, t.len());
    let ghost lines = split_on(t@.subrange(0, t@.len() as int), '\n');
    assert(t@.subrange(0, t@.len() as int) =~= text@);
    let mut c = Conf { chain: Vec::new(), subsets: Vec::new(), subset_axis: Vec::new() };
    let mut sect: String = String::new();
    let mut i: usize = 0;
    assert(c.model() =~= conf_lines(lines.take(0)).m);
    while i < ls.len()
        invariant
            i <= ls.len(),
            ls@.len() == lines.len(),
            lines == split_on(text@, '\n'),
            t@ == text@,
            forall|k: int|
                0 <= k < ls@.len() ==> (#[trigger] ls@[k]).0 <= ls@[k].1 <= t.len() && t@.subrange(
                    ls@[k].0 as int,
                    ls@[k].1 as int,
                ) == lines[k],
            c.model() == conf_lines(lines.take(i as int)).m,
            sect@ == conf_lines(lines.take(i as int)).sect,
            keys_unique(c.model().subsets),
            keys_unique(c.model().axis),
        decreases ls.len() - i,
    {
        let (lo, hi) = ls[i];
        let parts = line_parts(&t, lo, hi);
        proof {
            assert(lines.take(i + 1).drop_last() =~= lines.take(i as int));
            assert(lines.take(i + 1).last() == lines[i as int]);
            reveal_strlit("chain");
            reveal_strlit("subsets");
            reveal_strlit("subset_axis");
        }
        let ghost before = c.model();
        match parts.section {
            Some((sa, sb)) => {
                sect = string_of(&t, sa, sb);
            },
            None => match parts.pair {
                Some((ka, kb, va, vb)) => {
                    if eq_range(&t, ka, kb, "chain") && sect.as_str().is_empty() {
                        c.chain = parse_arr_range(&t, va, vb);
                        assert(c.model() == ConfModel { chain: c.model().chain, ..before });
                    } else if str_eq(sect.as_str(), "subsets") {
                        let key = string_of(&t, ka, kb);
                        let val = parse_arr_range(&t, va, vb);
                        proof {
                            lemma_put_unique(before.subsets, key@, strs(val@));
                        }
                        put_arr(&mut c.subsets, key, val);
                        assert(c.model() == ConfModel { subsets: c.model().subsets, ..before });
                    } else if str_eq(sect.as_str(), "subset_axis") {
                        let key = string_of(&t, ka, kb);
                        let val = string_of(&t, va, vb);
                        proof {
                            lemma_put_unique(before.axis, key@, val@);
                        }
                        put_str(&mut c.subset_axis, key, val);
                        assert(c.model() == ConfModel { axis: c.model().axis, ..before });
                    }
                },
                None => {},
            },
        }
        assert(c.model() =~= conf_lines(lines.take(i + 1)).m);
        i += 1;
    }
    assert(lines.take(i as int) =~= lines);
    c
}

/// Default subset of a role: the first one declared in `[subsets]`, else `TBD`.
pub open spec fn spec_default_subset(m: ConfModel, role: Seq<char>) -> Seq<char> {
    match lookup(m.subsets, role) {
        Some(v) => if v.len() > 0 {
            v[0]
        } else {
            "TBD"@
        },
        None => "TBD"@,
    }
}

pub fn default_subset(conf: &Conf, role: &str) -> (r: String)
    requires
        keys_unique(conf.model().subsets),
    ensures
        r@ == spec_default_subset(conf.model(), role@),
{
    let ghost m = conf.model().subsets;
    let k = to_owned(role);
    match find_key(&conf.subsets, &k) {
        Some(i) => {
            proof {
                assert(m[i as int].0 == role@);
                let c = choose|j: int| 0 <= j < m.len() && m[j].0 == role@;
                if c != i {
                    if c < i {
                        assert(m[c].0 != m[i as int].0);
                    } else {
                        assert(m[i as int].0 != m[c].0);
                    }
                }
            }
            if conf.subsets[i].1.len() > 0 {
                conf.subsets[i].1[0].clone()
            } else {
                to_owned("TBD")
            }
        },
        None => {
            assert(!exists|j: int| 0 <= j < m.len() && m[j].0 == role@);
            to_owned("TBD")
        },
    }
}


// ─── [verify], [lanes] and [implement] ──────────────────────────────────────

/// `[verify]` + `[lanes]`: the environment contract for green — setup/teardown
/// hooks, pristine paths, and per-subset lane commands (`skip` = not auto-run).
pub struct VerifyConf {
    pub setup: Option<String>,
    pub teardown: Option<String>,
    pub pristine: Vec<String>,
    pub lanes: Vec<(String, String)>,
}

#[verifier::ext_equal]
pub struct VerifyModel {
    pub setup: Option<Seq<char>>,
    pub teardown: Option<Seq<char>>,
    pub pristine: Seq<Seq<char>>,
    pub lanes: Seq<(Seq<char>, Seq<char>)>,
}

pub open spec fn opt_str(o: Option<String>) -> Option<Seq<char>> {
    match o {
        Some(s) => Some(s@),
        None => None,
    }
}

impl VerifyConf {
    pub open spec fn model(&self) -> VerifyModel {
        VerifyModel {
            setup: opt_str(self.setup),
            teardown: opt_str(self.teardown),
            pristine: strs(self.pristine@),
            lanes: self.lanes@.map_values(|e: (String, String)| (e.0@, e.1@)),
        }
    }
}

pub open spec fn verify_line(st: (VerifyModel, Seq<char>), raw: Seq<char>) -> (VerifyModel, Seq<char>) {
    let line = content(raw);
    match section_of(line) {
        Some(s) => (st.0, s),
        None => match pair_of(line) {
            Some((k, v0)) => {
                let v = trim_quotes(v0);
                if st.1 == "verify"@ && k == "setup"@ {
                    (VerifyModel { setup: Some(v), ..st.0 }, st.1)
                } else if st.1 == "verify"@ && k == "teardown"@ {
                    (VerifyModel { teardown: Some(v), ..st.0 }, st.1)
                } else if st.1 == "verify"@ && k == "pristine"@ {
                    (VerifyModel { pristine: spec_parse_arr(v), ..st.0 }, st.1)
                } else if st.1 == "lanes"@ {
                    (VerifyModel { lanes: put(st.0.lanes, k, v), ..st.0 }, st.1)
                } else {
                    st
                }
            },
            None => st,
        },
    }
}

pub open spec fn verify_lines(ls: Seq<Seq<char>>) -> (VerifyModel, Seq<char>)
    decreases ls.len(),
{
    if ls.len() == 0 {
        (
            VerifyModel {
                setup: None,
                teardown: None,
                pristine: Seq::empty(),
                lanes: Seq::empty(),
            },
            Seq::empty(),
        )
    } else {
        verify_line(verify_lines(ls.drop_last()), ls.last())
    }
}

/// The `[verify]` / `[lanes]` configuration a text declares.
pub open spec fn spec_verify_conf(text: Seq<char>) -> VerifyModel {
    verify_lines(split_on(text, '\n')).0
}

/// Parse `[verify]` (setup, teardown, pristine) and `[lanes]` from `arte.toml`.
pub fn verify_conf(text: &str) -> (r: VerifyConf)
    ensures
        r.model() == spec_verify_conf(text@),
        keys_unique(r.model().lanes),
{
    let t = chars_of(text);
    let ls = split_bounds(&t, '\n', 0, t.len());
    let ghost lines = split_on(t@.subrange(0, t@.len() as int), '\n');
    assert(t@.subrange(0, t@.len() as int) =~= text@);
    let mut c = VerifyConf { setup: None, teardown: None, pristine: Vec::new(), lanes: Vec::new() };
    let mut sect: String = String::new();
    let mut i: usize = 0;
    assert(c.model() =~= verify_lines(lines.take(0)).0);
    while i < ls.len()
        invariant
            i <= ls.len(),
            ls@.len() == lines.len(),
            lines == split_on(text@, '\n'),
            t@ == text@,
            forall|k: int|
                0 <= k < ls@.len() ==> (#[trigger] ls@[k]).0 <= ls@[k].1 <= t.len() && t@.subrange(
                    ls@[k].0 as int,
                    ls@[k].1 as int,
                ) == lines[k],
            c.model() == verify_lines(lines.take(i as int)).0,
            sect@ == verify_lines(lines.take(i as int)).1,
            keys_unique(c.model().lanes),
        decreases ls.len() - i,
    {
        let (lo, hi) = ls[i];
        let parts = line_parts(&t, lo, hi);
        proof {
            assert(lines.take(i + 1).drop_last() =~= lines.take(i as int));
            assert(lines.take(i + 1).last() == lines[i as int]);
            reveal_strlit("verify");
            reveal_strlit("setup");
            reveal_strlit("teardown");
            reveal_strlit("pristine");
            reveal_strlit("lanes");
        }
        let ghost before = c.model();
        match parts.section {
            Some((sa, sb)) => {
                sect = string_of(&t, sa, sb);
            },
            None => match parts.pair {
                Some((ka, kb, va0, vb0)) => {
                    let (va, vb) = trim_set_range(&t, va0, vb0, false);
                    let in_verify = str_eq(sect.as_str(), "verify");
                    if in_verify && eq_range(&t, ka, kb, "setup") {
                        c.setup = Some(string_of(&t, va, vb));
                    } else if in_verify && eq_range(&t, ka, kb, "teardown") {
                        c.teardown = Some(string_of(&t, va, vb));
                    } else if in_verify && eq_range(&t, ka, kb, "pristine") {
                        c.pristine = parse_arr_range(&t, va, vb);
                    } else if str_eq(sect.as_str(), "lanes") {
                        let key = string_of(&t, ka, kb);
                        let val = string_of(&t, va, vb);
                        proof {
                            lemma_put_unique(before.lanes, key@, val@);
                        }
                        put_str(&mut c.lanes, key, val);
                    }
                },
                None => {},
            },
        }
        assert(c.model() =~= verify_lines(lines.take(i + 1)).0);
        i += 1;
    }
    assert(lines.take(i as int) =~= lines);
    c
}

pub open spec fn impl_line(st: (Seq<char>, Seq<char>, bool), raw: Seq<char>) -> (
    Seq<char>,
    Seq<char>,
    bool,
) {
    let line = content(raw);
    match section_of(line) {
        Some(s) => (st.0, st.1, s == "implement"@),
        None => if st.2 {
            match pair_of(line) {
                Some((k, v0)) => if k == "test"@ {
                    (trim_quotes(v0), st.1, st.2)
                } else if k == "agent"@ {
                    (st.0, trim_quotes(v0), st.2)
                } else {
                    st
                },
                None => st,
            }
        } else {
            st
        },
    }
}

pub open spec fn impl_lines(ls: Seq<Seq<char>>) -> (Seq<char>, Seq<char>, bool)
    decreases ls.len(),
{
    if ls.len() == 0 {
        ("npx vitest run"@, "pi -p"@, false)
    } else {
        impl_line(impl_lines(ls.drop_last()), ls.last())
    }
}

/// `[implement]` of a text: (test command, implementer agent), with defaults.
pub open spec fn spec_impl_conf(text: Seq<char>) -> (Seq<char>, Seq<char>) {
    let r = impl_lines(split_on(text, '\n'));
    (r.0, r.1)
}

/// Parse `[implement]` from `arte.toml`: the test command and the implementer
/// agent, `npx vitest run` and `pi -p` when undeclared.
pub fn impl_conf(text: &str) -> (r: (String, String))
    ensures
        (r.0@, r.1@) == spec_impl_conf(text@),
{
    let t = chars_of(text);
    let ls = split_bounds(&t, '\n', 0, t.len());
    let ghost lines = split_on(t@.subrange(0, t@.len() as int), '\n');
    assert(t@.subrange(0, t@.len() as int) =~= text@);
    let mut test = to_owned("npx vitest run");
    let mut agent = to_owned("pi -p");
    let mut in_impl = false;
    let mut i: usize = 0;
    while i < ls.len()
        invariant
            i <= ls.len(),
            ls@.len() == lines.len(),
            lines == split_on(text@, '\n'),
            t@ == text@,
            forall|k: int|
                0 <= k < ls@.len() ==> (#[trigger] ls@[k]).0 <= ls@[k].1 <= t.len() && t@.subrange(
                    ls@[k].0 as int,
                    ls@[k].1 as int,
                ) == lines[k],
            (test@, agent@, in_impl) == impl_lines(lines.take(i as int)),
        decreases ls.len() - i,
    {
        let (lo, hi) = ls[i];
        let parts = line_parts(&t, lo, hi);
        proof {
            assert(lines.take(i + 1).drop_last() =~= lines.take(i as int));
            assert(lines.take(i + 1).last() == lines[i as int]);
            reveal_strlit("implement");
            reveal_strlit("test");
            reveal_strlit("agent");
        }
        match parts.section {
            Some((sa, sb)) => {
                in_impl = eq_range(&t, sa, sb, "implement");
            },
            None => {
                if in_impl {
                    match parts.pair {
                        Some((ka, kb, va0, vb0)) => {
                            let (va, vb) = trim_set_range(&t, va0, vb0, false);
                            if eq_range(&t, ka, kb, "test") {
                                test = string_of(&t, va, vb);
                            } else if eq_range(&t, ka, kb, "agent") {
                                agent = string_of(&t, va, vb);
                            }
                        },
                        None => {},
                    }
                }
            },
        }
        i += 1;
    }
    assert(lines.take(i as int) =~= lines);
    (test, agent)
}

} // verus!
