//! The decisions behind the board's mutators and hygiene checks: which status
//! words a human may sign, which node already states a fact, which declared
//! contract symbols the source lacks, which source files no node claims.
use vstd::prelude::*;

use crate::conf::{split_bounds, split_on};
use crate::graph::{board_view, contains_string, strs, BoardView};
use crate::node::{spec_all, spec_get, Field, Node};
use crate::query::{at_path, spec_at_path};
use crate::runs::{count_result, stable_pass, window, RunRec, STABLE_PASS_REQUIRED};
use crate::text::{
    chars_of, contains_str, has_infix, has_prefix, push_char, starts_with, str_eq, string_of, to_owned, trim,
    trim_range,
};

verus! {

/// The statuses a human may sign.
pub open spec fn spec_is_status_value(s: Seq<char>) -> bool {
    s == "ok"@ || s == "ko"@ || s == "pending"@ || s == "justified"@
}

/// Whether `st` is one of ok|ko|pending|justified.
pub fn is_status_value(st: &str) -> (r: bool)
    ensures
        r == spec_is_status_value(st@),
{
    proof {
        reveal_strlit("ok");
        reveal_strlit("ko");
        reveal_strlit("pending");
        reveal_strlit("justified");
    }
    str_eq(st, "ok") || str_eq(st, "ko") || str_eq(st, "pending") || str_eq(st, "justified")
}

/// The one field `(k, v)` when `v` is there, none otherwise.
pub open spec fn opt_field(k: Seq<char>, v: Option<Seq<char>>) -> Seq<Field> {
    match v {
        Some(x) => seq![(k, x)],
        None => Seq::empty(),
    }
}

pub open spec fn opt_string_view(v: Option<String>) -> Option<Seq<char>> {
    match v {
        Some(s) => Some(s@),
        None => None,
    }
}

/// A node as `arte add` writes it: `id`, `role`, `subset`, then `parent`
/// when given, `title`, then `serves` when given.
pub open spec fn spec_new_node(
    id: Seq<char>,
    role: Seq<char>,
    subset: Seq<char>,
    parent: Option<Seq<char>>,
    title: Seq<char>,
    serves: Option<Seq<char>>,
) -> Seq<Field> {
    seq![("id"@, id), ("role"@, role), ("subset"@, subset)] + opt_field("parent"@, parent) + seq![
        ("title"@, title),
    ] + opt_field("serves"@, serves)
}

/// The node that `arte add` creates.
pub fn new_node(
    id: &str,
    role: &str,
    subset: &str,
    parent: &Option<String>,
    title: &str,
    serves: &Option<String>,
) -> (r: Node)
    ensures
        r@ == spec_new_node(id@, role@, subset@, opt_string_view(*parent), title@, opt_string_view(*serves)),
{
    let mut fields: Vec<(String, String)> = Vec::new();
    fields.push((to_owned("id"), to_owned(id)));
    fields.push((to_owned("role"), to_owned(role)));
    fields.push((to_owned("subset"), to_owned(subset)));
    match parent {
        Some(p) => fields.push((to_owned("parent"), p.clone())),
        None => {},
    }
    fields.push((to_owned("title"), to_owned(title)));
    match serves {
        Some(v) => fields.push((to_owned("serves"), v.clone())),
        None => {},
    }
    let r = Node { fields };
    assert(r@ =~= spec_new_node(id@, role@, subset@, opt_string_view(*parent), title@, opt_string_view(*serves)));
    r
}

/// What `arte status <id> <st>` may do: refuse a word that is no status,
/// refuse a green claim that asks for a stable pass (and is not forced) when
/// the recent runs hold too few passes — carrying how many they hold — or
/// write the status.
pub enum StatusGate {
    Invalid,
    Refused(usize),
    Allowed,
}

/// Whether a green claim must show a stable pass it lacks: only `ok` is
/// gated, only when asked for, and `--force` overrides the check.
pub open spec fn needs_refusal(st: Seq<char>, requires_stable: bool, force: bool, runs: Seq<RunRec>) -> bool {
    st == "ok"@ && requires_stable && !force && count_result(window(runs), "pass"@) < STABLE_PASS_REQUIRED
}

/// The decision on a status write, given the validation's runs newest first.
pub fn status_gate(st: &str, requires_stable: bool, force: bool, runs: &[RunRec]) -> (r: StatusGate)
    ensures
        match r {
            StatusGate::Invalid => !spec_is_status_value(st@),
            StatusGate::Refused(p) => spec_is_status_value(st@) && needs_refusal(st@, requires_stable, force, runs@)
                && p as nat == count_result(window(runs@), "pass"@),
            StatusGate::Allowed => spec_is_status_value(st@) && !needs_refusal(st@, requires_stable, force, runs@),
        },
{
    if !is_status_value(st) {
        return StatusGate::Invalid;
    }
    proof {
        reveal_strlit("ok");
    }
    if str_eq(st, "ok") && requires_stable && !force {
        let (passed, stable) = stable_pass(runs);
        if !stable {
            return StatusGate::Refused(passed);
        }
    }
    StatusGate::Allowed
}

/// The first node stating the same fact (same role, same title).
pub open spec fn same_fact(b: BoardView, role: Seq<char>, title: Seq<char>) -> Option<Seq<char>>
    decreases b.len(),
{
    if b.len() == 0 {
        None
    } else if spec_get(b[0].1, "role"@) == Some(role) && spec_get(b[0].1, "title"@) == Some(title) {
        Some(b[0].0)
    } else {
        same_fact(b.drop_first(), role, title)
    }
}

/// Same role + same title is the same fact: the id to reuse instead of
/// minting a twin.
pub fn existing_fact(board: &Vec<(String, Node)>, role: &str, title: &str) -> (r: Option<String>)
    ensures
        match r {
            Some(id) => same_fact(board_view(board@), role@, title@) == Some(id@),
            None => same_fact(board_view(board@), role@, title@) is None,
        },
{
    proof {
        reveal_strlit("role");
        reveal_strlit("title");
    }
    let ghost bv = board_view(board@);
    let mut k: usize = 0;
    assert(bv.skip(0) =~= bv);
    while k < board.len()
        invariant
            k <= board@.len(),
            bv == board_view(board@),
            same_fact(bv, role@, title@) == same_fact(bv.skip(k as int), role@, title@),
        decreases board.len() - k,
    {
        assert(bv.skip(k as int)[0] == (board@[k as int].0@, board@[k as int].1@));
        let n = &board[k].1;
        let hit = match (n.get("role"), n.get("title")) {
            (Some(r), Some(t)) => str_eq(r, role) && str_eq(t, title),
            _ => false,
        };
        if hit {
            return Some(board[k].0.clone());
        }
        assert(bv.skip(k as int).drop_first() =~= bv.skip(k + 1));
        k += 1;
    }
    assert(bv.skip(k as int) =~= Seq::<(Seq<char>, Seq<Field>)>::empty());
    None
}

// ─── declared contracts ─────────────────────────────────────────────────────

pub open spec fn sym_stop(c: char) -> bool {
    c == '(' || c == ':' || c == ' ' || c == '<'
}

/// Index of the first `(`, `:`, space or `<`, or the length.
pub open spec fn sym_end(s: Seq<char>) -> int
    decreases s.len(),
{
    if s.len() == 0 {
        0
    } else if sym_stop(s[0]) {
        0
    } else {
        1 + sym_end(s.drop_first())
    }
}

/// The public symbol a `contract:` line declares: what precedes its first
/// `(`, `:`, space or `<`, trimmed.
pub open spec fn spec_contract_symbol(c: Seq<char>) -> Seq<char> {
    trim(c.take(sym_end(c)))
}

proof fn lemma_sym_end(s: Seq<char>, k: int)
    requires
        0 <= k <= s.len(),
        forall|j: int| 0 <= j < k ==> !sym_stop(#[trigger] s[j]),
        k < s.len() ==> sym_stop(s[k]),
    ensures
        sym_end(s) == k,
    decreases s.len(),
{
    if s.len() > 0 && k > 0 {
        assert forall|j: int| 0 <= j < k - 1 implies !sym_stop(#[trigger] s.drop_first()[j]) by {
            assert(s.drop_first()[j] == s[j + 1]);
        }
        lemma_sym_end(s.drop_first(), k - 1);
    }
}

/// The symbol a `contract:` line declares.
pub fn contract_symbol(c: &str) -> (r: String)
    ensures
        r@ == spec_contract_symbol(c@),
{
    let v = chars_of(c);
    let mut i: usize = 0;
    while i < v.len() && !(v[i] == '(' || v[i] == ':' || v[i] == ' ' || v[i] == '<')
        invariant
            i <= v@.len(),
            forall|j: int| 0 <= j < i ==> !sym_stop(#[trigger] v@[j]),
        decreases v.len() - i,
    {
        i += 1;
    }
    proof {
        lemma_sym_end(v@, i as int);
    }
    let (a, b) = trim_range(&v, 0, i);
    assert(v@.subrange(0, i as int) =~= v@.take(i as int));
    string_of(&v, a, b)
}

/// The source files of a node: the file part of each `at:` value that is
/// not a test.
pub open spec fn source_ats(ats: Seq<Seq<char>>) -> Seq<Seq<char>>
    decreases ats.len(),
{
    if ats.len() == 0 {
        Seq::empty()
    } else {
        let rest = source_ats(ats.drop_last());
        let a = ats.last();
        if !has_infix(a, ".test."@) && !has_prefix(a, "test/"@) {
            rest.push(spec_at_path(a))
        } else {
            rest
        }
    }
}

/// The files a node's contract is checked against: the file part (anchor
/// cut off) of each of its non-test `at:` values.
pub fn contract_sources(n: &Node) -> (r: Vec<String>)
    ensures
        strs(r@) == source_ats(spec_all(n@, "at"@)),
{
    proof {
        reveal_strlit("at");
    }
    let ats = n.all("at");
    let ghost all = spec_all(n@, "at"@);
    let mut out: Vec<String> = Vec::new();
    let mut i: usize = 0;
    while i < ats.len()
        invariant
            i <= ats@.len(),
            all == spec_all(n@, "at"@),
            ats@.len() == all.len(),
            forall|q: int| 0 <= q < ats@.len() ==> #[trigger] ats@[q]@ == all[q],
            strs(out@) == source_ats(all.take(i as int)),
        decreases ats.len() - i,
    {
        assert(all.take(i + 1).drop_last() =~= all.take(i as int));
        assert(all.take(i + 1).last() == ats@[i as int]@);
        let a = ats[i];
        if !contains_str(a, ".test.") && !starts_with(a, "test/") {
            let ghost before = out@;
            let p = crate::query::at_path(a);
            let ghost pv = p@;
            out.push(p);
            assert(strs(out@) =~= strs(before).push(pv));
        }
        i += 1;
    }
    assert(all.take(i as int) =~= all);
    out
}

/// The declared symbols of `contracts` that do not occur in `body`, in order
/// (an empty symbol is never missing).
pub open spec fn missing_symbols(contracts: Seq<Seq<char>>, body: Seq<char>) -> Seq<Seq<char>>
    decreases contracts.len(),
{
    if contracts.len() == 0 {
        Seq::empty()
    } else {
        let rest = missing_symbols(contracts.drop_last(), body);
        let sym = spec_contract_symbol(contracts.last());
        if sym.len() > 0 && !has_infix(body, sym) {
            rest.push(sym)
        } else {
            rest
        }
    }
}

/// The public symbols a node declares (`contract:` lines) that its source
/// text `body` lacks — a reproduction that renamed its public API.
pub fn missing_contract_symbols(n: &Node, body: &str) -> (r: Vec<String>)
    ensures
        strs(r@) == missing_symbols(spec_all(n@, "contract"@), body@),
{
    proof {
        reveal_strlit("contract");
    }
    let cs = n.all("contract");
    let ghost all = spec_all(n@, "contract"@);
    let mut out: Vec<String> = Vec::new();
    let mut i: usize = 0;
    while i < cs.len()
        invariant
            i <= cs@.len(),
            all == spec_all(n@, "contract"@),
            cs@.len() == all.len(),
            forall|q: int| 0 <= q < cs@.len() ==> #[trigger] cs@[q]@ == all[q],
            strs(out@) == missing_symbols(all.take(i as int), body@),
        decreases cs.len() - i,
    {
        assert(all.take(i + 1).drop_last() =~= all.take(i as int));
        assert(all.take(i + 1).last() == cs@[i as int]@);
        let sym = contract_symbol(cs[i]);
        if !sym.as_str().is_empty() && !contains_str(body, sym.as_str()) {
            let ghost before = out@;
            let ghost sv = sym@;
            out.push(sym);
            assert(strs(out@) =~= strs(before).push(sv));
        }
        i += 1;
    }
    assert(all.take(i as int) =~= all);
    out
}

// ─── trace hygiene ──────────────────────────────────────────────────────────

/// The file part of every `at:` of every node, in board order.
pub open spec fn claimed(b: BoardView) -> Seq<Seq<char>>
    decreases b.len(),
{
    if b.len() == 0 {
        Seq::empty()
    } else {
        claimed(b.drop_last()) + spec_all(b.last().1, "at"@).map_values(|a: Seq<char>| spec_at_path(a))
    }
}

/// The files the board points at (`at:` values without their anchors).
pub fn claimed_paths(board: &Vec<(String, Node)>) -> (r: Vec<String>)
    ensures
        strs(r@) == claimed(board_view(board@)),
{
    proof {
        reveal_strlit("at");
    }
    let ghost bv = board_view(board@);
    let mut out: Vec<String> = Vec::new();
    let mut k: usize = 0;
    while k < board.len()
        invariant
            k <= board@.len(),
            bv == board_view(board@),
            strs(out@) == claimed(bv.take(k as int)),
        decreases board.len() - k,
    {
        assert(bv.take(k + 1).drop_last() =~= bv.take(k as int));
        assert(bv.take(k + 1).last() == (board@[k as int].0@, board@[k as int].1@));
        let ats = board[k].1.all("at");
        let ghost all = spec_all(board@[k as int].1@, "at"@);
        let ghost base = strs(out@);
        let mut i: usize = 0;
        while i < ats.len()
            invariant
                i <= ats@.len(),
                ats@.len() == all.len(),
                forall|q: int| 0 <= q < ats@.len() ==> #[trigger] ats@[q]@ == all[q],
                strs(out@) == base + all.take(i as int).map_values(|a: Seq<char>| spec_at_path(a)),
            decreases ats.len() - i,
        {
            let ghost before = out@;
            let p = at_path(ats[i]);
            out.push(p);
            assert(strs(out@) =~= strs(before).push(spec_at_path(all[i as int])));
            assert(all.take(i + 1).map_values(|a: Seq<char>| spec_at_path(a)) =~= all.take(i as int).map_values(
                |a: Seq<char>| spec_at_path(a),
            ).push(spec_at_path(all[i as int])));
            i += 1;
        }
        assert(all.take(i as int) =~= all);
        k += 1;
    }
    assert(bv.take(k as int) =~= bv);
    out
}

/// `s` without its trailing `/` characters.
pub open spec fn strip_slashes(s: Seq<char>) -> Seq<char>
    decreases s.len(),
{
    if s.len() > 0 && s.last() == '/' {
        strip_slashes(s.drop_last())
    } else {
        s
    }
}

/// A source file is claimed when some claimed path is the file itself or a
/// directory holding it.
pub open spec fn is_claimed(f: Seq<char>, cl: Seq<Seq<char>>) -> bool {
    cl.contains(f) || exists|j: int| 0 <= j < cl.len() && has_prefix(f, #[trigger] strip_slashes(cl[j]).push('/'))
}

/// The source files no node claims, in order.
pub open spec fn spec_orphans(files: Seq<Seq<char>>, cl: Seq<Seq<char>>) -> Seq<Seq<char>>
    decreases files.len(),
{
    if files.len() == 0 {
        Seq::empty()
    } else {
        let rest = spec_orphans(files.drop_last(), cl);
        if is_claimed(files.last(), cl) {
            rest
        } else {
            rest.push(files.last())
        }
    }
}

fn dir_of(c: &str) -> (r: String)
    ensures
        r@ == strip_slashes(c@).push('/'),
{
    let v = chars_of(c);
    let mut e: usize = v.len();
    assert(v@.take(e as int) =~= v@);
    while e > 0 && v[e - 1] == '/'
        invariant
            e <= v@.len(),
            v@ == c@,
            strip_slashes(c@) == strip_slashes(v@.take(e as int)),
        decreases e,
    {
        assert(v@.take(e as int).drop_last() =~= v@.take(e - 1));
        e -= 1;
    }
    let mut s = string_of(&v, 0, e);
    assert(v@.subrange(0, e as int) =~= v@.take(e as int));
    push_char(&mut s, '/');
    s
}

/// Code no node claims via `at:` (unspecced work): each file of `files` that
/// is neither claimed itself nor inside a claimed directory.
pub fn orphan_files(files: &Vec<String>, claimed: &Vec<String>) -> (r: Vec<String>)
    ensures
        strs(r@) == spec_orphans(strs(files@), strs(claimed@)),
{
    let ghost fv = strs(files@);
    let ghost cl = strs(claimed@);
    let mut out: Vec<String> = Vec::new();
    let mut i: usize = 0;
    while i < files.len()
        invariant
            i <= files@.len(),
            fv == strs(files@),
            cl == strs(claimed@),
            strs(out@) == spec_orphans(fv.take(i as int), cl),
        decreases files.len() - i,
    {
        assert(fv.take(i + 1).drop_last() =~= fv.take(i as int));
        assert(fv.take(i + 1).last() == files@[i as int]@);
        let f = files[i].as_str();
        let mut claimed_it = contains_string(claimed, f);
        let mut j: usize = 0;
        while j < claimed.len() && !claimed_it
            invariant
                j <= claimed@.len(),
                cl == strs(claimed@),
                f@ == fv[i as int],
                claimed_it == is_claimed(f@, cl) || (claimed_it == cl.contains(f@) && forall|q: int|
                    0 <= q < j ==> !has_prefix(f@, #[trigger] strip_slashes(cl[q]).push('/'))),
                claimed_it ==> is_claimed(f@, cl),
            decreases claimed.len() - j,
        {
            let d = dir_of(claimed[j].as_str());
            assert(cl[j as int] == claimed@[j as int]@);
            if starts_with(f, d.as_str()) {
                claimed_it = true;
            }
            j += 1;
        }
        if !claimed_it {
            let ghost before = out@;
            out.push(files[i].clone());
            assert(strs(out@) =~= strs(before).push(f@));
        }
        i += 1;
    }
    assert(fv.take(i as int) =~= fv);
    out
}

} // verus!
