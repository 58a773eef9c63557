//! The board as `arte observe` lays it out: roles in chain order (then any
//! other role, sorted), within each role its subsets in declared order (then
//! any other, sorted), within each subset its nodes as a tree by `parent`,
//! roots first. Printing each line is the caller's work.
use vstd::prelude::*;

use crate::conf::{Conf, ConfModel};
use crate::graph::{board_view, contains_string, copy_strings, find_node, node_of, serves, serves_of, strs, BoardView};
use crate::node::{spec_get, Field, Node};
use crate::runs::{lemma_lex_total, lex_lt};
use crate::sorted::{sorted_set, strictly_sorted};
use crate::text::{str_eq, to_owned};

verus! {

// ─── what a node shows under ────────────────────────────────────────────────

/// A node's role, `?` when it has none.
pub open spec fn role_of(fs: Seq<Field>) -> Seq<char> {
    match spec_get(fs, "role"@) {
        Some(r) => r,
        None => "?"@,
    }
}

/// A node's subset, `general` when it has none.
pub open spec fn subset_of(fs: Seq<Field>) -> Seq<char> {
    match spec_get(fs, "subset"@) {
        Some(s) => s,
        None => "general"@,
    }
}

/// A node's parent, empty when it has none.
pub open spec fn parent_of(fs: Seq<Field>) -> Seq<char> {
    match spec_get(fs, "parent"@) {
        Some(p) => p,
        None => Seq::empty(),
    }
}

fn get_or(n: &Node, k: &str, dflt: &str) -> (r: String)
    ensures
        r@ == match spec_get(n@, k@) {
            Some(v) => v,
            None => dflt@,
        },
{
    match n.get(k) {
        Some(v) => to_owned(v),
        None => to_owned(dflt),
    }
}

// ─── sorted sets ────────────────────────────────────────────────────────────

/// The members of a finite set of strings in increasing order.
pub open spec fn sorted_of(s: Set<Seq<char>>) -> Seq<Seq<char>> {
    choose|q: Seq<Seq<char>>| strictly_sorted(q) && q.to_set() == s
}

proof fn lemma_sorted_min(a: Seq<Seq<char>>, x: Seq<char>)
    requires
        strictly_sorted(a),
        a.len() > 0,
        a.contains(x),
    ensures
        x == a[0] || lex_lt(a[0], x),
{
    let i = choose|i: int| 0 <= i < a.len() && a[i] == x;
    if i > 0 {
        assert(lex_lt(a[0], a[i]));
    }
}

/// Two increasing lists of the same values are the same list.
proof fn lemma_sorted_unique(a: Seq<Seq<char>>, b: Seq<Seq<char>>)
    requires
        strictly_sorted(a),
        strictly_sorted(b),
        a.to_set() == b.to_set(),
    ensures
        a == b,
    decreases a.len(),
{
    if a.len() == 0 {
        if b.len() > 0 {
            assert(b.to_set().contains(b[0]));
            assert(a.to_set().contains(b[0]));
        }
        assert(a =~= b);
    } else {
        assert(a.to_set().contains(a[0]));
        assert(b.to_set().contains(a[0]));
        assert(b.len() > 0);
        assert(b.to_set().contains(b[0]));
        assert(a.to_set().contains(b[0]));
        lemma_sorted_min(a, b[0]);
        lemma_sorted_min(b, a[0]);
        lemma_lex_total(a[0], b[0]);
        assert(a[0] == b[0]);
        let a1 = a.drop_first();
        let b1 = b.drop_first();
        assert(strictly_sorted(a1)) by {
            assert forall|i: int, j: int| 0 <= i < j < a1.len() implies lex_lt(#[trigger] a1[i], #[trigger] a1[j]) by {
                assert(lex_lt(a[i + 1], a[j + 1]));
            }
        }
        assert(strictly_sorted(b1)) by {
            assert forall|i: int, j: int| 0 <= i < j < b1.len() implies lex_lt(#[trigger] b1[i], #[trigger] b1[j]) by {
                assert(lex_lt(b[i + 1], b[j + 1]));
            }
        }
        assert forall|x: Seq<char>| a1.to_set().contains(x) implies b1.to_set().contains(x) by {
            let i = choose|i: int| 0 <= i < a1.len() && a1[i] == x;
            assert(lex_lt(a[0], a[i + 1]));
            assert(a.to_set().contains(x));
            assert(b.to_set().contains(x));
            let j = choose|j: int| 0 <= j < b.len() && b[j] == x;
            if j == 0 {
                lemma_lex_total(a[0], x);
            }
            assert(b1[j - 1] == x);
        }
        assert forall|x: Seq<char>| b1.to_set().contains(x) implies a1.to_set().contains(x) by {
            let i = choose|i: int| 0 <= i < b1.len() && b1[i] == x;
            assert(lex_lt(b[0], b[i + 1]));
            assert(b.to_set().contains(x));
            assert(a.to_set().contains(x));
            let j = choose|j: int| 0 <= j < a.len() && a[j] == x;
            if j == 0 {
                lemma_lex_total(b[0], x);
            }
            assert(a1[j - 1] == x);
        }
        assert(a1.to_set() =~= b1.to_set());
        lemma_sorted_unique(a1, b1);
        assert(a =~= seq![a[0]] + a1);
        assert(b =~= seq![b[0]] + b1);
    }
}

/// `sorted_set`'s result is the increasing list of its input's values.
fn sorted_values(v: Vec<String>) -> (r: Vec<String>)
    ensures
        strs(r@) == sorted_of(strs(v@).to_set()),
{
    let r = sorted_set(v);
    proof {
        let q = sorted_of(strs(v@).to_set());
        assert(strictly_sorted(strs(r@)) && strs(r@).to_set() == strs(v@).to_set());
        assert(strictly_sorted(q) && q.to_set() == strs(v@).to_set());
        lemma_sorted_unique(strs(r@), q);
    }
    r
}

// ─── the lines ──────────────────────────────────────────────────────────────

/// One line of the layout.
#[derive(Debug, PartialEq, Eq)]
pub enum ObserveLine {
    /// A role's heading, with the axis label of its subsets when declared.
    Role(String, Option<String>),
    /// A subset's heading.
    Subset(String),
    /// A node, by its index on the board, at an indentation depth.
    Item(usize, usize),
}

pub enum LineModel {
    Role(Seq<char>, Option<Seq<char>>),
    Subset(Seq<char>),
    Item(nat, int),
}

impl View for ObserveLine {
    type V = LineModel;

    open spec fn view(&self) -> LineModel {
        match self {
            ObserveLine::Role(r, a) => LineModel::Role(
                r@,
                match a {
                    Some(x) => Some(x@),
                    None => None,
                },
            ),
            ObserveLine::Subset(s) => LineModel::Subset(s@),
            ObserveLine::Item(d, j) => LineModel::Item(*d as nat, *j as int),
        }
    }
}

pub open spec fn lines_view(v: Seq<ObserveLine>) -> Seq<LineModel> {
    v.map_values(|l: ObserveLine| l@)
}

// ─── trees within a subset ──────────────────────────────────────────────────

/// Whether node `j` is listed under role `r` and subset `s`.
pub open spec fn member(b: BoardView, r: Seq<char>, s: Seq<char>, j: int) -> bool {
    role_of(b[j].1) == r && subset_of(b[j].1) == s
}

/// Whether some node under `r` / `s` has id `id`.
pub open spec fn member_id(b: BoardView, r: Seq<char>, s: Seq<char>, id: Seq<char>) -> bool {
    exists|k: int| 0 <= k < b.len() && member(b, r, s, k) && #[trigger] b[k].0 == id
}

/// A root of its subset: no parent, or a parent outside the subset.
pub open spec fn is_root(b: BoardView, r: Seq<char>, s: Seq<char>, j: int) -> bool {
    parent_of(b[j].1).len() == 0 || !member_id(b, r, s, parent_of(b[j].1))
}

/// Node `j` at `depth`, then its children's trees one level deeper, in board
/// order, down to `fuel` levels (the layout allows as many levels as the
/// board has nodes).
pub open spec fn tree_rows(b: BoardView, r: Seq<char>, s: Seq<char>, j: int, depth: nat, fuel: nat) -> Seq<LineModel>
    decreases fuel, 0int,
{
    if fuel == 0 {
        Seq::empty()
    } else {
        seq![LineModel::Item(depth, j)] + kid_rows(b, r, s, b[j].0, depth + 1, (fuel - 1) as nat, b.len() as int)
    }
}

/// The trees of the first `upto` nodes of the subset whose parent is `id`.
pub open spec fn kid_rows(
    b: BoardView,
    r: Seq<char>,
    s: Seq<char>,
    id: Seq<char>,
    depth: nat,
    fuel: nat,
    upto: int,
) -> Seq<LineModel>
    decreases fuel, upto,
{
    if upto <= 0 {
        Seq::empty()
    } else {
        kid_rows(b, r, s, id, depth, fuel, upto - 1) + if member(b, r, s, upto - 1) && parent_of(b[upto - 1].1)
            == id {
            tree_rows(b, r, s, upto - 1, depth, fuel)
        } else {
            Seq::empty()
        }
    }
}

/// The trees of the subset's roots among the first `upto` nodes, each root
/// at depth 2.
pub open spec fn root_rows(b: BoardView, r: Seq<char>, s: Seq<char>, upto: int) -> Seq<LineModel>
    decreases upto,
{
    if upto <= 0 {
        Seq::empty()
    } else {
        root_rows(b, r, s, upto - 1) + if member(b, r, s, upto - 1) && is_root(b, r, s, upto - 1) {
            tree_rows(b, r, s, upto - 1, 2, b.len() as nat)
        } else {
            Seq::empty()
        }
    }
}

fn is_member(e: &(String, Node), r: &str, s: &str) -> (m: bool)
    ensures
        m == (role_of(e.1@) == r@ && subset_of(e.1@) == s@),
{
    let ro = get_or(&e.1, "role", "?");
    let so = get_or(&e.1, "subset", "general");
    str_eq(ro.as_str(), r) && str_eq(so.as_str(), s)
}

fn has_member_id(board: &Vec<(String, Node)>, r: &str, s: &str, id: &str) -> (m: bool)
    ensures
        m == member_id(board_view(board@), r@, s@, id@),
{
    let ghost bv = board_view(board@);
    let mut k: usize = 0;
    while k < board.len()
        invariant
            bv == board_view(board@),
            k <= board.len(),
            forall|q: int| 0 <= q < k ==> !(member(bv, r@, s@, q) && bv[q].0 == id@),
        decreases board.len() - k,
    {
        if is_member(&board[k], r, s) && str_eq(board[k].0.as_str(), id) {
            assert(member(bv, r@, s@, k as int) && bv[k as int].0 == id@);
            return true;
        }
        k += 1;
    }
    false
}

fn push_tree(
    board: &Vec<(String, Node)>,
    r: &str,
    s: &str,
    j: usize,
    depth: usize,
    fuel: usize,
    out: &mut Vec<ObserveLine>,
)
    requires
        j < board.len(),
        depth + fuel <= usize::MAX,
    ensures
        lines_view(final(out)@) == lines_view(old(out)@) + tree_rows(
            board_view(board@),
            r@,
            s@,
            j as int,
            depth as nat,
            fuel as nat,
        ),
    decreases fuel,
{
    let ghost bv = board_view(board@);
    let ghost o0 = lines_view(out@);
    if fuel == 0 {
        assert(lines_view(out@) =~= o0 + Seq::<LineModel>::empty());
        return;
    }
    out.push(ObserveLine::Item(depth, j));
    let ghost o1 = lines_view(out@);
    assert(o1 =~= o0 + seq![LineModel::Item(depth as nat, j as int)]);
    let id = &board[j].0;
    let mut k: usize = 0;
    while k < board.len()
        invariant
            bv == board_view(board@),
            j < board.len(),
            fuel > 0,
            depth + fuel <= usize::MAX,
            k <= board.len(),
            id@ == bv[j as int].0,
            lines_view(out@) == o1 + kid_rows(bv, r@, s@, id@, (depth + 1) as nat, (fuel - 1) as nat, k as int),
        decreases board.len() - k,
    {
        let ghost before = lines_view(out@);
        proof {
            reveal_strlit("");
        }
        let par = get_or(&board[k].1, "parent", "");
        assert(par@ == parent_of(bv[k as int].1));
        let m = is_member(&board[k], r, s);
        let hit = m && str_eq(par.as_str(), id.as_str());
        assert(hit == (member(bv, r@, s@, k as int) && parent_of(bv[k as int].1) == id@));
        if hit {
            push_tree(board, r, s, k, depth + 1, fuel - 1, out);
        }
        proof {
            let d1 = (depth + 1) as nat;
            let f1 = (fuel - 1) as nat;
            assert(kid_rows(bv, r@, s@, id@, d1, f1, k + 1) == kid_rows(bv, r@, s@, id@, d1, f1, k as int) + if hit {
                tree_rows(bv, r@, s@, k as int, d1, f1)
            } else {
                Seq::<LineModel>::empty()
            });
            assert(lines_view(out@) =~= o1 + kid_rows(bv, r@, s@, id@, d1, f1, k + 1));
        }
        k += 1;
    }
    assert(lines_view(out@) =~= o0 + tree_rows(bv, r@, s@, j as int, depth as nat, fuel as nat));
}

fn push_roots(board: &Vec<(String, Node)>, r: &str, s: &str, out: &mut Vec<ObserveLine>)
    requires
        board.len() + 2 <= usize::MAX,
    ensures
        lines_view(final(out)@) == lines_view(old(out)@) + root_rows(
            board_view(board@),
            r@,
            s@,
            board@.len() as int,
        ),
{
    let ghost bv = board_view(board@);
    let ghost o0 = lines_view(out@);
    let mut k: usize = 0;
    assert(lines_view(out@) =~= o0 + root_rows(bv, r@, s@, 0));
    while k < board.len()
        invariant
            bv == board_view(board@),
            board.len() + 2 <= usize::MAX,
            k <= board.len(),
            lines_view(out@) == o0 + root_rows(bv, r@, s@, k as int),
        decreases board.len() - k,
    {
        proof {
            reveal_strlit("");
        }
        if is_member(&board[k], r, s) {
            let p = get_or(&board[k].1, "parent", "");
            assert(p@ == parent_of(bv[k as int].1));
            if p.as_str().is_empty() || !has_member_id(board, r, s, p.as_str()) {
                proof {
                    assert(p@.len() == 0 ==> parent_of(bv[k as int].1).len() == 0);
                }
                push_tree(board, r, s, k, 2, board.len(), out);
            } else {
                assert(!is_root(bv, r@, s@, k as int));
            }
        }
        proof {
            assert(lines_view(out@) =~= o0 + root_rows(bv, r@, s@, k + 1));
        }
        k += 1;
    }
}


// ─── sections ───────────────────────────────────────────────────────────────

/// Whether some node is listed under role `r` and subset `s`.
pub open spec fn has_members(b: BoardView, r: Seq<char>, s: Seq<char>) -> bool {
    exists|j: int| 0 <= j < b.len() && #[trigger] member(b, r, s, j)
}

/// A subset's heading and trees, when it has nodes.
pub open spec fn subset_rows(b: BoardView, r: Seq<char>, s: Seq<char>) -> Seq<LineModel> {
    if has_members(b, r, s) {
        seq![LineModel::Subset(s)] + root_rows(b, r, s, b.len() as int)
    } else {
        Seq::empty()
    }
}

/// The sections of subsets `ss` of role `r`, in that order.
pub open spec fn subsets_rows(b: BoardView, r: Seq<char>, ss: Seq<Seq<char>>) -> Seq<LineModel>
    decreases ss.len(),
{
    if ss.len() == 0 {
        Seq::empty()
    } else {
        subsets_rows(b, r, ss.drop_last()) + subset_rows(b, r, ss.last())
    }
}

/// The value last filed under key `k`.
pub open spec fn keyed<V>(m: Seq<(Seq<char>, V)>, k: Seq<char>) -> Option<V>
    decreases m.len(),
{
    if m.len() == 0 {
        None
    } else if m.last().0 == k {
        Some(m.last().1)
    } else {
        keyed(m.drop_last(), k)
    }
}

/// The subsets `arte.toml` declares for role `r`.
pub open spec fn declared_subsets(c: ConfModel, r: Seq<char>) -> Seq<Seq<char>> {
    match keyed(c.subsets, r) {
        Some(v) => v,
        None => Seq::empty(),
    }
}

/// Whether some node has role `r`.
pub open spec fn has_role(b: BoardView, r: Seq<char>) -> bool {
    exists|j: int| 0 <= j < b.len() && #[trigger] role_of(b[j].1) == r
}

/// The subsets in use under role `r` that `arte.toml` does not declare.
pub open spec fn extra_subsets(c: ConfModel, b: BoardView, r: Seq<char>) -> Set<Seq<char>> {
    Set::new(
        |x: Seq<char>|
            (exists|j: int| 0 <= j < b.len() && role_of(b[j].1) == r && #[trigger] subset_of(b[j].1) == x)
                && !declared_subsets(c, r).contains(x),
    )
}

/// A role's subsets in order: the declared ones, then the others sorted.
pub open spec fn subset_order(c: ConfModel, b: BoardView, r: Seq<char>) -> Seq<Seq<char>> {
    declared_subsets(c, r) + sorted_of(extra_subsets(c, b, r))
}

/// A role's heading and subsets, when it has nodes.
pub open spec fn role_rows(c: ConfModel, b: BoardView, r: Seq<char>) -> Seq<LineModel> {
    if has_role(b, r) {
        seq![LineModel::Role(r, keyed(c.axis, r))] + subsets_rows(b, r, subset_order(c, b, r))
    } else {
        Seq::empty()
    }
}

/// The sections of roles `rs`, in that order.
pub open spec fn roles_rows(c: ConfModel, b: BoardView, rs: Seq<Seq<char>>) -> Seq<LineModel>
    decreases rs.len(),
{
    if rs.len() == 0 {
        Seq::empty()
    } else {
        roles_rows(c, b, rs.drop_last()) + role_rows(c, b, rs.last())
    }
}

/// The roles in use that the chain does not name.
pub open spec fn extra_roles(c: ConfModel, b: BoardView) -> Set<Seq<char>> {
    Set::new(
        |x: Seq<char>| (exists|j: int| 0 <= j < b.len() && #[trigger] role_of(b[j].1) == x) && !c.chain.contains(x),
    )
}

/// The roles in order: the chain, then the others sorted.
pub open spec fn role_order(c: ConfModel, b: BoardView) -> Seq<Seq<char>> {
    c.chain + sorted_of(extra_roles(c, b))
}

/// The whole layout.
pub open spec fn observe_rows(c: ConfModel, b: BoardView) -> Seq<LineModel> {
    roles_rows(c, b, role_order(c, b))
}

fn any_member(board: &Vec<(String, Node)>, r: &str, s: &str) -> (m: bool)
    ensures
        m == has_members(board_view(board@), r@, s@),
{
    let ghost bv = board_view(board@);
    let mut k: usize = 0;
    while k < board.len()
        invariant
            bv == board_view(board@),
            k <= board.len(),
            forall|q: int| 0 <= q < k ==> !member(bv, r@, s@, q),
        decreases board.len() - k,
    {
        if is_member(&board[k], r, s) {
            assert(member(bv, r@, s@, k as int));
            return true;
        }
        k += 1;
    }
    false
}

fn any_role(board: &Vec<(String, Node)>, r: &str) -> (m: bool)
    ensures
        m == has_role(board_view(board@), r@),
{
    let ghost bv = board_view(board@);
    let mut k: usize = 0;
    while k < board.len()
        invariant
            bv == board_view(board@),
            k <= board.len(),
            forall|q: int| 0 <= q < k ==> role_of(bv[q].1) != r@,
        decreases board.len() - k,
    {
        if str_eq(get_or(&board[k].1, "role", "?").as_str(), r) {
            assert(role_of(bv[k as int].1) == r@);
            return true;
        }
        k += 1;
    }
    false
}

fn push_subsets(board: &Vec<(String, Node)>, r: &str, ss: &Vec<String>, out: &mut Vec<ObserveLine>)
    requires
        board.len() + 2 <= usize::MAX,
    ensures
        lines_view(final(out)@) == lines_view(old(out)@) + subsets_rows(board_view(board@), r@, strs(ss@)),
{
    let ghost bv = board_view(board@);
    let ghost o0 = lines_view(out@);
    let mut i: usize = 0;
    assert(strs(ss@).take(0) =~= Seq::<Seq<char>>::empty());
    assert(lines_view(out@) =~= o0 + subsets_rows(bv, r@, strs(ss@).take(0)));
    while i < ss.len()
        invariant
            bv == board_view(board@),
            board.len() + 2 <= usize::MAX,
            i <= ss.len(),
            lines_view(out@) == o0 + subsets_rows(bv, r@, strs(ss@).take(i as int)),
        decreases ss.len() - i,
    {
        let ghost before = lines_view(out@);
        let sub = ss[i].as_str();
        if any_member(board, r, sub) {
            out.push(ObserveLine::Subset(to_owned(sub)));
            assert(lines_view(out@) =~= before + seq![LineModel::Subset(sub@)]);
            push_roots(board, r, sub, out);
            assert(lines_view(out@) =~= before + subset_rows(bv, r@, sub@));
        } else {
            assert(lines_view(out@) =~= before + subset_rows(bv, r@, sub@));
        }
        proof {
            let t = strs(ss@).take(i + 1);
            assert(t.drop_last() =~= strs(ss@).take(i as int));
            assert(t.last() == ss@[i as int]@);
            assert(lines_view(out@) =~= o0 + subsets_rows(bv, r@, t));
        }
        i += 1;
    }
    assert(strs(ss@).take(ss.len() as int) =~= strs(ss@));
}

/// The declared subsets of role `r`.
fn declared_of(conf: &Conf, r: &str) -> (v: Vec<String>)
    ensures
        strs(v@) == declared_subsets(conf.model(), r@),
{
    let ghost m = conf.model().subsets;
    let mut i: usize = conf.subsets.len();
    assert(m.take(i as int) =~= m);
    while i > 0
        invariant
            i <= conf.subsets.len(),
            m == conf.model().subsets,
            keyed(m, r@) == keyed(m.take(i as int), r@),
        decreases i,
    {
        assert(m.take(i as int).drop_last() =~= m.take(i - 1));
        assert(m.take(i as int).last() == m[i - 1]);
        if str_eq(conf.subsets[i - 1].0.as_str(), r) {
            return copy_strings(&conf.subsets[i - 1].1);
        }
        i -= 1;
    }
    Vec::new()
}

/// The axis label declared for role `r`.
fn axis_of(conf: &Conf, r: &str) -> (a: Option<String>)
    ensures
        match a {
            Some(x) => keyed(conf.model().axis, r@) == Some(x@),
            None => keyed(conf.model().axis, r@) is None,
        },
{
    let ghost m = conf.model().axis;
    let mut i: usize = conf.subset_axis.len();
    assert(m.take(i as int) =~= m);
    while i > 0
        invariant
            i <= conf.subset_axis.len(),
            m == conf.model().axis,
            keyed(m, r@) == keyed(m.take(i as int), r@),
        decreases i,
    {
        assert(m.take(i as int).drop_last() =~= m.take(i - 1));
        assert(m.take(i as int).last() == m[i - 1]);
        if str_eq(conf.subset_axis[i - 1].0.as_str(), r) {
            return Some(to_owned(conf.subset_axis[i - 1].1.as_str()));
        }
        i -= 1;
    }
    None
}

/// The subsets of role `r` in layout order.
fn subsets_in_order(conf: &Conf, board: &Vec<(String, Node)>, r: &str) -> (v: Vec<String>)
    ensures
        strs(v@) == subset_order(conf.model(), board_view(board@), r@),
{
    let ghost bv = board_view(board@);
    let declared = declared_of(conf, r);
    let ghost dv = strs(declared@);
    let mut extra: Vec<String> = Vec::new();
    let mut k: usize = 0;
    while k < board.len()
        invariant
            bv == board_view(board@),
            dv == strs(declared@),
            dv == declared_subsets(conf.model(), r@),
            k <= board.len(),
            forall|q: int|
                0 <= q < extra@.len() ==> !dv.contains(#[trigger] strs(extra@)[q]) && exists|j: int|
                    0 <= j < k && role_of(bv[j].1) == r@ && subset_of(bv[j].1) == strs(extra@)[q],
            forall|j: int|
                0 <= j < k && role_of(bv[j].1) == r@ && !dv.contains(subset_of(bv[j].1)) ==> strs(
                    extra@,
                ).contains(#[trigger] subset_of(bv[j].1)),
        decreases board.len() - k,
    {
        let ro = get_or(&board[k].1, "role", "?");
        let so = get_or(&board[k].1, "subset", "general");
        let ghost e0 = strs(extra@);
        if str_eq(ro.as_str(), r) && !contains_string(&declared, so.as_str()) {
            extra.push(so);
            proof {
                assert(strs(extra@) =~= e0.push(subset_of(bv[k as int].1)));
                assert(strs(extra@)[e0.len() as int] == subset_of(bv[k as int].1));
            }
        }
        proof {
            assert forall|q: int|
                0 <= q < extra@.len() implies !dv.contains(#[trigger] strs(extra@)[q]) && exists|j: int|
                    0 <= j < k + 1 && role_of(bv[j].1) == r@ && subset_of(bv[j].1) == strs(extra@)[q] by {
                if q < e0.len() {
                    assert(strs(extra@)[q] == e0[q]);
                    let j = choose|j: int| 0 <= j < k && role_of(bv[j].1) == r@ && subset_of(bv[j].1) == e0[q];
                } else {
                    assert(role_of(bv[k as int].1) == r@);
                }
            }
            assert forall|j: int|
                0 <= j < k + 1 && role_of(bv[j].1) == r@ && !dv.contains(subset_of(bv[j].1)) implies strs(
                    extra@,
                ).contains(#[trigger] subset_of(bv[j].1)) by {
                if j < k {
                    let q = choose|q: int| 0 <= q < e0.len() && e0[q] == subset_of(bv[j].1);
                    assert(strs(extra@)[q] == e0[q]);
                } else {
                    assert(strs(extra@)[e0.len() as int] == subset_of(bv[k as int].1));
                }
            }
        }
        k += 1;
    }
    let ghost ev = strs(extra@);
    assert(ev.to_set() =~= extra_subsets(conf.model(), bv, r@)) by {
        assert forall|x: Seq<char>| ev.to_set().contains(x) implies extra_subsets(conf.model(), bv, r@).contains(x) by {
            let q = choose|q: int| 0 <= q < ev.len() && ev[q] == x;
            let j = choose|j: int| 0 <= j < board.len() && role_of(bv[j].1) == r@ && subset_of(bv[j].1) == ev[q];
        }
        assert forall|x: Seq<char>| extra_subsets(conf.model(), bv, r@).contains(x) implies ev.to_set().contains(x) by {
            let j = choose|j: int| 0 <= j < bv.len() && role_of(bv[j].1) == r@ && #[trigger] subset_of(bv[j].1) == x;
            assert(ev.contains(subset_of(bv[j].1)));
        }
    }
    let sorted = sorted_values(extra);
    let mut out = declared;
    let ghost o0 = strs(out@);
    let mut i: usize = 0;
    while i < sorted.len()
        invariant
            i <= sorted.len(),
            strs(out@) == o0 + strs(sorted@).take(i as int),
        decreases sorted.len() - i,
    {
        let ghost before = out@;
        out.push(to_owned(sorted[i].as_str()));
        assert(strs(out@) =~= strs(before).push(sorted@[i as int]@));
        assert(strs(sorted@).take(i + 1) =~= strs(sorted@).take(i as int).push(sorted@[i as int]@));
        assert(strs(out@) =~= o0 + strs(sorted@).take(i + 1));
        i += 1;
    }
    assert(strs(sorted@).take(sorted.len() as int) =~= strs(sorted@));
    out
}


/// The roles in layout order.
fn roles_in_order(conf: &Conf, board: &Vec<(String, Node)>) -> (v: Vec<String>)
    ensures
        strs(v@) == role_order(conf.model(), board_view(board@)),
{
    let ghost bv = board_view(board@);
    let ghost cv = conf.model().chain;
    let mut extra: Vec<String> = Vec::new();
    let mut k: usize = 0;
    while k < board.len()
        invariant
            bv == board_view(board@),
            cv == conf.model().chain,
            cv == strs(conf.chain@),
            k <= board.len(),
            forall|q: int|
                0 <= q < extra@.len() ==> !cv.contains(#[trigger] strs(extra@)[q]) && exists|j: int|
                    0 <= j < k && role_of(bv[j].1) == strs(extra@)[q],
            forall|j: int|
                0 <= j < k && !cv.contains(role_of(bv[j].1)) ==> strs(extra@).contains(#[trigger] role_of(bv[j].1)),
        decreases board.len() - k,
    {
        let ro = get_or(&board[k].1, "role", "?");
        let ghost e0 = strs(extra@);
        if !contains_string(&conf.chain, ro.as_str()) {
            extra.push(ro);
            proof {
                assert(strs(extra@) =~= e0.push(role_of(bv[k as int].1)));
                assert(strs(extra@)[e0.len() as int] == role_of(bv[k as int].1));
            }
        }
        proof {
            assert forall|q: int|
                0 <= q < extra@.len() implies !cv.contains(#[trigger] strs(extra@)[q]) && exists|j: int|
                    0 <= j < k + 1 && role_of(bv[j].1) == strs(extra@)[q] by {
                if q < e0.len() {
                    assert(strs(extra@)[q] == e0[q]);
                    let j = choose|j: int| 0 <= j < k && role_of(bv[j].1) == e0[q];
                }
            }
            assert forall|j: int|
                0 <= j < k + 1 && !cv.contains(role_of(bv[j].1)) implies strs(extra@).contains(
                    #[trigger] role_of(bv[j].1),
                ) by {
                if j < k {
                    let q = choose|q: int| 0 <= q < e0.len() && e0[q] == role_of(bv[j].1);
                    assert(strs(extra@)[q] == e0[q]);
                } else {
                    assert(strs(extra@)[e0.len() as int] == role_of(bv[k as int].1));
                }
            }
        }
        k += 1;
    }
    let ghost ev = strs(extra@);
    assert(ev.to_set() =~= extra_roles(conf.model(), bv)) by {
        assert forall|x: Seq<char>| ev.to_set().contains(x) implies extra_roles(conf.model(), bv).contains(x) by {
            let q = choose|q: int| 0 <= q < ev.len() && ev[q] == x;
            let j = choose|j: int| 0 <= j < board.len() && role_of(bv[j].1) == ev[q];
        }
        assert forall|x: Seq<char>| extra_roles(conf.model(), bv).contains(x) implies ev.to_set().contains(x) by {
            let j = choose|j: int| 0 <= j < bv.len() && #[trigger] role_of(bv[j].1) == x;
            assert(ev.contains(role_of(bv[j].1)));
        }
    }
    let sorted = sorted_values(extra);
    let mut out = copy_strings(&conf.chain);
    let ghost o0 = strs(out@);
    let mut i: usize = 0;
    while i < sorted.len()
        invariant
            i <= sorted.len(),
            strs(out@) == o0 + strs(sorted@).take(i as int),
        decreases sorted.len() - i,
    {
        let ghost before = out@;
        out.push(to_owned(sorted[i].as_str()));
        assert(strs(out@) =~= strs(before).push(sorted@[i as int]@));
        assert(strs(sorted@).take(i + 1) =~= strs(sorted@).take(i as int).push(sorted@[i as int]@));
        assert(strs(out@) =~= o0 + strs(sorted@).take(i + 1));
        i += 1;
    }
    assert(strs(sorted@).take(sorted.len() as int) =~= strs(sorted@));
    out
}

/// The lines of `arte observe` for a board: each role with nodes (chain
/// order, then other roles sorted) under its heading, each of its subsets
/// with nodes (declared order, then others sorted) under its heading, and
/// each subset's nodes as trees by `parent`, roots at depth 2 and each child
/// one level below its parent, siblings in board order (by id, for a board
/// as `assemble_board` gives it).
pub fn observe_layout(conf: &Conf, board: &Vec<(String, Node)>) -> (r: Vec<ObserveLine>)
    requires
        board.len() + 2 <= usize::MAX,
    ensures
        lines_view(r@) == observe_rows(conf.model(), board_view(board@)),
{
    let ghost bv = board_view(board@);
    let ghost cm = conf.model();
    let roles = roles_in_order(conf, board);
    let ghost rv = strs(roles@);
    let mut out: Vec<ObserveLine> = Vec::new();
    let mut i: usize = 0;
    assert(rv.take(0) =~= Seq::<Seq<char>>::empty());
    assert(lines_view(out@) =~= roles_rows(cm, bv, rv.take(0)));
    while i < roles.len()
        invariant
            bv == board_view(board@),
            cm == conf.model(),
            rv == strs(roles@),
            board.len() + 2 <= usize::MAX,
            i <= roles.len(),
            lines_view(out@) == roles_rows(cm, bv, rv.take(i as int)),
        decreases roles.len() - i,
    {
        let ghost before = lines_view(out@);
        let role = roles[i].as_str();
        if any_role(board, role) {
            let axis = axis_of(conf, role);
            out.push(ObserveLine::Role(to_owned(role), axis));
            assert(lines_view(out@) =~= before + seq![LineModel::Role(role@, keyed(cm.axis, role@))]);
            let subs = subsets_in_order(conf, board, role);
            push_subsets(board, role, &subs, &mut out);
            assert(lines_view(out@) =~= before + role_rows(cm, bv, role@));
        } else {
            assert(lines_view(out@) =~= before + role_rows(cm, bv, role@));
        }
        proof {
            let t = rv.take(i + 1);
            assert(t.drop_last() =~= rv.take(i as int));
            assert(t.last() == roles@[i as int]@);
        }
        i += 1;
    }
    assert(rv.take(roles.len() as int) =~= rv);
    out
}


// ─── the upward trace ───────────────────────────────────────────────────────

/// One line of `arte trace`: an id at a depth, with the board index of its
/// node (`None`: no node has that id).
#[derive(Debug, PartialEq, Eq)]
pub struct TraceStep {
    pub depth: usize,
    pub id: String,
    pub node: Option<usize>,
}

pub struct StepModel {
    pub depth: nat,
    pub id: Seq<char>,
    pub node: Option<int>,
}

impl View for TraceStep {
    type V = StepModel;

    open spec fn view(&self) -> StepModel {
        StepModel {
            depth: self.depth as nat,
            id: self.id@,
            node: match self.node {
                Some(i) => Some(i as int),
                None => None,
            },
        }
    }
}

/// The index of the last node filed under `id` among the first `upto`.
pub open spec fn last_id_index(b: BoardView, id: Seq<char>, upto: int) -> Option<int>
    decreases upto,
{
    if upto <= 0 {
        None
    } else if b[upto - 1].0 == id {
        Some(upto - 1)
    } else {
        last_id_index(b, id, upto - 1)
    }
}

/// The index of the node with id `id` (the last one, when an id repeats).
pub open spec fn id_index(b: BoardView, id: Seq<char>) -> Option<int> {
    last_id_index(b, id, b.len() as int)
}

proof fn lemma_last_id_index(b: BoardView, id: Seq<char>, upto: int)
    requires
        0 <= upto <= b.len(),
    ensures
        match last_id_index(b, id, upto) {
            Some(i) => 0 <= i < upto && b[i].0 == id,
            None => true,
        },
    decreases upto,
{
    if upto > 0 && b[upto - 1].0 != id {
        lemma_last_id_index(b, id, upto - 1);
    }
}

/// The index of the node with id `id`, when there is one.
fn index_of_id(board: &Vec<(String, Node)>, id: &str) -> (r: Option<usize>)
    ensures
        match r {
            Some(i) => id_index(board_view(board@), id@) == Some(i as int) && i < board.len() && board@[i as int].0@
                == id@,
            None => id_index(board_view(board@), id@) is None,
        },
{
    let ghost bv = board_view(board@);
    let mut k: usize = board.len();
    while k > 0
        invariant
            bv == board_view(board@),
            k <= board.len(),
            id_index(bv, id@) == last_id_index(bv, id@, k as int),
        decreases k,
    {
        if str_eq(board[k - 1].0.as_str(), id) {
            return Some(k - 1);
        }
        k -= 1;
    }
    None
}

pub open spec fn steps_view(v: Seq<TraceStep>) -> Seq<StepModel> {
    v.map_values(|t: TraceStep| t@)
}

/// `id` at `depth` with the index of its node, then, when it names a node,
/// the trace of each id that node serves one level deeper, in order, down
/// to `fuel` levels (the trace allows one more level than the board has
/// nodes, so it ends on a board whose `serves` links form no cycle).
pub open spec fn trace_rows(b: BoardView, id: Seq<char>, depth: nat, fuel: nat) -> Seq<StepModel>
    decreases fuel, 0int,
{
    if fuel == 0 {
        Seq::empty()
    } else {
        seq![StepModel { depth, id, node: id_index(b, id) }] + match id_index(b, id) {
            Some(i) => served_rows(b, serves_of(b[i].1), depth + 1, (fuel - 1) as nat, serves_of(b[i].1).len() as int),
            None => Seq::empty(),
        }
    }
}

/// The traces of the first `upto` ids of `ss`.
pub open spec fn served_rows(b: BoardView, ss: Seq<Seq<char>>, depth: nat, fuel: nat, upto: int) -> Seq<StepModel>
    decreases fuel, upto,
{
    if upto <= 0 {
        Seq::empty()
    } else {
        served_rows(b, ss, depth, fuel, upto - 1) + trace_rows(b, ss[upto - 1], depth, fuel)
    }
}

/// Each step's node index points at a node filed under the step's id.
pub open spec fn steps_point(board: Seq<(String, Node)>, v: Seq<TraceStep>) -> bool {
    forall|k: int|
        0 <= k < v.len() ==> match #[trigger] v[k].node {
            Some(i) => i < board.len() && board[i as int].0@ == v[k].id@,
            None => true,
        }
}

fn push_trace(board: &Vec<(String, Node)>, id: &str, depth: usize, fuel: usize, out: &mut Vec<TraceStep>)
    requires
        depth + fuel <= usize::MAX,
        steps_point(board@, old(out)@),
    ensures
        steps_point(board@, final(out)@),
        steps_view(final(out)@) == steps_view(old(out)@) + trace_rows(board_view(board@), id@, depth as nat, fuel as nat),
    decreases fuel,
{
    let ghost bv = board_view(board@);
    let ghost o0 = steps_view(out@);
    if fuel == 0 {
        assert(steps_view(out@) =~= o0 + Seq::<StepModel>::empty());
        return;
    }
    let found = index_of_id(board, id);
    out.push(TraceStep { depth, id: to_owned(id), node: found });
    let ghost o1 = steps_view(out@);
    assert(o1 =~= o0 + seq![StepModel { depth: depth as nat, id: id@, node: id_index(bv, id@) }]);
    assert(steps_point(board@, out@)) by {
        assert forall|q: int| 0 <= q < out@.len() implies match #[trigger] out@[q].node {
            Some(i) => i < board@.len() && board@[i as int].0@ == out@[q].id@,
            None => true,
        } by {
            if q < out@.len() - 1 {
                assert(out@[q] == old(out)@[q]);
            }
        }
    }
    match found {
        Some(i) => {
            let ups = serves(&board[i].1);
            let ghost sv = serves_of(board@[i as int].1@);
            assert(strs(ups@) == sv);
            let mut k: usize = 0;
            while k < ups.len()
                invariant
                    bv == board_view(board@),
                    fuel > 0,
                    depth + fuel <= usize::MAX,
                    k <= ups.len(),
                    strs(ups@) == sv,
                    steps_point(board@, out@),
                    steps_view(out@) == o1 + served_rows(bv, sv, (depth + 1) as nat, (fuel - 1) as nat, k as int),
                decreases ups.len() - k,
            {
                push_trace(board, ups[k].as_str(), depth + 1, fuel - 1, out);
                assert(sv[k as int] == ups@[k as int]@);
                assert(steps_view(out@) =~= o1 + served_rows(bv, sv, (depth + 1) as nat, (fuel - 1) as nat, k + 1));
                k += 1;
            }
            assert(steps_view(out@) =~= o0 + trace_rows(bv, id@, depth as nat, fuel as nat));
        },
        None => {
            assert(steps_view(out@) =~= o0 + trace_rows(bv, id@, depth as nat, fuel as nat));
        },
    }
}

/// The lines of `arte trace <id>`: the id at depth 0, then up each `serves`
/// link in turn, depth first, a missing node ending its branch.
pub fn trace_lines(board: &Vec<(String, Node)>, id: &str) -> (r: Vec<TraceStep>)
    requires
        board.len() + 1 <= usize::MAX,
    ensures
        steps_view(r@) == trace_rows(board_view(board@), id@, 0, (board@.len() + 1) as nat),
        steps_point(board@, r@),
{
    let mut out: Vec<TraceStep> = Vec::new();
    push_trace(board, id, 0, board.len() + 1, &mut out);
    assert(steps_view(out@) =~= Seq::<StepModel>::empty() + trace_rows(board_view(board@), id@, 0, (board@.len() + 1) as nat));
    out
}

} // verus!
