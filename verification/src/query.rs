//! Read-side derivations over the board: status roll-up, `at:` paths, the
//! test-backed heuristic and the coverage report. All derived — nothing here
//! is stored.
use vstd::prelude::*;

use crate::graph::{
    board_view, contains_string, reaches, serves, serves_adjacency, serves_graph, serves_of, strs,
    walk_up, BoardView,
};
use crate::node::{spec_all, spec_get, Field, Node};
use crate::runs::{field_or_empty, get_or_empty};
use crate::text::{chars_of, contains_str, has_infix, has_prefix, starts_with, str_eq, string_of};

verus! {

// ─── roll-up ────────────────────────────────────────────────────────────────

/// Severity of a status word: ko/fail > pending > justified > ok > anything else.
pub open spec fn status_rank(o: Option<Seq<char>>) -> int {
    match o {
        Some(s) => if s == "ko"@ || s == "fail"@ {
            4
        } else if s == "pending"@ {
            3
        } else if s == "justified"@ {
            2
        } else if s == "ok"@ {
            1
        } else {
            0
        },
        None => 0,
    }
}

pub open spec fn opt_view(o: Option<String>) -> Option<Seq<char>> {
    match o {
        Some(s) => Some(s@),
        None => None,
    }
}

pub open spec fn opts_view(v: Seq<Option<String>>) -> Seq<Option<Seq<char>>> {
    v.map_values(|o: Option<String>| opt_view(o))
}

/// Index of the worst entry: the last of those with the highest rank.
pub open spec fn worst_index(s: Seq<Option<Seq<char>>>) -> int
    decreases s.len(),
{
    if s.len() <= 1 {
        0
    } else {
        let b = worst_index(s.drop_last());
        if status_rank(s.last()) >= status_rank(s[b]) {
            s.len() - 1
        } else {
            b
        }
    }
}

/// Worst-wins roll-up: the worst status, or none when no entry has a known rank.
pub open spec fn spec_rollup(s: Seq<Option<Seq<char>>>) -> Option<Seq<char>> {
    if s.len() == 0 || status_rank(s[worst_index(s)]) == 0 {
        None
    } else {
        s[worst_index(s)]
    }
}

proof fn lemma_worst_index(s: Seq<Option<Seq<char>>>)
    requires
        s.len() > 0,
    ensures
        0 <= worst_index(s) < s.len(),
        forall|i: int| 0 <= i < s.len() ==> status_rank(#[trigger] s[i]) <= status_rank(s[worst_index(s)]),
        forall|i: int|
            worst_index(s) < i < s.len() ==> status_rank(#[trigger] s[i]) < status_rank(s[worst_index(s)]),
    decreases s.len(),
{
    if s.len() > 1 {
        lemma_worst_index(s.drop_last());
        assert forall|i: int| 0 <= i < s.len() - 1 implies #[trigger] s[i] == s.drop_last()[i] by {}
    }
}

/// Rank of one status, computed.
fn rank_of(o: &Option<String>) -> (r: u8)
    ensures
        r as int == status_rank(opt_view(*o)),
{
    proof {
        reveal_strlit("ko");
        reveal_strlit("fail");
        reveal_strlit("pending");
        reveal_strlit("justified");
        reveal_strlit("ok");
    }
    match o {
        Some(s) => {
            let t = s.as_str();
            if str_eq(t, "ko") || str_eq(t, "fail") {
                4
            } else if str_eq(t, "pending") {
                3
            } else if str_eq(t, "justified") {
                2
            } else if str_eq(t, "ok") {
                1
            } else {
                0
            }
        },
        None => 0,
    }
}

/// Worst-wins roll-up: ko > pending > justified > ok > (none).
pub fn rollup(st: &[Option<String>]) -> (r: Option<String>)
    ensures
        opt_view(r) == spec_rollup(opts_view(st@)),
{
    let ghost v = opts_view(st@);
    if st.len() == 0 {
        return None;
    }
    let mut best: usize = 0;
    let mut best_rank: u8 = rank_of(&st[0]);
    let mut i: usize = 1;
    while i < st.len()
        invariant
            1 <= i <= st@.len(),
            v == opts_view(st@),
            best as int == worst_index(v.take(i as int)),
            best < i,
            best_rank as int == status_rank(v[best as int]),
        decreases st.len() - i,
    {
        let r = rank_of(&st[i]);
        assert(v.take(i + 1).drop_last() =~= v.take(i as int));
        assert(v.take(i as int)[best as int] == v[best as int]);
        if r >= best_rank {
            best = i;
            best_rank = r;
        }
        i += 1;
    }
    assert(v.take(i as int) =~= v);
    if best_rank == 0 {
        None
    } else {
        match &st[best] {
            Some(s) => Some(s.clone()),
            None => None,
        }
    }
}

/// What the roll-up returns is never less severe than any input, and it is the
/// last of the most severe ones.
pub proof fn law_rollup_is_worst(s: Seq<Option<Seq<char>>>, i: int)
    requires
        0 <= i < s.len(),
    ensures
        status_rank(s[i]) <= status_rank(spec_rollup(s)),
        status_rank(s[i]) > 0 && status_rank(s[i]) == status_rank(spec_rollup(s)) ==> (
        exists|j: int| i <= j < s.len() && spec_rollup(s) == #[trigger] s[j]),
{
    lemma_worst_index(s);
    let w = worst_index(s);
    if status_rank(s[i]) > 0 && status_rank(s[i]) == status_rank(spec_rollup(s)) {
        assert(i <= w);
        assert(spec_rollup(s) == s[w]);
    }
}

// ─── `at:` paths ────────────────────────────────────────────────────────────

/// Index of the first `#` or `:` in `s`, or `s.len()`.
pub open spec fn first_anchor(s: Seq<char>) -> int
    decreases s.len(),
{
    if s.len() == 0 {
        0
    } else if s[0] == '#' || s[0] == ':' {
        0
    } else {
        1 + first_anchor(s.drop_first())
    }
}

/// The file part of an `at:` value: everything before its first `#` or `:`.
pub open spec fn spec_at_path(s: Seq<char>) -> Seq<char> {
    s.take(first_anchor(s))
}

pub proof fn lemma_first_anchor(s: Seq<char>)
    ensures
        0 <= first_anchor(s) <= s.len(),
    decreases s.len(),
{
    if s.len() > 0 {
        lemma_first_anchor(s.drop_first());
    }
}

proof fn lemma_first_anchor_at(s: Seq<char>, k: int)
    requires
        0 <= k <= s.len(),
        forall|j: int| 0 <= j < k ==> s[j] != '#' && s[j] != ':',
        k < s.len() ==> s[k] == '#' || s[k] == ':',
    ensures
        first_anchor(s) == k,
    decreases s.len(),
{
    if s.len() > 0 && k > 0 {
        assert forall|j: int| 0 <= j < k - 1 implies s.drop_first()[j] != '#' && s.drop_first()[j]
            != ':' by {
            assert(s.drop_first()[j] == s[j + 1]);
        }
        lemma_first_anchor_at(s.drop_first(), k - 1);
    }
}

/// The file path part of an `at:` value — anchors after `#` (`file#unit`) or
/// `:` (`file:line`, `file:test name`) are stripped.
pub fn at_path(a: &str) -> (r: String)
    ensures
        r@ == spec_at_path(a@),
{
    let v = chars_of(a);
    let mut i: usize = 0;
    while i < v.len() && v[i] != '#' && v[i] != ':'
        invariant
            i <= v@.len(),
            forall|j: int| 0 <= j < i ==> v@[j] != '#' && v@[j] != ':',
        decreases v.len() - i,
    {
        i += 1;
    }
    proof {
        lemma_first_anchor_at(v@, i as int);
    }
    let r = string_of(&v, 0, i);
    assert(v@.subrange(0, i as int) =~= v@.take(i as int));
    r
}

// ─── the test-backed heuristic ──────────────────────────────────────────────

/// An `at:` value that points at a test: a `*.test.*` file, or a path under
/// `tests/`, `test/`, `qa/tests/` or `__tests__/`.
pub open spec fn test_backed(s: Seq<char>) -> bool {
    ||| has_infix(s, ".test."@)
    ||| has_prefix(s, "tests/"@)
    ||| has_prefix(s, "test/"@)
    ||| has_prefix(s, "qa/tests/"@)
    ||| has_prefix(s, "__tests__/"@)
}

/// Whether an `at:` value points at a test file (the verified heuristic).
pub fn is_test_backed_path(a: &str) -> (r: bool)
    ensures
        r == test_backed(a@),
{
    contains_str(a, ".test.") || starts_with(a, "tests/") || starts_with(a, "test/") || starts_with(
        a,
        "qa/tests/",
    ) || starts_with(a, "__tests__/")
}

// ─── coverage ───────────────────────────────────────────────────────────────

pub open spec fn role_of(fs: Seq<Field>) -> Option<Seq<char>> {
    spec_get(fs, "role"@)
}

/// The ancestors of node `k` (walking `serves` up) hold `x`.
pub open spec fn covers(b: BoardView, k: int, x: Seq<char>) -> bool {
    reaches(serves_graph(b), serves_of(b[k].1), x)
}

/// Some node of layer `role` realizes `x` (has it among its ancestors).
pub open spec fn layer_hit(b: BoardView, role: Seq<char>, x: Seq<char>) -> bool {
    exists|k: int| 0 <= k < b.len() && role_of(b[k].1) == Some(role) && #[trigger] covers(b, k, x)
}

/// The statuses of the layer-`role` nodes among the first `n` that realize `x`.
pub open spec fn layer_statuses(b: BoardView, role: Seq<char>, x: Seq<char>, n: int) -> Seq<
    Option<Seq<char>>,
>
    decreases n,
{
    if n <= 0 {
        Seq::empty()
    } else {
        let rest = layer_statuses(b, role, x, n - 1);
        if role_of(b[n - 1].1) == Some(role) && covers(b, n - 1, x) {
            rest.push(spec_get(b[n - 1].1, "status"@))
        } else {
            rest
        }
    }
}

/// The statuses of every downstream layer realizing `x`, layer by layer.
pub open spec fn down_statuses(b: BoardView, down: Seq<Seq<char>>, x: Seq<char>) -> Seq<
    Option<Seq<char>>,
>
    decreases down.len(),
{
    if down.len() == 0 {
        Seq::empty()
    } else {
        down_statuses(b, down.drop_last(), x) + layer_statuses(b, down.last(), x, b.len() as int)
    }
}

/// A green node pointing at a test file.
pub open spec fn green_test(fs: Seq<Field>) -> bool {
    &&& spec_get(fs, "status"@) == Some("ok"@)
    &&& exists|j: int| 0 <= j < spec_all(fs, "at"@).len() && test_backed(#[trigger] spec_all(fs, "at"@)[j])
}

/// A green, test-backed node of layer `vrole` realizes `x`.
pub open spec fn verified_by(b: BoardView, vrole: Seq<char>, x: Seq<char>) -> bool {
    exists|k: int|
        0 <= k < b.len() && role_of(b[k].1) == Some(vrole) && #[trigger] covers(b, k, x) && green_test(
            b[k].1,
        )
}

/// One intent's line of the report, as pure data.
pub struct RowModel {
    pub id: Seq<char>,
    pub title: Seq<char>,
    pub cells: Seq<(Seq<char>, bool)>,
    pub chip: Option<Seq<char>>,
    pub verified: bool,
    pub whole: bool,
}

/// Per downstream layer: the layer and whether it realizes `x`.
pub open spec fn hit_cells(b: BoardView, down: Seq<Seq<char>>, x: Seq<char>) -> Seq<(Seq<char>, bool)> {
    down.map_values(|r: Seq<char>| (r, layer_hit(b, r, x)))
}

pub open spec fn cells_view(v: Seq<(String, bool)>) -> Seq<(Seq<char>, bool)> {
    v.map_values(|c: (String, bool)| (c.0@, c.1))
}

pub open spec fn spec_row(b: BoardView, down: Seq<Seq<char>>, vrole: Seq<char>, k: int) -> RowModel {
    let x = b[k].0;
    let fs = b[k].1;
    RowModel {
        id: x,
        title: get_or_empty(fs, "title"@),
        cells: hit_cells(b, down, x),
        chip: spec_rollup(seq![spec_get(fs, "status"@)] + down_statuses(b, down, x)),
        verified: verified_by(b, vrole, x),
        whole: forall|j: int| 0 <= j < down.len() ==> layer_hit(b, #[trigger] down[j], x),
    }
}

/// The rows for the intents among the first `n` nodes, in board order.
pub open spec fn spec_rows(b: BoardView, chain: Seq<Seq<char>>, n: int) -> Seq<RowModel>
    decreases n,
{
    if n <= 0 {
        Seq::empty()
    } else {
        let rest = spec_rows(b, chain, n - 1);
        if role_of(b[n - 1].1) == Some(chain[0]) {
            rest.push(spec_row(b, chain.skip(1), chain.last(), n - 1))
        } else {
            rest
        }
    }
}

pub open spec fn count_whole(rs: Seq<RowModel>) -> nat
    decreases rs.len(),
{
    if rs.len() == 0 {
        0
    } else {
        count_whole(rs.drop_last()) + if rs.last().whole {
            1nat
        } else {
            0nat
        }
    }
}

pub open spec fn count_verified(rs: Seq<RowModel>) -> nat
    decreases rs.len(),
{
    if rs.len() == 0 {
        0
    } else {
        count_verified(rs.drop_last()) + if rs.last().verified {
            1nat
        } else {
            0nat
        }
    }
}

/// The ids of the layer-`role` nodes among the first `n` that no layer-`by`
/// node realizes.
pub open spec fn unclaimed(b: BoardView, role: Seq<char>, by: Seq<char>, n: int) -> Seq<Seq<char>>
    decreases n,
{
    if n <= 0 {
        Seq::empty()
    } else {
        let rest = unclaimed(b, role, by, n - 1);
        if role_of(b[n - 1].1) == Some(role) && !layer_hit(b, by, b[n - 1].0) {
            rest.push(b[n - 1].0)
        } else {
            rest
        }
    }
}

/// A node is listed as unclaimed exactly when it is of layer `role` and no
/// node of layer `by` has it among its ancestors (walking `serves` up): so
/// the holes are the controls that no validation proves, and the bare impls
/// those that no control governs.
pub proof fn law_unclaimed_is_unrealized(b: BoardView, role: Seq<char>, by: Seq<char>, n: int, x: Seq<char>)
    requires
        0 <= n <= b.len(),
    ensures
        unclaimed(b, role, by, n).contains(x) <==> (exists|k: int|
            0 <= k < n && #[trigger] b[k].0 == x && spec_get(b[k].1, "role"@) == Some(role)) && !(exists|j: int|
            0 <= j < b.len() && spec_get(#[trigger] b[j].1, "role"@) == Some(by) && reaches(
                serves_graph(b),
                serves_of(b[j].1),
                x,
            )),
    decreases n,
{
    if n > 0 {
        law_unclaimed_is_unrealized(b, role, by, n - 1, x);
        let rest = unclaimed(b, role, by, n - 1);
        let k = n - 1;
        let hit = exists|j: int|
            0 <= j < b.len() && spec_get(#[trigger] b[j].1, "role"@) == Some(by) && reaches(
                serves_graph(b),
                serves_of(b[j].1),
                x,
            );
        if b[k].0 == x {
            assert(layer_hit(b, by, x) == hit) by {
                if layer_hit(b, by, x) {
                    let j = choose|j: int| 0 <= j < b.len() && role_of(b[j].1) == Some(by) && #[trigger] covers(b, j, x);
                    assert(spec_get(b[j].1, "role"@) == Some(by));
                }
                if hit {
                    let j = choose|j: int|
                        0 <= j < b.len() && spec_get(#[trigger] b[j].1, "role"@) == Some(by) && reaches(
                            serves_graph(b),
                            serves_of(b[j].1),
                            x,
                        );
                    assert(covers(b, j, x));
                }
            }
        }
        if role_of(b[k].1) == Some(role) && !layer_hit(b, by, b[k].0) {
            crate::graph::lemma_push_contains(rest, b[k].0);
        }
    }
}

/// Whether some node of layer `by` has `x` among its ancestors.
pub open spec fn realized_by(b: BoardView, by: Seq<char>, x: Seq<char>) -> bool {
    exists|j: int|
        0 <= j < b.len() && spec_get(#[trigger] b[j].1, "role"@) == Some(by) && reaches(serves_graph(b), serves_of(b[j].1), x)
}

/// The unclaimed list is the board's own order of its layer-`role` nodes,
/// each once per node, keeping those that no layer-`by` node realizes.
pub proof fn law_unclaimed_in_board_order(b: BoardView, role: Seq<char>, by: Seq<char>, n: int)
    requires
        0 <= n <= b.len(),
    ensures
        unclaimed(b, role, by, n) == b.take(n).filter(
            |e: (Seq<char>, Seq<Field>)| spec_get(e.1, "role"@) == Some(role) && !realized_by(b, by, e.0),
        ).map_values(|e: (Seq<char>, Seq<Field>)| e.0),
    decreases n,
{
    let pred = |e: (Seq<char>, Seq<Field>)| spec_get(e.1, "role"@) == Some(role) && !realized_by(b, by, e.0);
    reveal(Seq::filter);
    if n == 0 {
        assert(b.take(0) =~= Seq::<(Seq<char>, Seq<Field>)>::empty());
        assert(b.take(0).filter(pred).map_values(|e: (Seq<char>, Seq<Field>)| e.0) =~= Seq::<Seq<char>>::empty());
    } else {
        law_unclaimed_in_board_order(b, role, by, n - 1);
        let t = b.take(n);
        assert(t.drop_last() =~= b.take(n - 1));
        assert(t.last() == b[n - 1]);
        let x = b[n - 1].0;
        assert(layer_hit(b, by, x) == realized_by(b, by, x)) by {
            if layer_hit(b, by, x) {
                let j = choose|j: int| 0 <= j < b.len() && role_of(b[j].1) == Some(by) && #[trigger] covers(b, j, x);
                assert(spec_get(b[j].1, "role"@) == Some(by));
            }
            if realized_by(b, by, x) {
                let j = choose|j: int|
                    0 <= j < b.len() && spec_get(#[trigger] b[j].1, "role"@) == Some(by) && reaches(
                        serves_graph(b),
                        serves_of(b[j].1),
                        x,
                    );
                assert(covers(b, j, x));
            }
        }
        let f0 = b.take(n - 1).filter(pred);
        if pred(b[n - 1]) {
            assert(t.filter(pred) == f0.push(b[n - 1]));
            assert(f0.push(b[n - 1]).map_values(|e: (Seq<char>, Seq<Field>)| e.0) =~= f0.map_values(
                |e: (Seq<char>, Seq<Field>)| e.0,
            ).push(x));
        } else {
            assert(t.filter(pred) == f0);
        }
    }
}

/// The control layer: the one before the last, "control" on a short chain.
pub open spec fn control_role(chain: Seq<Seq<char>>) -> Seq<char> {
    if chain.len() >= 2 {
        chain[chain.len() - 2]
    } else {
        "control"@
    }
}

/// The impl layer: the second, "impl" on a short chain.
pub open spec fn impl_role(chain: Seq<Seq<char>>) -> Seq<char> {
    if chain.len() >= 2 {
        chain[1]
    } else {
        "impl"@
    }
}

/// One intent's line of the coverage report.
pub struct CoverageRow {
    pub id: String,
    pub title: String,
    /// Per downstream layer: whether some node of it realizes the intent.
    pub cells: Vec<(String, bool)>,
    /// Worst-wins roll-up of the intent's own status and its realizers'.
    pub chip: Option<String>,
    /// Backed by a green test.
    pub verified: bool,
    /// Realized in every downstream layer.
    pub whole: bool,
}

impl View for CoverageRow {
    type V = RowModel;

    open spec fn view(&self) -> RowModel {
        RowModel {
            id: self.id@,
            title: self.title@,
            cells: cells_view(self.cells@),
            chip: opt_view(self.chip),
            verified: self.verified,
            whole: self.whole,
        }
    }
}

/// The coverage report: per intent, realized in every downstream layer? plus
/// the status roll-up, the counts, and the ungoverned nodes.
pub struct CoverageReport {
    pub rows: Vec<CoverageRow>,
    pub intents: usize,
    pub covered: usize,
    pub verified: usize,
    pub gaps: usize,
    /// Controls no validation realizes (reproduction holes).
    pub holes: Vec<String>,
    /// Impls no control realizes (ungoverned surface).
    pub bare: Vec<String>,
}

pub open spec fn rows_view(v: Seq<CoverageRow>) -> Seq<RowModel> {
    v.map_values(|r: CoverageRow| r@)
}

/// Each entry of `cl` lists the ancestors of the node at the same index.
pub open spec fn closures_ok(b: BoardView, cl: Seq<Vec<String>>) -> bool {
    &&& cl.len() == b.len()
    &&& forall|k: int, x: Seq<char>|
        #![trigger strs(cl[k]@).contains(x)]
        #![trigger covers(b, k, x)]
        0 <= k < b.len() ==> (strs(cl[k]@).contains(x) <==> covers(b, k, x))
}

fn closures(board: &Vec<(String, Node)>) -> (cl: Vec<Vec<String>>)
    ensures
        closures_ok(board_view(board@), cl@),
{
    let ghost bv = board_view(board@);
    let g = serves_adjacency(board);
    let mut cl: Vec<Vec<String>> = Vec::new();
    let mut k: usize = 0;
    while k < board.len()
        invariant
            k <= board@.len(),
            bv == board_view(board@),
            crate::graph::adj_view(g@) == serves_graph(bv),
            cl@.len() == k,
            forall|j: int, x: Seq<char>|
                #![trigger strs(cl@[j]@).contains(x)]
                #![trigger covers(bv, j, x)]
                0 <= j < k ==> (strs(cl@[j]@).contains(x) <==> covers(bv, j, x)),
        decreases board.len() - k,
    {
        let c = walk_up(serves(&board[k].1), &g);
        assert(bv[k as int].1 == board@[k as int].1@);
        cl.push(c);
        k += 1;
    }
    cl
}

fn role_is(n: &Node, role: &str) -> (r: bool)
    ensures
        r == (role_of(n@) == Some(role@)),
{
    proof {
        reveal_strlit("role");
    }
    match n.get("role") {
        Some(v) => str_eq(v, role),
        None => false,
    }
}

/// Some node of layer `role` has `x` among its ancestors.
fn layer_hit_of(board: &Vec<(String, Node)>, cl: &Vec<Vec<String>>, role: &str, x: &str) -> (r: bool)
    requires
        closures_ok(board_view(board@), cl@),
    ensures
        r == layer_hit(board_view(board@), role@, x@),
{
    let ghost bv = board_view(board@);
    let mut k: usize = 0;
    while k < board.len()
        invariant
            k <= board@.len(),
            bv == board_view(board@),
            closures_ok(bv, cl@),
            forall|j: int| 0 <= j < k ==> !(role_of(bv[j].1) == Some(role@) && #[trigger] covers(bv, j, x@)),
        decreases board.len() - k,
    {
        if role_is(&board[k].1, role) && contains_string(&cl[k], x) {
            assert(covers(bv, k as int, x@));
            return true;
        }
        k += 1;
    }
    false
}

/// Appends the statuses of the layer-`role` nodes that have `x` among their ancestors.
fn push_layer_statuses(
    board: &Vec<(String, Node)>,
    cl: &Vec<Vec<String>>,
    role: &str,
    x: &str,
    out: &mut Vec<Option<String>>,
)
    requires
        closures_ok(board_view(board@), cl@),
    ensures
        opts_view(final(out)@) == opts_view(old(out)@) + layer_statuses(
            board_view(board@),
            role@,
            x@,
            board@.len() as int,
        ),
{
    proof {
        reveal_strlit("status");
    }
    let ghost bv = board_view(board@);
    let mut k: usize = 0;
    while k < board.len()
        invariant
            k <= board@.len(),
            bv == board_view(board@),
            closures_ok(bv, cl@),
            opts_view(out@) == opts_view(old(out)@) + layer_statuses(bv, role@, x@, k as int),
        decreases board.len() - k,
    {
        if role_is(&board[k].1, role) && contains_string(&cl[k], x) {
            let st = match board[k].1.get("status") {
                Some(v) => Some(to_owned_str(v)),
                None => None,
            };
            let ghost before = out@;
            out.push(st);
            assert(opts_view(out@) =~= opts_view(before).push(spec_get(bv[k as int].1, "status"@)));
        }
        assert(opts_view(out@) =~= opts_view(old(out)@) + layer_statuses(bv, role@, x@, k + 1));
        k += 1;
    }
}

fn to_owned_str(s: &str) -> (r: String)
    ensures
        r@ == s@,
{
    crate::text::to_owned(s)
}

/// A green node whose `at:` points at a test.
fn is_green_test(n: &Node) -> (r: bool)
    ensures
        r == green_test(n@),
{
    proof {
        reveal_strlit("status");
        reveal_strlit("ok");
        reveal_strlit("at");
    }
    let ok = match n.get("status") {
        Some(v) => str_eq(v, "ok"),
        None => false,
    };
    if !ok {
        return false;
    }
    let ats = n.all("at");
    let mut j: usize = 0;
    while j < ats.len()
        invariant
            j <= ats@.len(),
            spec_get(n@, "status"@) == Some("ok"@),
            ats@.len() == spec_all(n@, "at"@).len(),
            forall|q: int| 0 <= q < ats@.len() ==> #[trigger] ats@[q]@ == spec_all(n@, "at"@)[q],
            forall|q: int| 0 <= q < j ==> !test_backed(#[trigger] spec_all(n@, "at"@)[q]),
        decreases ats.len() - j,
    {
        if is_test_backed_path(ats[j]) {
            assert(test_backed(spec_all(n@, "at"@)[j as int]));
            return true;
        }
        j += 1;
    }
    false
}

fn verified_by_of(board: &Vec<(String, Node)>, cl: &Vec<Vec<String>>, vrole: &str, x: &str) -> (r: bool)
    requires
        closures_ok(board_view(board@), cl@),
    ensures
        r == verified_by(board_view(board@), vrole@, x@),
{
    let ghost bv = board_view(board@);
    let mut k: usize = 0;
    while k < board.len()
        invariant
            k <= board@.len(),
            bv == board_view(board@),
            closures_ok(bv, cl@),
            forall|j: int|
                0 <= j < k ==> !(role_of(bv[j].1) == Some(vrole@) && #[trigger] covers(bv, j, x@)
                    && green_test(bv[j].1)),
        decreases board.len() - k,
    {
        if role_is(&board[k].1, vrole) && contains_string(&cl[k], x) && is_green_test(&board[k].1) {
            assert(covers(bv, k as int, x@));
            return true;
        }
        k += 1;
    }
    false
}

/// The ids of the layer-`role` nodes no layer-`by` node realizes.
fn unclaimed_of(board: &Vec<(String, Node)>, cl: &Vec<Vec<String>>, role: &str, by: &str) -> (r: Vec<String>)
    requires
        closures_ok(board_view(board@), cl@),
    ensures
        strs(r@) == unclaimed(board_view(board@), role@, by@, board@.len() as int),
{
    let ghost bv = board_view(board@);
    let mut out: Vec<String> = Vec::new();
    let mut k: usize = 0;
    while k < board.len()
        invariant
            k <= board@.len(),
            bv == board_view(board@),
            closures_ok(bv, cl@),
            strs(out@) == unclaimed(bv, role@, by@, k as int),
        decreases board.len() - k,
    {
        if role_is(&board[k].1, role) && !layer_hit_of(board, cl, by, board[k].0.as_str()) {
            let ghost before = out@;
            out.push(board[k].0.clone());
            assert(strs(out@) =~= strs(before).push(bv[k as int].0));
        }
        k += 1;
    }
    out
}

proof fn lemma_counts(rs: Seq<RowModel>)
    ensures
        count_whole(rs) <= rs.len(),
        count_verified(rs) <= rs.len(),
    decreases rs.len(),
{
    if rs.len() > 0 {
        lemma_counts(rs.drop_last());
    }
}

proof fn lemma_rows_len(b: BoardView, chain: Seq<Seq<char>>, n: int)
    ensures
        spec_rows(b, chain, n).len() <= if n < 0 { 0 } else { n },
    decreases n,
{
    if n > 0 {
        lemma_rows_len(b, chain, n - 1);
    }
}

/// The line of the report for the intent at index `k`.
fn row_of(board: &Vec<(String, Node)>, cl: &Vec<Vec<String>>, chain: &Vec<String>, k: usize) -> (r:
    CoverageRow)
    requires
        closures_ok(board_view(board@), cl@),
        chain@.len() > 0,
        k < board@.len(),
    ensures
        r@ == spec_row(board_view(board@), strs(chain@).skip(1), strs(chain@).last(), k as int),
{
    proof {
        reveal_strlit("status");
        reveal_strlit("title");
    }
    let ghost bv = board_view(board@);
    let ghost ch = strs(chain@);
    let ghost down = ch.skip(1);
    let x = board[k].0.as_str();
    let ghost xs = bv[k as int].0;
    assert(x@ == xs);
    let mut cells: Vec<(String, bool)> = Vec::new();
    let mut statuses: Vec<Option<String>> = Vec::new();
    statuses.push(
        match board[k].1.get("status") {
            Some(v) => Some(to_owned_str(v)),
            None => None,
        },
    );
    let ghost first = seq![spec_get(bv[k as int].1, "status"@)];
    assert(opts_view(statuses@) =~= first);
    let mut whole = true;
    let mut j: usize = 1;
    while j < chain.len()
        invariant
            1 <= j <= chain@.len(),
            bv == board_view(board@),
            ch == strs(chain@),
            down == ch.skip(1),
            closures_ok(bv, cl@),
            x@ == xs,
            cells@.len() == j - 1,
            down.len() == chain@.len() - 1,
            cells_view(cells@) == hit_cells(bv, down.take(j - 1), xs),
            opts_view(statuses@) == first + down_statuses(bv, down.take(j - 1), xs),
            whole == forall|q: int| 0 <= q < j - 1 ==> layer_hit(bv, #[trigger] down[q], xs),
        decreases chain.len() - j,
    {
        let role = chain[j].as_str();
        assert(role@ == down[j - 1]);
        let hit = layer_hit_of(board, cl, role, x);
        let ghost before_cells = cells@;
        cells.push((chain[j].clone(), hit));
        assert(cells@.last().0@ == down[j - 1]);
        assert(cells_view(cells@) =~= hit_cells(bv, down.take(j as int), xs)) by {
            assert forall|q: int| 0 <= q < j - 1 implies #[trigger] cells_view(cells@)[q] == cells_view(
                before_cells,
            )[q] by {
                assert(cells@[q] == before_cells[q]);
            }
        }
        let ghost before_st = opts_view(statuses@);
        push_layer_statuses(board, cl, role, x, &mut statuses);
        assert(down.take(j as int).drop_last() =~= down.take(j - 1));
        assert(opts_view(statuses@) =~= first + down_statuses(bv, down.take(j as int), xs));
        whole = whole && hit;
        j += 1;
    }
    assert(down.take(j - 1) =~= down);
    let chip = rollup(statuses.as_slice());
    let verified = verified_by_of(board, cl, chain[chain.len() - 1].as_str(), x);
    CoverageRow { id: board[k].0.clone(), title: field_or_empty(&board[k].1, "title"), cells, chip, verified, whole }
}

/// The coverage report, with the counts `arte gate` judges: per intent,
/// realized in every downstream layer? plus the status roll-up; the controls
/// no validation realizes; the impls no control realizes. An empty chain has
/// no spine and gives an empty report.
pub fn coverage_pass(chain: &Vec<String>, board: &Vec<(String, Node)>) -> (rep: CoverageReport)
    ensures
        chain@.len() == 0 ==> rep.rows@.len() == 0 && rep.intents == 0 && rep.covered == 0
            && rep.verified == 0 && rep.gaps == 0 && rep.holes@.len() == 0 && rep.bare@.len() == 0,
        chain@.len() > 0 ==> {
            let b = board_view(board@);
            let ch = strs(chain@);
            let rs = spec_rows(b, ch, b.len() as int);
            &&& rows_view(rep.rows@) == rs
            &&& rep.intents == rs.len()
            &&& rep.covered == count_whole(rs)
            &&& rep.verified == count_verified(rs)
            &&& rep.gaps == rs.len() - count_whole(rs)
            &&& strs(rep.holes@) == unclaimed(b, control_role(ch), ch.last(), b.len() as int)
            &&& strs(rep.bare@) == unclaimed(b, impl_role(ch), control_role(ch), b.len() as int)
        },
{
    if chain.len() == 0 {
        return CoverageReport {
            rows: Vec::new(),
            intents: 0,
            covered: 0,
            verified: 0,
            gaps: 0,
            holes: Vec::new(),
            bare: Vec::new(),
        };
    }
    let ghost bv = board_view(board@);
    let ghost ch = strs(chain@);
    let cl = closures(board);
    let spine = chain[0].as_str();
    let mut rows: Vec<CoverageRow> = Vec::new();
    let mut covered: usize = 0;
    let mut verified: usize = 0;
    let mut k: usize = 0;
    while k < board.len()
        invariant
            k <= board@.len(),
            chain@.len() > 0,
            bv == board_view(board@),
            ch == strs(chain@),
            spine@ == ch[0],
            closures_ok(bv, cl@),
            rows_view(rows@) == spec_rows(bv, ch, k as int),
            covered == count_whole(spec_rows(bv, ch, k as int)),
            verified == count_verified(spec_rows(bv, ch, k as int)),
        decreases board.len() - k,
    {
        proof {
            lemma_counts(spec_rows(bv, ch, k as int));
            lemma_rows_len(bv, ch, k as int);
        }
        if role_is(&board[k].1, spine) {
            let row = row_of(board, &cl, chain, k);
            let ghost before = rows@;
            if row.whole {
                covered += 1;
            }
            if row.verified {
                verified += 1;
            }
            rows.push(row);
            assert(rows_view(rows@) =~= rows_view(before).push(rows@.last()@));
            assert(spec_rows(bv, ch, k + 1).drop_last() == spec_rows(bv, ch, k as int));
        }
        k += 1;
    }
    proof {
        lemma_counts(spec_rows(bv, ch, k as int));
    }
    let crole = if chain.len() >= 2 {
        chain[chain.len() - 2].clone()
    } else {
        "control".to_string()
    };
    let irole = if chain.len() >= 2 {
        chain[1].clone()
    } else {
        "impl".to_string()
    };
    let holes = unclaimed_of(board, &cl, crole.as_str(), chain[chain.len() - 1].as_str());
    let bare = unclaimed_of(board, &cl, irole.as_str(), crole.as_str());
    let n = rows.len();
    CoverageReport { rows, intents: n, covered, verified, gaps: n - covered, holes, bare }
}

/// `arte coverage` — per intent: realized in every downstream layer? plus the
/// status roll-up.
pub fn cmd_coverage(chain: &Vec<String>, board: &Vec<(String, Node)>) -> (rep: CoverageReport)
    ensures
        chain@.len() > 0 ==> rows_view(rep.rows@) == spec_rows(
            board_view(board@),
            strs(chain@),
            board@.len() as int,
        ),
        chain@.len() == 0 ==> rep.rows@.len() == 0,
{
    coverage_pass(chain, board)
}

// ─── staleness ──────────────────────────────────────────────────────────────

/// The recorded `sha` a node was measured against, when git's HEAD is known and
/// differs from it: the commit to count HEAD's lead from.
pub open spec fn spec_stale_sha(fs: Seq<Field>, head: Option<Seq<char>>) -> Option<Seq<char>> {
    match (spec_get(fs, "sha"@), head) {
        (Some(rec), Some(h)) => if rec == h {
            None
        } else {
            Some(rec)
        },
        _ => None,
    }
}

/// The recorded sha whose lead over HEAD must be counted, if any: none when no
/// sha is recorded, no HEAD is known, or they are the same commit.
pub fn stale_sha(n: &Node, head: Option<&str>) -> (r: Option<String>)
    ensures
        opt_view(r) == spec_stale_sha(n@, match head {
            Some(h) => Some(h@),
            None => None,
        }),
{
    proof {
        reveal_strlit("sha");
    }
    match (n.get("sha"), head) {
        (Some(rec), Some(h)) => {
            if str_eq(rec, h) {
                None
            } else {
                Some(crate::text::to_owned(rec))
            }
        },
        _ => None,
    }
}

/// The staleness note for a node measured at `recorded` when HEAD is `ahead`
/// commits past it; none unless HEAD is strictly ahead (a rewind is not
/// surfaced).
pub open spec fn spec_staleness_note(recorded: Seq<char>, ahead: int) -> Option<Seq<char>> {
    if ahead <= 0 {
        None
    } else {
        Some(
            "⏱  stale: verified at "@ + recorded + ", you're "@ + crate::ident::decimal(ahead as nat)
                + " commit(s) ahead\n    (re-run `arte verify` to refresh)"@,
        )
    }
}

/// The staleness note for a node measured at `recorded`, HEAD being `ahead`
/// commits past it.
pub fn staleness_note(recorded: &str, ahead: i64) -> (r: Option<String>)
    ensures
        opt_view(r) == spec_staleness_note(recorded@, ahead as int),
{
    proof {
        reveal_strlit("⏱  stale: verified at ");
        reveal_strlit(", you're ");
        reveal_strlit(" commit(s) ahead\n    (re-run `arte verify` to refresh)");
    }
    if ahead <= 0 {
        return None;
    }
    let mut s = crate::text::to_owned("⏱  stale: verified at ");
    crate::text::push_str(&mut s, recorded);
    crate::text::push_str(&mut s, ", you're ");
    crate::ident::push_decimal(&mut s, ahead as u64);
    crate::text::push_str(&mut s, " commit(s) ahead\n    (re-run `arte verify` to refresh)");
    Some(s)
}

/// How many statuses were measured against a commit other than HEAD.
pub open spec fn old_statuses(b: BoardView, head: Seq<char>, n: int) -> nat
    decreases n,
{
    if n <= 0 {
        0
    } else {
        let fs = b[n - 1].1;
        old_statuses(b, head, n - 1) + if spec_get(fs, "status"@) is Some && spec_get(fs, "sha"@) is Some
            && spec_get(fs, "sha"@) != Some(head) {
            1nat
        } else {
            0nat
        }
    }
}

/// The number of nodes whose status was measured against another commit than `head`.
pub fn old_status_count(board: &Vec<(String, Node)>, head: &str) -> (r: usize)
    ensures
        r == old_statuses(board_view(board@), head@, board@.len() as int),
{
    proof {
        reveal_strlit("status");
        reveal_strlit("sha");
    }
    let ghost bv = board_view(board@);
    let mut c: usize = 0;
    let mut k: usize = 0;
    while k < board.len()
        invariant
            k <= board@.len(),
            bv == board_view(board@),
            c == old_statuses(bv, head@, k as int),
            c <= k,
        decreases board.len() - k,
    {
        let n = &board[k].1;
        let old = n.get("status").is_some() && match n.get("sha") {
            Some(h) => !str_eq(h, head),
            None => false,
        };
        if old {
            c += 1;
        }
        k += 1;
    }
    c
}

} // verus!
