//! The board as a graph: entries keyed by id, linked upward (`serves`).
//! Reachability up those links is what coverage, trace, inherited context and
//! the viewer's pulse all read.
use vstd::prelude::*;

use crate::node::{spec_all, spec_get, Field, Node};
use crate::text::{str_eq, to_owned};

verus! {

/// An adjacency list as pure data: (id, the ids it points up to), in order.
pub type Adj = Seq<(Seq<char>, Seq<Seq<char>>)>;

pub open spec fn strs(v: Seq<String>) -> Seq<Seq<char>> {
    v.map_values(|s: String| s@)
}

#[verifier::opaque]
pub open spec fn adj_view(g: Seq<(String, Vec<String>)>) -> Adj {
    g.map_values(|e: (String, Vec<String>)| (e.0@, strs(e.1@)))
}

/// The successors of `id`: those of its last entry, when an id repeats.
pub open spec fn succ_of(g: Adj, id: Seq<char>) -> Option<Seq<Seq<char>>>
    decreases g.len(),
{
    if g.len() == 0 {
        None
    } else if g.last().0 == id {
        Some(g.last().1)
    } else {
        succ_of(g.drop_last(), id)
    }
}

/// `x` has an entry and points up to `y`.
pub open spec fn edge(g: Adj, x: Seq<char>, y: Seq<char>) -> bool {
    succ_of(g, x) is Some && succ_of(g, x).unwrap().contains(y)
}

/// A walk up the links that starts at one of `seeds`.
pub open spec fn is_walk(g: Adj, seeds: Seq<Seq<char>>, p: Seq<Seq<char>>) -> bool {
    &&& p.len() > 0
    &&& seeds.contains(p[0])
    &&& forall|k: int| 0 <= k < p.len() - 1 ==> edge(g, #[trigger] p[k], p[k + 1])
}

/// `x` is a seed, or reachable from one by walking links up through entries.
pub open spec fn reaches(g: Adj, seeds: Seq<Seq<char>>, x: Seq<char>) -> bool {
    exists|p: Seq<Seq<char>>| #[trigger] is_walk(g, seeds, p) && p.last() == x
}

/// Every id any entry points to.
pub open spec fn all_succ(g: Adj) -> Seq<Seq<char>>
    decreases g.len(),
{
    if g.len() == 0 {
        Seq::empty()
    } else {
        all_succ(g.drop_last()) + g.last().1
    }
}

pub open spec fn universe(g: Adj, seeds: Seq<Seq<char>>) -> Set<Seq<char>> {
    (seeds + all_succ(g)).to_set()
}

proof fn lemma_succ_in_all(g: Adj, id: Seq<char>, y: Seq<char>)
    requires
        edge(g, id, y),
    ensures
        all_succ(g).contains(y),
    decreases g.len(),
{
    let s = g.last().1;
    if g.last().0 == id {
        let j = choose|j: int| 0 <= j < s.len() && s[j] == y;
        assert((all_succ(g.drop_last()) + s)[all_succ(g.drop_last()).len() + j] == y);
    } else {
        lemma_succ_in_all(g.drop_last(), id, y);
        let a = all_succ(g.drop_last());
        let j = choose|j: int| 0 <= j < a.len() && a[j] == y;
        assert((a + s)[j] == y);
    }
}

proof fn lemma_strs_push(v: Seq<String>, x: String)
    ensures
        strs(v.push(x)) == strs(v).push(x@),
{
    assert(strs(v.push(x)) =~= strs(v).push(x@));
}

pub proof fn lemma_push_contains<A>(s: Seq<A>, x: A)
    ensures
        forall|a: A| #[trigger] s.push(x).contains(a) <==> (s.contains(a) || a == x),
        forall|a: A| #[trigger] s.contains(a) ==> s.push(x).contains(a),
        s.push(x).contains(x),
        s.push(x).to_set() == s.to_set().insert(x),
{
    assert forall|a: A| s.push(x).contains(a) implies (s.contains(a) || a == x) by {
        let j = choose|j: int| 0 <= j < s.push(x).len() && s.push(x)[j] == a;
        if j < s.len() {
            assert(s[j] == a);
        }
    }
    assert forall|a: A| s.contains(a) implies s.push(x).contains(a) by {
        let j = choose|j: int| 0 <= j < s.len() && s[j] == a;
        assert(s.push(x)[j] == a);
    }
    assert(s.push(x)[s.len() as int] == x);
    assert(s.push(x).to_set() =~= s.to_set().insert(x));
}

proof fn lemma_in_universe(g: Adj, seeds: Seq<Seq<char>>, y: Seq<char>)
    requires
        seeds.contains(y) || all_succ(g).contains(y),
    ensures
        universe(g, seeds).contains(y),
{
    let q = seeds + all_succ(g);
    if seeds.contains(y) {
        let j = choose|j: int| 0 <= j < seeds.len() && seeds[j] == y;
        assert(q[j] == y);
    } else {
        let j = choose|j: int| 0 <= j < all_succ(g).len() && all_succ(g)[j] == y;
        assert(q[seeds.len() + j] == y);
    }
    assert(q.contains(y));
}

/// Whether `v` holds a string equal to `s`.
pub fn contains_string(v: &Vec<String>, s: &str) -> (r: bool)
    ensures
        r == strs(v@).contains(s@),
{
    let mut i: usize = 0;
    while i < v.len()
        invariant
            i <= v.len(),
            forall|j: int| 0 <= j < i ==> v@[j]@ != s@,
        decreases v.len() - i,
    {
        if str_eq(v[i].as_str(), s) {
            assert(strs(v@)[i as int] == s@);
            return true;
        }
        i += 1;
    }
    proof {
        if strs(v@).contains(s@) {
            let j = choose|j: int| 0 <= j < strs(v@).len() && strs(v@)[j] == s@;
            assert(v@[j]@ == s@);
        }
    }
    false
}

/// Index of the last entry for `id`.
pub fn find_entry(g: &Vec<(String, Vec<String>)>, id: &str) -> (r: Option<usize>)
    ensures
        match r {
            Some(i) => i < g@.len() && g@[i as int].0@ == id@ && succ_of(adj_view(g@), id@) == Some(
                strs(g@[i as int].1@),
            ),
            None => succ_of(adj_view(g@), id@) is None,
        },
{
    reveal(adj_view);
    let ghost a = adj_view(g@);
    let mut i: usize = g.len();
    assert(a.take(i as int) =~= a);
    while i > 0
        invariant
            i <= g@.len(),
            a == adj_view(g@),
            succ_of(a, id@) == succ_of(a.take(i as int), id@),
        decreases i,
    {
        proof {
            reveal(adj_view);
        }
        let ghost t = a.take(i as int);
        assert(t.last() == (g@[i - 1].0@, strs(g@[i - 1].1@)));
        if str_eq(g[i - 1].0.as_str(), id) {
            return Some(i - 1);
        }
        assert(t.drop_last() =~= a.take(i - 1));
        i -= 1;
    }
    assert(a.take(0) =~= Seq::<(Seq<char>, Seq<Seq<char>>)>::empty());
    None
}

proof fn lemma_walk_extend(g: Adj, seeds: Seq<Seq<char>>, p: Seq<Seq<char>>, y: Seq<char>)
    requires
        is_walk(g, seeds, p),
        edge(g, p.last(), y),
    ensures
        is_walk(g, seeds, p.push(y)),
        p.push(y).last() == y,
{
    let q = p.push(y);
    assert forall|k: int| 0 <= k < q.len() - 1 implies edge(g, #[trigger] q[k], q[k + 1]) by {
        if k < p.len() - 1 {
            assert(q[k] == p[k] && q[k + 1] == p[k + 1]);
        } else {
            assert(q[k] == p.last());
        }
    }
}

/// Every id on a walk lies in a set that holds the seeds and is closed under
/// the links.
proof fn lemma_closed_walk(g: Adj, seeds: Seq<Seq<char>>, s: Seq<Seq<char>>, p: Seq<Seq<char>>, k: int)
    requires
        forall|y: Seq<char>| seeds.contains(y) ==> s.contains(y),
        forall|u: Seq<char>, y: Seq<char>| s.contains(u) && edge(g, u, y) ==> s.contains(y),
        is_walk(g, seeds, p),
        0 <= k < p.len(),
    ensures
        s.contains(p[k]),
    decreases k,
{
    if k > 0 {
        lemma_closed_walk(g, seeds, s, p, k - 1);
        assert(edge(g, p[k - 1], p[k]));
    }
}

/// One step up from a reachable id stays reachable, and inside the universe.
proof fn lemma_step(g: Adj, seeds: Seq<Seq<char>>, xs: Seq<char>, y: Seq<char>)
    requires
        reaches(g, seeds, xs),
        edge(g, xs, y),
    ensures
        reaches(g, seeds, y),
        universe(g, seeds).contains(y),
{
    let p = choose|p: Seq<Seq<char>>| #[trigger] is_walk(g, seeds, p) && p.last() == xs;
    lemma_walk_extend(g, seeds, p, y);
    lemma_succ_in_all(g, xs, y);
    lemma_in_universe(g, seeds, y);
}

/// Appends clones of every string of `ss` to `stack`.
fn push_all(stack: &mut Vec<String>, ss: &Vec<String>)
    ensures
        strs(final(stack)@) == strs(old(stack)@) + strs(ss@),
{
    let mut k: usize = 0;
    while k < ss.len()
        invariant
            k <= ss.len(),
            strs(stack@) == strs(old(stack)@) + strs(ss@).take(k as int),
        decreases ss.len() - k,
    {
        let ghost before = stack@;
        stack.push(ss[k].clone());
        proof {
            lemma_strs_push(before, stack@.last());
            assert(before.push(stack@.last()) =~= stack@);
        }
        assert(strs(stack@) =~= strs(old(stack)@) + strs(ss@).take(k + 1));
        k += 1;
    }
    assert(strs(ss@).take(k as int) =~= strs(ss@));
}

/// After pushing the successors of a reachable id, the stack still holds only
/// reachable ids, keeps what it held, and holds every successor.
proof fn lemma_pushed_succ(
    a: Adj,
    sd: Seq<Seq<char>>,
    xs: Seq<char>,
    pre: Seq<Seq<char>>,
    ss: Seq<Seq<char>>,
    post: Seq<Seq<char>>,
)
    requires
        reaches(a, sd, xs),
        succ_of(a, xs) == Some(ss),
        post == pre + ss,
        forall|y: Seq<char>| #[trigger] pre.contains(y) ==> reaches(a, sd, y) && universe(a, sd).contains(y),
    ensures
        forall|y: Seq<char>| #[trigger] post.contains(y) ==> reaches(a, sd, y) && universe(a, sd).contains(y),
        forall|y: Seq<char>| #[trigger] pre.contains(y) ==> post.contains(y),
        forall|y: Seq<char>| #[trigger] edge(a, xs, y) ==> post.contains(y),
{
    assert forall|y: Seq<char>| #[trigger] post.contains(y) implies reaches(a, sd, y) && universe(a, sd).contains(y) by {
        let j = choose|j: int| 0 <= j < post.len() && post[j] == y;
        if j < pre.len() {
            assert(pre[j] == y);
            assert(pre.contains(y));
        } else {
            assert(ss[j - pre.len()] == y);
            assert(ss.contains(y));
            lemma_step(a, sd, xs, y);
        }
    }
    assert forall|y: Seq<char>| #[trigger] pre.contains(y) implies post.contains(y) by {
        let j = choose|j: int| 0 <= j < pre.len() && pre[j] == y;
        assert(post[j] == y);
    }
    assert forall|y: Seq<char>| #[trigger] edge(a, xs, y) implies post.contains(y) by {
        let j = choose|j: int| 0 <= j < ss.len() && ss[j] == y;
        assert(post[pre.len() + j] == y);
    }
}

/// Every id reachable from `seeds` (the seeds included), each once, in the
/// order a depth-first walk first meets them.
pub fn walk_up(seeds: Vec<String>, g: &Vec<(String, Vec<String>)>) -> (r: Vec<String>)
    ensures
        strs(r@).no_duplicates(),
        forall|x: Seq<char>| strs(r@).contains(x) <==> reaches(adj_view(g@), strs(seeds@), x),
{
    let ghost a = adj_view(g@);
    let ghost sd = strs(seeds@);
    let ghost u = universe(a, sd);
    let mut seen: Vec<String> = Vec::new();
    let mut stack: Vec<String> = seeds;
    proof {
        vstd::seq_lib::seq_to_set_is_finite(sd + all_succ(a));
        assert forall|y: Seq<char>| #[trigger] strs(stack@).contains(y) implies reaches(a, sd, y)
            && u.contains(y) by {
            assert(is_walk(a, sd, seq![y]));
            assert(seq![y].last() == y);
            lemma_in_universe(a, sd, y);
        }
    }
    while stack.len() > 0
        invariant
            a == adj_view(g@),
            u == universe(a, sd),
            u.finite(),
            strs(seen@).no_duplicates(),
            forall|y: Seq<char>| #[trigger] strs(seen@).contains(y) ==> reaches(a, sd, y) && u.contains(y),
            forall|y: Seq<char>| #[trigger] strs(stack@).contains(y) ==> reaches(a, sd, y) && u.contains(y),
            forall|y: Seq<char>|
                #[trigger] sd.contains(y) ==> strs(seen@).contains(y) || strs(stack@).contains(y),
            forall|x: Seq<char>, y: Seq<char>|
                #[trigger] strs(seen@).contains(x) && #[trigger] edge(a, x, y) ==> strs(seen@).contains(y)
                    || strs(stack@).contains(y),
        decreases u.len() - seen@.len(), stack@.len(),
    {
        let ghost old_seen = strs(seen@);
        let ghost old_stack = strs(stack@);
        let ghost stack_before = stack@;
        let x = stack.pop().unwrap();
        let ghost xs = x@;
        proof {
            lemma_strs_push(stack@, x);
            assert(stack@.push(x) =~= stack_before);
            lemma_push_contains(strs(stack@), xs);
        }
        assert(old_stack == strs(stack@).push(xs));
        assert(old_stack.contains(xs));
        assert(reaches(a, sd, xs) && u.contains(xs));
        if !contains_string(&seen, x.as_str()) {
            let ghost pre = seen@;
            seen.push(x);
            proof {
                lemma_strs_push(pre, seen@.last());
                assert(pre.push(seen@.last()) =~= seen@);
                lemma_push_contains(old_seen, xs);
                assert(strs(seen@) == old_seen.push(xs));
                strs(seen@).unique_seq_to_set();
                assert forall|y: Seq<char>| strs(seen@).to_set().contains(y) implies u.contains(y) by {}
                vstd::set_lib::lemma_len_subset(strs(seen@).to_set(), u);
            }
            match find_entry(g, seen[seen.len() - 1].as_str()) {
                Some(i) => {
                    let ghost pre_stack = strs(stack@);
                    push_all(&mut stack, &g[i].1);
                    proof {
                        lemma_pushed_succ(a, sd, xs, pre_stack, strs(g@[i as int].1@), strs(stack@));
                    }
                },
                None => {},
            }
        }
    }
    proof {
        assert forall|x: Seq<char>| reaches(a, sd, x) implies strs(seen@).contains(x) by {
            let p = choose|p: Seq<Seq<char>>| #[trigger] is_walk(a, sd, p) && p.last() == x;
            lemma_closed_walk(a, sd, strs(seen@), p, p.len() - 1);
        }
    }
    seen
}

// ─── the board of nodes ─────────────────────────────────────────────────────

/// The board as pure data: (file id, fields) per node, in order.
pub type BoardView = Seq<(Seq<char>, Seq<Field>)>;

pub open spec fn board_view(b: Seq<(String, Node)>) -> BoardView {
    b.map_values(|e: (String, Node)| (e.0@, e.1@))
}

/// The node filed under `id` (the last one, when an id repeats).
pub open spec fn node_of(b: BoardView, id: Seq<char>) -> Option<Seq<Field>>
    decreases b.len(),
{
    if b.len() == 0 {
        None
    } else if b.last().0 == id {
        Some(b.last().1)
    } else {
        node_of(b.drop_last(), id)
    }
}

/// The ids a node serves.
pub open spec fn serves_of(fs: Seq<Field>) -> Seq<Seq<char>> {
    spec_all(fs, "serves"@)
}

/// The board as a graph: each node points up to what it serves.
pub open spec fn serves_graph(b: BoardView) -> Adj {
    b.map_values(|e: (Seq<char>, Seq<Field>)| (e.0, serves_of(e.1)))
}

proof fn lemma_succ_is_serves(b: BoardView, id: Seq<char>)
    ensures
        succ_of(serves_graph(b), id) == (match node_of(b, id) {
            Some(fs) => Some(serves_of(fs)),
            None => None,
        }),
    decreases b.len(),
{
    if b.len() > 0 {
        assert(serves_graph(b.drop_last()) =~= serves_graph(b).drop_last());
        lemma_succ_is_serves(b.drop_last(), id);
    }
}

/// Index of the last node filed under `id`.
pub fn find_node(board: &Vec<(String, Node)>, id: &str) -> (r: Option<usize>)
    ensures
        match r {
            Some(i) => i < board@.len() && node_of(board_view(board@), id@) == Some(
                board@[i as int].1@,
            ) && board@[i as int].0@ == id@,
            None => node_of(board_view(board@), id@) is None,
        },
{
    let ghost bv = board_view(board@);
    let mut i: usize = board.len();
    assert(bv.take(i as int) =~= bv);
    while i > 0
        invariant
            i <= board@.len(),
            bv == board_view(board@),
            node_of(bv, id@) == node_of(bv.take(i as int), id@),
        decreases i,
    {
        let ghost t = bv.take(i as int);
        assert(t.last() == (board@[i - 1].0@, board@[i - 1].1@));
        if str_eq(board[i - 1].0.as_str(), id) {
            return Some(i - 1);
        }
        assert(t.drop_last() =~= bv.take(i - 1));
        i -= 1;
    }
    assert(bv.take(0) =~= Seq::<(Seq<char>, Seq<Field>)>::empty());
    None
}

/// The ids `n` serves, as owned strings.
pub fn serves(n: &Node) -> (r: Vec<String>)
    ensures
        strs(r@) == serves_of(n@),
{
    proof {
        reveal_strlit("serves");
    }
    let a = n.all("serves");
    let mut out: Vec<String> = Vec::new();
    let mut i: usize = 0;
    while i < a.len()
        invariant
            i <= a.len(),
            a@.len() == serves_of(n@).len(),
            forall|j: int| 0 <= j < a@.len() ==> #[trigger] a@[j]@ == serves_of(n@)[j],
            strs(out@) == serves_of(n@).take(i as int),
        decreases a.len() - i,
    {
        let ghost before = out@;
        out.push(to_owned(a[i]));
        proof {
            lemma_strs_push(before, out@.last());
            assert(before.push(out@.last()) =~= out@);
        }
        assert(strs(out@) =~= serves_of(n@).take(i + 1));
        i += 1;
    }
    assert(serves_of(n@).take(i as int) =~= serves_of(n@));
    out
}

/// The board as an adjacency list over `serves`.
pub fn serves_adjacency(board: &Vec<(String, Node)>) -> (g: Vec<(String, Vec<String>)>)
    ensures
        adj_view(g@) == serves_graph(board_view(board@)),
{
    reveal(adj_view);
    let mut g: Vec<(String, Vec<String>)> = Vec::new();
    let mut i: usize = 0;
    while i < board.len()
        invariant
            i <= board@.len(),
            adj_view(g@) == serves_graph(board_view(board@)).take(i as int),
        decreases board.len() - i,
    {
        proof {
            reveal(adj_view);
        }
        let id = board[i].0.clone();
        let sv = serves(&board[i].1);
        let ghost before = g@;
        let ghost e = (id@, strs(sv@));
        g.push((id, sv));
        assert(adj_view(g@) =~= adj_view(before).push(e));
        assert(adj_view(g@) =~= serves_graph(board_view(board@)).take(i + 1));
        i += 1;
    }
    assert(serves_graph(board_view(board@)).take(i as int) =~= serves_graph(board_view(board@)));
    g
}

/// Ancestors of a node: every id reachable by walking `serves` up, each once.
pub fn closure_up(start: &Node, board: &Vec<(String, Node)>) -> (r: Vec<String>)
    ensures
        strs(r@).no_duplicates(),
        forall|x: Seq<char>|
            strs(r@).contains(x) <==> reaches(serves_graph(board_view(board@)), serves_of(start@), x),
{
    let g = serves_adjacency(board);
    walk_up(serves(start), &g)
}

/// The nodes other than `id` that serve it or name it as their parent, in
/// board order: what would dangle if `id` went away.
pub open spec fn dependents_of(b: BoardView, id: Seq<char>) -> Seq<Seq<char>>
    decreases b.len(),
{
    if b.len() == 0 {
        Seq::empty()
    } else {
        let (nid, fs) = b.last();
        let rest = dependents_of(b.drop_last(), id);
        if nid != id && (serves_of(fs).contains(id) || spec_get(fs, "parent"@) == Some(id)) {
            rest.push(nid)
        } else {
            rest
        }
    }
}

/// Nodes that reference `id` via `serves` or `parent` (would dangle if it's deleted).
pub fn dependents(id: &str, board: &Vec<(String, Node)>) -> (r: Vec<String>)
    ensures
        strs(r@) == dependents_of(board_view(board@), id@),
{
    proof {
        reveal_strlit("parent");
    }
    let ghost bv = board_view(board@);
    let mut out: Vec<String> = Vec::new();
    let mut i: usize = 0;
    while i < board.len()
        invariant
            i <= board@.len(),
            bv == board_view(board@),
            strs(out@) == dependents_of(bv.take(i as int), id@),
        decreases board.len() - i,
    {
        let ghost t = bv.take(i + 1);
        assert(t.drop_last() =~= bv.take(i as int));
        assert(t.last() == (board@[i as int].0@, board@[i as int].1@));
        let nid = &board[i].0;
        let n = &board[i].1;
        let by_serves = contains_string(&serves(n), id);
        let by_parent = match n.get("parent") {
            Some(p) => str_eq(p, id),
            None => false,
        };
        if !str_eq(nid.as_str(), id) && (by_serves || by_parent) {
            let ghost before = out@;
            out.push(nid.clone());
            proof {
                lemma_strs_push(before, out@.last());
                assert(before.push(out@.last()) =~= out@);
            }
        }
        i += 1;
    }
    assert(bv.take(i as int) =~= bv);
    out
}

/// One ancestor's notes, each paired with the ancestor's id.
pub open spec fn notes_of(id: Seq<char>, fs: Seq<Field>) -> Seq<(Seq<char>, Seq<char>)> {
    spec_all(fs, "note"@).map_values(|v: Seq<char>| (id, v))
}

/// The notes of the nodes along `r`, in that order (ids with no node add none).
pub open spec fn notes_along(b: BoardView, r: Seq<Seq<char>>) -> Seq<(Seq<char>, Seq<char>)>
    decreases r.len(),
{
    if r.len() == 0 {
        Seq::empty()
    } else {
        notes_along(b, r.drop_last()) + match node_of(b, r.last()) {
            Some(fs) => notes_of(r.last(), fs),
            None => Seq::empty(),
        }
    }
}

pub open spec fn pairs(v: Seq<(String, String)>) -> Seq<(Seq<char>, Seq<char>)> {
    v.map_values(|p: (String, String)| (p.0@, p.1@))
}

/// Every ancestor's notes up the serves chain (cycles safe): each ancestor
/// once, each with all its notes in field order.
pub fn inherited_notes(n: &Node, board: &Vec<(String, Node)>) -> (out: Vec<(String, String)>)
    ensures
        exists|r: Seq<Seq<char>>|
            {
                &&& r.no_duplicates()
                &&& forall|x: Seq<char>| #[trigger] r.contains(x) <==> reaches(
                    serves_graph(board_view(board@)),
                    serves_of(n@),
                    x,
                )
                &&& pairs(out@) == notes_along(board_view(board@), r)
            },
{
    proof {
        reveal_strlit("note");
    }
    let ghost bv = board_view(board@);
    let order = closure_up(n, board);
    let ghost r = strs(order@);
    let mut out: Vec<(String, String)> = Vec::new();
    let mut j: usize = 0;
    while j < order.len()
        invariant
            j <= order@.len(),
            bv == board_view(board@),
            r == strs(order@),
            pairs(out@) == notes_along(bv, r.take(j as int)),
        decreases order.len() - j,
    {
        let ghost t = r.take(j + 1);
        assert(t.drop_last() =~= r.take(j as int));
        assert(t.last() == order@[j as int]@);
        let pid = &order[j];
        match find_node(board, pid.as_str()) {
            Some(i) => {
                let notes = board[i].1.all("note");
                let ghost fs = board@[i as int].1@;
                let ghost base = pairs(out@);
                let mut k: usize = 0;
                while k < notes.len()
                    invariant
                        k <= notes@.len(),
                        notes@.len() == spec_all(fs, "note"@).len(),
                        forall|q: int| 0 <= q < notes@.len() ==> #[trigger] notes@[q]@ == spec_all(fs, "note"@)[q],
                        pairs(out@) == base + notes_of(pid@, fs).take(k as int),
                    decreases notes.len() - k,
                {
                    let ghost before = out@;
                    out.push((pid.clone(), to_owned(notes[k])));
                    assert(pairs(out@) =~= pairs(before).push((pid@, notes@[k as int]@)));
                    assert(pairs(out@) =~= base + notes_of(pid@, fs).take(k + 1));
                    k += 1;
                }
                assert(notes_of(pid@, fs).take(k as int) =~= notes_of(pid@, fs));
            },
            None => {
                assert(pairs(out@) =~= notes_along(bv, t));
            },
        }
        j += 1;
    }
    assert(r.take(j as int) =~= r);
    out
}

/// A copy of a list of strings.
pub fn copy_strings(v: &Vec<String>) -> (r: Vec<String>)
    ensures
        strs(r@) == strs(v@),
{
    let mut out: Vec<String> = Vec::new();
    push_all(&mut out, v);
    assert(strs(Seq::<String>::empty()) + strs(v@) =~= strs(v@));
    out
}

} // verus!
