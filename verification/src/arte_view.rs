//! The viewer's reading of an arte board: the `.truth/*.node` graph as the
//! viewer holds it, and which titles pulse as being worked on.
use vstd::prelude::*;

use crate::graph::{copy_strings, reaches, strs, walk_up, Adj};
use crate::protocol::{sopt, svec};
use crate::text::{str_eq, to_owned};

verus! {

/// One node as the viewer reads it from its file.
pub struct ArteNode {
    pub id: String,
    pub role: String,
    /// The sub-group within the role (arte's `subset`).
    pub frame: Option<String>,
    pub title: String,
    pub serves: Vec<String>,
    pub status: Option<String>,
    pub category: Option<String>,
    pub note: Vec<String>,
    pub at: Vec<String>,
    /// The commit the status was measured against.
    pub sha: Option<String>,
    /// File modification time, Unix seconds.
    pub modified: Option<u64>,
}

/// The nodes as a graph: each id points up to what it serves.
pub open spec fn node_adj(ns: Seq<ArteNode>) -> Adj {
    ns.map_values(|n: ArteNode| (n.id@, svec(n.serves@)))
}

/// The node read for `id`: the last one carrying it.
pub open spec fn by_id(ns: Seq<ArteNode>, id: Seq<char>) -> Option<ArteNode>
    decreases ns.len(),
{
    if ns.len() == 0 {
        None
    } else if ns.last().id@ == id {
        Some(ns.last())
    } else {
        by_id(ns.drop_last(), id)
    }
}

/// Already green (ok or justified): finished work stops pulsing.
pub open spec fn is_green(ns: Seq<ArteNode>, id: Seq<char>) -> bool {
    match by_id(ns, id) {
        Some(n) => sopt(n.status) == Some("ok"@) || sopt(n.status) == Some("justified"@),
        None => false,
    }
}

/// Written within the last 45 seconds (a clock behind the file counts as fresh).
pub open spec fn is_fresh(n: ArteNode, now: nat) -> bool {
    match n.modified {
        Some(m) => m + 45 > now,
        None => false,
    }
}

pub open spec fn not_green_focus(ns: Seq<ArteNode>, focus: Seq<Seq<char>>) -> Seq<Seq<char>>
    decreases focus.len(),
{
    if focus.len() == 0 {
        Seq::empty()
    } else {
        let rest = not_green_focus(ns, focus.drop_last());
        if is_green(ns, focus.last()) {
            rest
        } else {
            rest.push(focus.last())
        }
    }
}

pub open spec fn fresh_ids(ns: Seq<ArteNode>, all: Seq<ArteNode>, now: nat) -> Seq<Seq<char>>
    decreases ns.len(),
{
    if ns.len() == 0 {
        Seq::empty()
    } else {
        let rest = fresh_ids(ns.drop_last(), all, now);
        if is_fresh(ns.last(), now) && !is_green(all, ns.last().id@) {
            rest.push(ns.last().id@)
        } else {
            rest
        }
    }
}

/// Where the pulse starts: the declared focus and every freshly written node,
/// leaving out what is already green.
pub open spec fn pulse_seeds(ns: Seq<ArteNode>, focus: Seq<Seq<char>>, now: nat) -> Seq<Seq<char>> {
    not_green_focus(ns, focus) + fresh_ids(ns, ns, now)
}

/// A title pulses when some node carrying it is reached from a seed by
/// walking `serves` up.
pub open spec fn pulses(ns: Seq<ArteNode>, focus: Seq<Seq<char>>, now: nat, t: Seq<char>) -> bool {
    exists|id: Seq<char>|
        reaches(node_adj(ns), pulse_seeds(ns, focus, now), id) && #[trigger] by_id(ns, id) is Some
            && by_id(ns, id).unwrap().title@ == t
}

/// Index of the node read for `id`.
fn find_arte(nodes: &Vec<ArteNode>, id: &str) -> (r: Option<usize>)
    ensures
        match r {
            Some(i) => i < nodes@.len() && by_id(nodes@, id@) == Some(nodes@[i as int]),
            None => by_id(nodes@, id@) is None,
        },
{
    let mut i: usize = nodes.len();
    assert(nodes@.take(i as int) =~= nodes@);
    while i > 0
        invariant
            i <= nodes@.len(),
            by_id(nodes@, id@) == by_id(nodes@.take(i as int), id@),
        decreases i,
    {
        assert(nodes@.take(i as int).last() == nodes@[i - 1]);
        if str_eq(nodes[i - 1].id.as_str(), id) {
            return Some(i - 1);
        }
        assert(nodes@.take(i as int).drop_last() =~= nodes@.take(i - 1));
        i -= 1;
    }
    assert(nodes@.take(0) =~= Seq::<ArteNode>::empty());
    None
}

fn green(nodes: &Vec<ArteNode>, id: &str) -> (r: bool)
    ensures
        r == is_green(nodes@, id@),
{
    proof {
        reveal_strlit("ok");
        reveal_strlit("justified");
    }
    match find_arte(nodes, id) {
        Some(i) => match &nodes[i].status {
            Some(s) => str_eq(s.as_str(), "ok") || str_eq(s.as_str(), "justified"),
            None => false,
        },
        None => false,
    }
}

fn arte_adjacency(nodes: &Vec<ArteNode>) -> (g: Vec<(String, Vec<String>)>)
    ensures
        crate::graph::adj_view(g@) == node_adj(nodes@),
{
    reveal(crate::graph::adj_view);
    let mut g: Vec<(String, Vec<String>)> = Vec::new();
    let mut i: usize = 0;
    while i < nodes.len()
        invariant
            i <= nodes@.len(),
            crate::graph::adj_view(g@) == node_adj(nodes@).take(i as int),
        decreases nodes.len() - i,
    {
        proof {
            reveal(crate::graph::adj_view);
        }
        let id = nodes[i].id.clone();
        let sv = copy_strings(&nodes[i].serves);
        let ghost before = g@;
        let ghost e = (id@, strs(sv@));
        g.push((id, sv));
        assert(crate::graph::adj_view(g@) =~= crate::graph::adj_view(before).push(e));
        assert(crate::graph::adj_view(g@) =~= node_adj(nodes@).take(i + 1));
        i += 1;
    }
    assert(node_adj(nodes@).take(i as int) =~= node_adj(nodes@));
    g
}

/// Titles to pulse: each focused node plus its serves-ancestors, and likewise
/// every node written in the last 45 seconds (activity itself is the focus
/// signal) — what is already green (ok / justified) stops pulsing. Each
/// title once.
pub fn arte_working(focus: &Vec<String>, now: u64, nodes: &Vec<ArteNode>) -> (r: Vec<String>)
    ensures
        strs(r@).no_duplicates(),
        forall|t: Seq<char>| #[trigger] strs(r@).contains(t) <==> pulses(nodes@, strs(focus@), now as nat, t),
{
    let ghost ns = nodes@;
    let ghost fv = strs(focus@);
    let mut seeds: Vec<String> = Vec::new();
    let mut i: usize = 0;
    while i < focus.len()
        invariant
            i <= focus@.len(),
            ns == nodes@,
            fv == strs(focus@),
            strs(seeds@) == not_green_focus(ns, fv.take(i as int)),
        decreases focus.len() - i,
    {
        assert(fv.take(i + 1).drop_last() =~= fv.take(i as int));
        assert(fv.take(i + 1).last() == focus@[i as int]@);
        if !green(nodes, focus[i].as_str()) {
            let ghost before = seeds@;
            seeds.push(focus[i].clone());
            assert(strs(seeds@) =~= strs(before).push(focus@[i as int]@));
        }
        i += 1;
    }
    assert(fv.take(i as int) =~= fv);
    let ghost head = strs(seeds@);
    let mut k: usize = 0;
    while k < nodes.len()
        invariant
            k <= nodes@.len(),
            ns == nodes@,
            strs(seeds@) == head + fresh_ids(ns.take(k as int), ns, now as nat),
        decreases nodes.len() - k,
    {
        assert(ns.take(k + 1).drop_last() =~= ns.take(k as int));
        assert(ns.take(k + 1).last() == nodes@[k as int]);
        let fresh = match nodes[k].modified {
            Some(m) => m > now || now - m < 45,
            None => false,
        };
        if fresh && !green(nodes, nodes[k].id.as_str()) {
            let ghost before = seeds@;
            seeds.push(nodes[k].id.clone());
            assert(strs(seeds@) =~= strs(before).push(nodes@[k as int].id@));
        }
        k += 1;
    }
    assert(ns.take(k as int) =~= ns);
    let g = arte_adjacency(nodes);
    let ghost sd = strs(seeds@);
    assert(sd == pulse_seeds(ns, fv, now as nat));
    let visited = walk_up(seeds, &g);
    let mut out: Vec<String> = Vec::new();
    let mut j: usize = 0;
    while j < visited.len()
        invariant
            j <= visited@.len(),
            ns == nodes@,
            strs(out@).no_duplicates(),
            forall|x: Seq<char>| #[trigger] strs(visited@).contains(x) <==> reaches(node_adj(ns), sd, x),
            forall|t: Seq<char>|
                #[trigger] strs(out@).contains(t) <==> exists|q: int|
                    0 <= q < j && by_id(ns, #[trigger] visited@[q]@) is Some && by_id(ns, visited@[q]@).unwrap().title@
                        == t,
        decreases visited.len() - j,
    {
        match find_arte(nodes, visited[j].as_str()) {
            Some(n) => {
                let t = &nodes[n].title;
                if !crate::graph::contains_string(&out, t.as_str()) {
                    let ghost before = out@;
                    out.push(t.clone());
                    proof {
                        assert(strs(out@) =~= strs(before).push(t@));
                        crate::graph::lemma_push_contains(strs(before), t@);
                        assert forall|u: Seq<char>| #[trigger] strs(out@).contains(u) <==> exists|q: int|
                            0 <= q < j + 1 && by_id(ns, #[trigger] visited@[q]@) is Some && by_id(
                                ns,
                                visited@[q]@,
                            ).unwrap().title@ == u by {
                            if u == t@ {
                                assert(by_id(ns, visited@[j as int]@) is Some);
                            }
                            if exists|q: int|
                                0 <= q < j + 1 && by_id(ns, #[trigger] visited@[q]@) is Some && by_id(
                                    ns,
                                    visited@[q]@,
                                ).unwrap().title@ == u {
                                let q = choose|q: int|
                                    0 <= q < j + 1 && by_id(ns, #[trigger] visited@[q]@) is Some && by_id(
                                        ns,
                                        visited@[q]@,
                                    ).unwrap().title@ == u;
                                if q < j {
                                    assert(strs(before).contains(u));
                                }
                            }
                        }
                    }
                } else {
                    proof {
                        assert forall|u: Seq<char>| #[trigger] strs(out@).contains(u) <==> exists|q: int|
                            0 <= q < j + 1 && by_id(ns, #[trigger] visited@[q]@) is Some && by_id(
                                ns,
                                visited@[q]@,
                            ).unwrap().title@ == u by {
                            if exists|q: int|
                                0 <= q < j + 1 && by_id(ns, #[trigger] visited@[q]@) is Some && by_id(
                                    ns,
                                    visited@[q]@,
                                ).unwrap().title@ == u {
                                let q = choose|q: int|
                                    0 <= q < j + 1 && by_id(ns, #[trigger] visited@[q]@) is Some && by_id(
                                        ns,
                                        visited@[q]@,
                                    ).unwrap().title@ == u;
                                if q == j {
                                    assert(u == t@);
                                }
                            }
                        }
                    }
                }
            },
            None => {
                proof {
                    assert forall|u: Seq<char>| #[trigger] strs(out@).contains(u) <==> exists|q: int|
                        0 <= q < j + 1 && by_id(ns, #[trigger] visited@[q]@) is Some && by_id(
                            ns,
                            visited@[q]@,
                        ).unwrap().title@ == u by {
                        if exists|q: int|
                            0 <= q < j + 1 && by_id(ns, #[trigger] visited@[q]@) is Some && by_id(
                                ns,
                                visited@[q]@,
                            ).unwrap().title@ == u {
                            let q = choose|q: int|
                                0 <= q < j + 1 && by_id(ns, #[trigger] visited@[q]@) is Some && by_id(
                                    ns,
                                    visited@[q]@,
                                ).unwrap().title@ == u;
                            assert(q < j);
                        }
                    }
                }
            },
        }
        j += 1;
    }
    proof {
        assert forall|t: Seq<char>| #[trigger] strs(out@).contains(t) <==> pulses(ns, fv, now as nat, t) by {
            if strs(out@).contains(t) {
                let q = choose|q: int|
                    0 <= q < visited@.len() && by_id(ns, #[trigger] visited@[q]@) is Some && by_id(
                        ns,
                        visited@[q]@,
                    ).unwrap().title@ == t;
                assert(strs(visited@)[q] == visited@[q]@);
                assert(strs(visited@).contains(visited@[q]@));
            }
            if pulses(ns, fv, now as nat, t) {
                let id = choose|id: Seq<char>|
                    reaches(node_adj(ns), pulse_seeds(ns, fv, now as nat), id) && #[trigger] by_id(ns, id) is Some
                        && by_id(ns, id).unwrap().title@ == t;
                assert(strs(visited@).contains(id));
                let q = choose|q: int| 0 <= q < strs(visited@).len() && strs(visited@)[q] == id;
                assert(visited@[q]@ == id);
            }
        }
    }
    out
}

} // verus!
