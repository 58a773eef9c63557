//! Assembling the board from the truth directory's files: which names hold a
//! node, what id a node goes by (its file name, whatever its `id:` field
//! says), and the order every reader sees (by id). Listing and reading the
//! directory is the caller's work.
use vstd::prelude::*;

use crate::graph::board_view;
use crate::node::{spec_get, spec_parse, Field, Node};
use crate::runs::{lemma_lex_total, lemma_lex_trans, lemma_multiset_insert, lex_less, lex_lt};
use crate::text::{chars_of, str_eq, string_of};

verus! {

/// The id a file name gives its node: the name without its `.node`
/// extension, when it has that extension and something before it.
pub open spec fn spec_node_stem(name: Seq<char>) -> Option<Seq<char>> {
    if name.len() > 5 && name.skip(name.len() - 5) == ".node"@ {
        Some(name.take(name.len() - 5))
    } else {
        None
    }
}

/// The id of the node stored under file name `name`, or `None` when the
/// file holds no node.
pub fn node_stem(name: &str) -> (r: Option<String>)
    ensures
        match r {
            Some(s) => spec_node_stem(name@) == Some(s@),
            None => spec_node_stem(name@) is None,
        },
{
    proof {
        reveal_strlit(".node");
    }
    let v = chars_of(name);
    let n = v.len();
    if n <= 5 {
        return None;
    }
    let tail = string_of(&v, n - 5, n);
    assert(tail@ =~= name@.skip(name@.len() - 5));
    if str_eq(tail.as_str(), ".node") {
        let stem = string_of(&v, 0, n - 5);
        assert(stem@ =~= name@.take(name@.len() - 5));
        Some(stem)
    } else {
        None
    }
}

/// The `id:` a node states when it differs from the id its file name gives
/// it; the file name wins, so such a field is only worth a warning.
pub fn stray_id(id: &str, n: &Node) -> (r: Option<String>)
    ensures
        match r {
            Some(s) => spec_get(n@, "id"@) == Some(s@) && s@ != id@,
            None => spec_get(n@, "id"@) is None || spec_get(n@, "id"@) == Some(id@),
        },
{
    match n.get("id") {
        Some(cid) => {
            if str_eq(cid, id) {
                None
            } else {
                Some(cid.to_string())
            }
        },
        None => None,
    }
}

/// The nodes of `(id, text)` entries, parsed, in entry order.
pub open spec fn spec_entries(files: Seq<(Seq<char>, Seq<char>)>) -> Seq<(Seq<char>, Seq<Field>)> {
    files.map_values(|f: (Seq<char>, Seq<char>)| (f.0, spec_parse(f.1)))
}

pub open spec fn files_view(v: Seq<(String, String)>) -> Seq<(Seq<char>, Seq<char>)> {
    v.map_values(|f: (String, String)| (f.0@, f.1@))
}

/// Ordered by id, smallest first.
pub open spec fn by_id(b: Seq<(Seq<char>, Seq<Field>)>) -> bool {
    forall|i: int, j: int| 0 <= i < j < b.len() ==> !lex_lt(#[trigger] b[j].0, #[trigger] b[i].0)
}

/// The board of the truth directory: each `(id, text)` entry (the id from
/// its file name) parsed into a node, ordered by id.
pub fn assemble_board(files: &Vec<(String, String)>) -> (r: Vec<(String, Node)>)
    ensures
        by_id(board_view(r@)),
        board_view(r@).to_multiset() == spec_entries(files_view(files@)).to_multiset(),
{
    let ghost want = spec_entries(files_view(files@));
    let mut out: Vec<(String, Node)> = Vec::new();
    let mut i: usize = 0;
    proof {
        assert(want.take(0) =~= Seq::<(Seq<char>, Seq<Field>)>::empty());
        assert(board_view(out@) =~= Seq::<(Seq<char>, Seq<Field>)>::empty());
    }
    while i < files.len()
        invariant
            i <= files.len(),
            want == spec_entries(files_view(files@)),
            want.len() == files.len(),
            by_id(board_view(out@)),
            board_view(out@).to_multiset() == want.take(i as int).to_multiset(),
        decreases files.len() - i,
    {
        let x: (String, Node) = (files[i].0.clone(), Node::parse(files[i].1.as_str()));
        assert((x.0@, x.1@) == want[i as int]);
        let mut k: usize = 0;
        while k < out.len() && !lex_less(&x.0, &out[k].0)
            invariant
                k <= out.len(),
                forall|j: int| 0 <= j < k ==> !lex_lt(x.0@, #[trigger] out@[j].0@),
            decreases out.len() - k,
        {
            k += 1;
        }
        let ghost before = out@;
        let ghost bv = board_view(before);
        out.insert(k, x);
        proof {
            let xv = (x.0@, x.1@);
            let ov = board_view(out@);
            assert(ov =~= bv.insert(k as int, xv));
            assert forall|a: int, b: int| 0 <= a < b < ov.len() implies !lex_lt(#[trigger] ov[b].0, #[trigger] ov[a].0) by {
                if b < k {
                    assert(ov[a] == bv[a] && ov[b] == bv[b]);
                } else if b == k {
                    assert(ov[a] == bv[a]);
                    assert(ov[a].0 == before[a].0@);
                    lemma_lex_total(x.0@, before[a].0@);
                } else if a < k {
                    assert(ov[a] == bv[a] && ov[b] == bv[b - 1]);
                } else if a == k {
                    assert(ov[b] == bv[b - 1]);
                    assert(k < before.len());
                    assert(lex_lt(x.0@, before[k as int].0@));
                    if k < b - 1 {
                        assert(!lex_lt(bv[b - 1].0, bv[k as int].0));
                        lemma_lex_total(bv[b - 1].0, bv[k as int].0);
                        if bv[b - 1].0 != bv[k as int].0 {
                            lemma_lex_trans(x.0@, bv[k as int].0, bv[b - 1].0);
                        }
                    }
                    lemma_lex_total(x.0@, bv[b - 1].0);
                } else {
                    assert(ov[a] == bv[a - 1] && ov[b] == bv[b - 1]);
                }
            }
            lemma_multiset_insert(bv, k as int, xv);
            assert(want.take(i + 1) =~= want.take(i as int).push(want[i as int]));
            want.take(i as int).to_multiset_ensures();
        }
        i += 1;
    }
    assert(want.take(files.len() as int) =~= want);
    out
}

} // verus!
