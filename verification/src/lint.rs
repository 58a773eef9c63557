//! Two findings of the coverage report beyond the intent rows: how many green
//! validations are PROVEN (observed red at least once), and which notes on
//! intents and impls use binding language that no control speaks for.
use vstd::prelude::*;

use crate::agent::utf8_len;
use crate::graph::{board_view, closure_up, contains_string, pairs, reaches, serves_graph, serves_of, strs, BoardView};
use crate::hygiene::shared_count;
use crate::node::{spec_all, spec_get, Field, Node};
use crate::query::control_role;
use crate::runs::{proven_detector, spec_proven, RunRec};
use crate::text::{chars_of, contains_str, is_alphanumeric, alphanumeric, has_infix, lower_text, lowercase, str_eq, to_owned, string_of};

verus! {

// ─── PROVEN ─────────────────────────────────────────────────────────────────

/// A validation measured green.
pub open spec fn green_validation(fs: Seq<Field>) -> bool {
    spec_get(fs, "role"@) == Some("validation"@) && spec_get(fs, "status"@) == Some("ok"@)
}

/// The runs listed for `id` (the first entry for it), none when absent.
pub open spec fn runs_for(gs: Seq<(Seq<char>, Seq<RunRec>)>, id: Seq<char>) -> Seq<RunRec>
    decreases gs.len(),
{
    if gs.len() == 0 {
        Seq::empty()
    } else if gs[0].0 == id {
        gs[0].1
    } else {
        runs_for(gs.drop_first(), id)
    }
}

pub open spec fn runs_view(g: Seq<(String, Vec<RunRec>)>) -> Seq<(Seq<char>, Seq<RunRec>)> {
    g.map_values(|e: (String, Vec<RunRec>)| (e.0@, e.1@))
}

/// Green validations among the first `n` nodes.
pub open spec fn greens(b: BoardView, n: int) -> nat
    decreases n,
{
    if n <= 0 {
        0
    } else {
        greens(b, n - 1) + if green_validation(b[n - 1].1) { 1nat } else { 0nat }
    }
}

/// Green validations among the first `n` nodes that are proven: stamped
/// `proven`, or with a red among their runs.
pub open spec fn proven_greens(b: BoardView, gs: Seq<(Seq<char>, Seq<RunRec>)>, n: int) -> nat
    decreases n,
{
    if n <= 0 {
        0
    } else {
        proven_greens(b, gs, n - 1) + if green_validation(b[n - 1].1) && spec_proven(
            Some(b[n - 1].1),
            runs_for(gs, b[n - 1].0),
        ) {
            1nat
        } else {
            0nat
        }
    }
}

fn runs_of<'a>(runs: &'a Vec<(String, Vec<RunRec>)>, id: &str) -> (r: &'a [RunRec])
    ensures
        r@ == runs_for(runs_view(runs@), id@),
{
    let ghost gv = runs_view(runs@);
    let mut i: usize = 0;
    assert(gv.skip(0) =~= gv);
    while i < runs.len()
        invariant
            gv == runs_view(runs@),
            i <= runs.len(),
            runs_for(gv, id@) == runs_for(gv.skip(i as int), id@),
        decreases runs.len() - i,
    {
        assert(gv.skip(i as int)[0] == gv[i as int]);
        if str_eq(runs[i].0.as_str(), id) {
            return runs[i].1.as_slice();
        }
        assert(gv.skip(i as int).drop_first() =~= gv.skip(i + 1));
        i += 1;
    }
    assert(gv.skip(i as int) =~= Seq::<(Seq<char>, Seq<RunRec>)>::empty());
    let e: &[RunRec] = &[];
    assert(e@ =~= Seq::<RunRec>::empty());
    e
}

fn is_green(n: &Node) -> (r: bool)
    ensures
        r == green_validation(n@),
{
    let role_ok = match n.get("role") {
        Some(x) => str_eq(x, "validation"),
        None => false,
    };
    let status_ok = match n.get("status") {
        Some(x) => str_eq(x, "ok"),
        None => false,
    };
    role_ok && status_ok
}

/// `(proven, green)`: of the validations measured green, how many were
/// observed red at least once (a `proven` stamp, or a red in the runs given
/// for their id).
pub fn proven_count(board: &Vec<(String, Node)>, runs: &Vec<(String, Vec<RunRec>)>) -> (r: (usize, usize))
    ensures
        r.0 as nat == proven_greens(board_view(board@), runs_view(runs@), board@.len() as int),
        r.1 as nat == greens(board_view(board@), board@.len() as int),
{
    let ghost bv = board_view(board@);
    let ghost gv = runs_view(runs@);
    let mut proven: usize = 0;
    let mut green: usize = 0;
    let mut k: usize = 0;
    while k < board.len()
        invariant
            bv == board_view(board@),
            gv == runs_view(runs@),
            k <= board.len(),
            proven <= green <= k,
            proven as nat == proven_greens(bv, gv, k as int),
            green as nat == greens(bv, k as int),
        decreases board.len() - k,
    {
        if is_green(&board[k].1) {
            green += 1;
            let rs = runs_of(runs, board[k].0.as_str());
            if proven_detector(Some(&board[k].1), rs) {
                proven += 1;
            }
        }
        k += 1;
    }
    (proven, green)
}

// ─── the note→control lint ──────────────────────────────────────────────────

/// The pieces of `s` between characters that are not alphanumeric (empty
/// pieces included).
pub open spec fn pieces(s: Seq<char>) -> Seq<Seq<char>>
    decreases s.len(),
{
    if s.len() == 0 {
        seq![Seq::empty()]
    } else {
        let p = pieces(s.drop_last());
        if alphanumeric(s.last()) {
            p.update(p.len() - 1, p.last().push(s.last()))
        } else {
            p.push(Seq::empty())
        }
    }
}

/// The words of a text that the lint compares: lower-cased, split at every
/// character that is not alphanumeric, longer than three bytes.
pub open spec fn note_words(t: Seq<char>) -> Set<Seq<char>> {
    pieces(lower_text(t)).to_set().filter(|w: Seq<char>| utf8_len(w) > 3)
}

/// A note in binding language: it contains, ignoring case, one of must,
/// never, always, only, exactly, required.
pub open spec fn binding_note(note: Seq<char>) -> bool {
    let low = lower_text(note);
    has_infix(low, "must"@) || has_infix(low, "never"@) || has_infix(low, "always"@) || has_infix(low, "only"@)
        || has_infix(low, "exactly"@) || has_infix(low, "required"@)
}

pub open spec fn opt_at(ch: Seq<Seq<char>>, i: int) -> Option<Seq<char>> {
    if 0 <= i < ch.len() {
        Some(ch[i])
    } else {
        None
    }
}

/// The nodes whose notes the lint reads: their role (or its absence) is
/// that of the first or the second layer of the chain.
pub open spec fn linted(fs: Seq<Field>, ch: Seq<Seq<char>>) -> bool {
    spec_get(fs, "role"@) == opt_at(ch, 0) || spec_get(fs, "role"@) == opt_at(ch, 1)
}

pub open spec fn title_of(fs: Seq<Field>) -> Seq<char> {
    match spec_get(fs, "title"@) {
        Some(t) => t,
        None => Seq::empty(),
    }
}

/// Some control that realizes node `id` shares at least two words with a
/// note whose words are `nw`.
pub open spec fn spoken_for(b: BoardView, ch: Seq<Seq<char>>, id: Seq<char>, nw: Set<Seq<char>>) -> bool {
    exists|j: int|
        0 <= j < b.len() && spec_get(#[trigger] b[j].1, "role"@) == Some(control_role(ch)) && reaches(
            serves_graph(b),
            serves_of(b[j].1),
            id,
        ) && note_words(title_of(b[j].1)).intersect(nw).len() >= 2
}

/// The loose notes among `notes` of node `id`: binding, and spoken for by
/// no control.
pub open spec fn loose_in(b: BoardView, ch: Seq<Seq<char>>, id: Seq<char>, notes: Seq<Seq<char>>) -> Seq<
    (Seq<char>, Seq<char>),
>
    decreases notes.len(),
{
    if notes.len() == 0 {
        Seq::empty()
    } else {
        loose_in(b, ch, id, notes.drop_last()) + if binding_note(notes.last()) && !spoken_for(
            b,
            ch,
            id,
            note_words(notes.last()),
        ) {
            seq![(id, notes.last())]
        } else {
            Seq::empty()
        }
    }
}

/// The loose notes of the first `n` nodes, as (node id, note).
pub open spec fn spec_loose(b: BoardView, ch: Seq<Seq<char>>, n: int) -> Seq<(Seq<char>, Seq<char>)>
    decreases n,
{
    if n <= 0 {
        Seq::empty()
    } else {
        spec_loose(b, ch, n - 1) + if linted(b[n - 1].1, ch) {
            loose_in(b, ch, b[n - 1].0, spec_all(b[n - 1].1, "note"@))
        } else {
            Seq::empty()
        }
    }
}

/// The pieces of `s` between non-alphanumeric characters.
fn split_pieces(s: &str) -> (r: Vec<String>)
    ensures
        strs(r@) == pieces(s@),
{
    let v = chars_of(s);
    let mut done: Vec<String> = Vec::new();
    let mut cur: Vec<char> = Vec::new();
    let mut i: usize = 0;
    assert(s@.take(0) =~= Seq::<char>::empty());
    assert(strs(done@).push(cur@) =~= pieces(s@.take(0)));
    while i < v.len()
        invariant
            v@ == s@,
            i <= v.len(),
            strs(done@).push(cur@) == pieces(s@.take(i as int)),
        decreases v.len() - i,
    {
        let c = v[i];
        let ghost p = strs(done@).push(cur@);
        assert(s@.take(i + 1).drop_last() =~= s@.take(i as int));
        assert(s@.take(i + 1).last() == c);
        if is_alphanumeric(c) {
            cur.push(c);
            assert(strs(done@).push(cur@) =~= p.update(p.len() - 1, p.last().push(c)));
        } else {
            let w = string_of(&cur, 0, cur.len());
            assert(w@ =~= cur@);
            let ghost d0 = strs(done@);
            done.push(w);
            assert(strs(done@) =~= d0.push(w@));
            cur = Vec::new();
            assert(strs(done@).push(cur@) =~= p.push(Seq::<char>::empty()));
        }
        i += 1;
    }
    assert(s@.take(v.len() as int) =~= s@);
    let w = string_of(&cur, 0, cur.len());
    assert(w@ =~= cur@);
    let ghost d0 = strs(done@);
    done.push(w);
    assert(strs(done@) =~= d0.push(w@));
    done
}

/// The words of `t` that the lint compares, each once.
fn lint_words(t: &str) -> (r: Vec<String>)
    ensures
        strs(r@).no_duplicates(),
        strs(r@).to_set() == note_words(t@),
{
    let low = lowercase(t);
    let ws = split_pieces(low.as_str());
    let ghost all = strs(ws@);
    let mut out: Vec<String> = Vec::new();
    let mut i: usize = 0;
    proof {
        assert(strs(out@).to_set() =~= all.take(0).to_set().filter(|w: Seq<char>| utf8_len(w) > 3));
    }
    while i < ws.len()
        invariant
            i <= ws@.len(),
            all == strs(ws@),
            all == pieces(lower_text(t@)),
            strs(out@).no_duplicates(),
            strs(out@).to_set() == all.take(i as int).to_set().filter(|w: Seq<char>| utf8_len(w) > 3),
        decreases ws.len() - i,
    {
        let w = &ws[i];
        let cs = chars_of(w.as_str());
        assert(cs@.subrange(0, cs@.len() as int) =~= w@);
        let long = crate::agent::utf8_len_upto(&cs, 0, cs.len(), 3).is_none();
        let ghost prev = strs(out@);
        proof {
            assert(all.take(i + 1) =~= all.take(i as int).push(w@));
            crate::graph::lemma_push_contains(all.take(i as int), w@);
        }
        if long && !contains_string(&out, w.as_str()) {
            out.push(to_owned(w.as_str()));
            proof {
                assert(strs(out@) =~= prev.push(w@));
                crate::graph::lemma_push_contains(prev, w@);
                assert forall|a: int, b: int| 0 <= a < b < strs(out@).len() implies strs(out@)[a] != strs(out@)[b] by {
                    if b == prev.len() {
                        assert(prev.contains(prev[a]));
                    }
                }
            }
        }
        proof {
            assert(strs(out@).to_set() =~= all.take(i + 1).to_set().filter(|w: Seq<char>| utf8_len(w) > 3));
        }
        i += 1;
    }
    assert(all.take(ws@.len() as int) =~= all);
    out
}

fn is_binding(note: &str) -> (r: bool)
    ensures
        r == binding_note(note@),
{
    let low = lowercase(note);
    let l = low.as_str();
    contains_str(l, "must") || contains_str(l, "never") || contains_str(l, "always") || contains_str(l, "only")
        || contains_str(l, "exactly") || contains_str(l, "required")
}

fn opt_eq(a: Option<&str>, b: Option<&str>) -> (r: bool)
    ensures
        r == (match a {
            Some(x) => Some(x@),
            None => None,
        } == match b {
            Some(x) => Some(x@),
            None => None,
        }),
{
    match (a, b) {
        (Some(x), Some(y)) => str_eq(x, y),
        (None, None) => true,
        _ => false,
    }
}

/// What the lint knows of each node: whether it is a control, what it
/// realizes (its upward closure) and its title's words.
pub struct ControlFacts {
    pub control: bool,
    pub closure: Vec<String>,
    pub words: Vec<String>,
}

pub open spec fn facts_hold(b: BoardView, ch: Seq<Seq<char>>, j: int, f: ControlFacts) -> bool {
    &&& f.control == (spec_get(b[j].1, "role"@) == Some(control_role(ch)))
    &&& f.control ==> forall|x: Seq<char>| strs(f.closure@).contains(x) <==> reaches(serves_graph(b), serves_of(b[j].1), x)
    &&& strs(f.words@).no_duplicates()
    &&& strs(f.words@).to_set() == note_words(title_of(b[j].1))
}

fn control_of(chain: &Vec<String>) -> (r: String)
    ensures
        r@ == control_role(strs(chain@)),
{
    if chain.len() >= 2 {
        to_owned(chain[chain.len() - 2].as_str())
    } else {
        to_owned("control")
    }
}

fn facts(board: &Vec<(String, Node)>, chain: &Vec<String>) -> (r: Vec<ControlFacts>)
    ensures
        r.len() == board.len(),
        forall|j: int| 0 <= j < r.len() ==> facts_hold(board_view(board@), strs(chain@), j, #[trigger] r@[j]),
{
    let ghost bv = board_view(board@);
    let ghost ch = strs(chain@);
    let crole = control_of(chain);
    let mut out: Vec<ControlFacts> = Vec::new();
    let mut k: usize = 0;
    while k < board.len()
        invariant
            bv == board_view(board@),
            ch == strs(chain@),
            crole@ == control_role(ch),
            k <= board.len(),
            out.len() == k,
            forall|j: int| 0 <= j < k ==> facts_hold(bv, ch, j, #[trigger] out@[j]),
        decreases board.len() - k,
    {
        let n = &board[k].1;
        let control = match n.get("role") {
            Some(x) => str_eq(x, crole.as_str()),
            None => false,
        };
        let closure = if control {
            closure_up(n, board)
        } else {
            Vec::new()
        };
        let title = match n.get("title") {
            Some(t) => to_owned(t),
            None => String::new(),
        };
        proof {
            reveal_strlit("");
        }
        let words = lint_words(title.as_str());
        assert(title@ == title_of(bv[k as int].1));
        let f = ControlFacts { control, closure, words };
        assert(facts_hold(bv, ch, k as int, f));
        out.push(f);
        k += 1;
    }
    out
}

fn is_spoken_for(
    board: &Vec<(String, Node)>,
    fs: &Vec<ControlFacts>,
    id: &str,
    nw: &Vec<String>,
    Ghost(ch): Ghost<Seq<Seq<char>>>,
) -> (r: bool)
    requires
        fs.len() == board.len(),
        forall|j: int| 0 <= j < fs.len() ==> facts_hold(board_view(board@), ch, j, #[trigger] fs@[j]),
    ensures
        r == spoken_for(board_view(board@), ch, id@, strs(nw@).to_set()),
{
    let ghost bv = board_view(board@);
    let mut j: usize = 0;
    while j < fs.len()
        invariant
            bv == board_view(board@),
            fs.len() == board.len(),
            forall|q: int| 0 <= q < fs.len() ==> facts_hold(bv, ch, q, #[trigger] fs@[q]),
            j <= fs.len(),
            forall|q: int|
                0 <= q < j ==> !(spec_get(#[trigger] bv[q].1, "role"@) == Some(control_role(ch)) && reaches(
                    serves_graph(bv),
                    serves_of(bv[q].1),
                    id@,
                ) && note_words(title_of(bv[q].1)).intersect(strs(nw@).to_set()).len() >= 2),
        decreases fs.len() - j,
    {
        let f = &fs[j];
        assert(facts_hold(bv, ch, j as int, fs@[j as int]));
        let hit = f.control && contains_string(&f.closure, id) && shared_count(&f.words, nw) >= 2;
        if hit {
            assert(spec_get(bv[j as int].1, "role"@) == Some(control_role(ch)));
            return true;
        }
        j += 1;
    }
    false
}

/// The note→control lint: each note on a node of the chain's first two
/// layers that uses binding language while no control realizing that node
/// shares two of its words, as (node id, note), in board and note order.
pub fn loose_notes(board: &Vec<(String, Node)>, chain: &Vec<String>) -> (r: Vec<(String, String)>)
    ensures
        pairs(r@) == spec_loose(board_view(board@), strs(chain@), board@.len() as int),
{
    let ghost bv = board_view(board@);
    let ghost ch = strs(chain@);
    let fs = facts(board, chain);
    let first: Option<&str> = if chain.len() > 0 {
        Some(chain[0].as_str())
    } else {
        None
    };
    let second: Option<&str> = if chain.len() > 1 {
        Some(chain[1].as_str())
    } else {
        None
    };
    let mut out: Vec<(String, String)> = Vec::new();
    let mut k: usize = 0;
    while k < board.len()
        invariant
            bv == board_view(board@),
            ch == strs(chain@),
            fs.len() == board.len(),
            forall|q: int| 0 <= q < fs.len() ==> facts_hold(bv, ch, q, #[trigger] fs@[q]),
            match first {
                Some(x) => Some(x@),
                None => None,
            } == opt_at(ch, 0),
            match second {
                Some(x) => Some(x@),
                None => None,
            } == opt_at(ch, 1),
            k <= board.len(),
            pairs(out@) == spec_loose(bv, ch, k as int),
        decreases board.len() - k,
    {
        let n = &board[k].1;
        let id = &board[k].0;
        let role = n.get("role");
        let ghost o0 = pairs(out@);
        if opt_eq(role, first) || opt_eq(role, second) {
            let notes = n.all("note");
            let ghost nv = spec_all(n@, "note"@);
            let mut i: usize = 0;
            while i < notes.len()
                invariant
                    bv == board_view(board@),
                    fs.len() == board.len(),
                    forall|q: int| 0 <= q < fs.len() ==> facts_hold(bv, ch, q, #[trigger] fs@[q]),
                    nv == spec_all(n@, "note"@),
                    notes@.len() == nv.len(),
                    forall|q: int| 0 <= q < notes@.len() ==> (#[trigger] notes@[q])@ == nv[q],
                    i <= notes.len(),
                    pairs(out@) == o0 + loose_in(bv, ch, id@, nv.take(i as int)),
                decreases notes.len() - i,
            {
                let note = notes[i];
                let ghost before = pairs(out@);
                assert(nv.take(i + 1).drop_last() =~= nv.take(i as int));
                assert(nv.take(i + 1).last() == note@);
                if is_binding(note) {
                    let nw = lint_words(note);
                    if !is_spoken_for(board, &fs, id.as_str(), &nw, Ghost(ch)) {
                        out.push((to_owned(id.as_str()), to_owned(note)));
                        assert(pairs(out@) =~= before.push((id@, note@)));
                    }
                }
                assert(pairs(out@) =~= o0 + loose_in(bv, ch, id@, nv.take(i + 1)));
                i += 1;
            }
            assert(nv.take(notes@.len() as int) =~= nv);
            assert(pairs(out@) =~= spec_loose(bv, ch, k + 1));
        } else {
            assert(pairs(out@) =~= spec_loose(bv, ch, k + 1));
        }
        k += 1;
    }
    out
}

} // verus!
