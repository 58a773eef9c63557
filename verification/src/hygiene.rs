//! Two hygiene checks on the board: a new node whose title nearly repeats
//! one of its role, and commits that name no intent.
use vstd::prelude::*;

use crate::agent::utf8_len;
use crate::graph::{board_view, contains_string, strs, BoardView};
use crate::node::{spec_get, Node};
use crate::conf::{split_bounds, split_on};
use crate::text::{
    chars_of, contains_str, find_char, find_seq, first_index, first_occ, has_infix, has_prefix, lemma_first_occ,
    lower_text, lowercase, occurs_at, split_ws, starts_with, str_eq, string_of, to_owned, trim, trim_str, words,
};

verus! {

// ─── near-duplicate titles ─────────────────────────────────────────────────

/// A word that counts for likeness: longer than three bytes.
pub open spec fn counts_for_likeness(w: Seq<char>) -> bool {
    utf8_len(w) > 3
}

/// The distinct lower-cased words of a title that count for likeness.
pub open spec fn long_words(t: Seq<char>) -> Set<Seq<char>> {
    words(lower_text(t)).to_set().filter(|w: Seq<char>| counts_for_likeness(w))
}

/// Two word sets overlap heavily: at least three shared words, and shared
/// words make up at least 70% of the smaller set.
pub open spec fn too_similar(a: Set<Seq<char>>, b: Set<Seq<char>>) -> bool {
    let hits = a.intersect(b).len();
    let m = if a.len() <= b.len() { a.len() } else { b.len() };
    let m1 = if m >= 1 { m } else { 1 };
    hits * 10 >= m1 * 7 && hits >= 3
}

/// The long words of `t`, each once.
pub fn long_word_list(t: &str) -> (r: Vec<String>)
    ensures
        strs(r@).no_duplicates(),
        strs(r@).to_set() == long_words(t@),
{
    let low = lowercase(t);
    let ws = split_ws(low.as_str());
    let ghost all = strs(ws@);
    let mut out: Vec<String> = Vec::new();
    let mut i: usize = 0;
    proof {
        assert(strs(out@).to_set() =~= all.take(0).to_set().filter(|w: Seq<char>| counts_for_likeness(w)));
    }
    while i < ws.len()
        invariant
            i <= ws@.len(),
            all == strs(ws@),
            strs(out@).no_duplicates(),
            strs(out@).to_set() == all.take(i as int).to_set().filter(|w: Seq<char>| counts_for_likeness(w)),
        decreases ws.len() - i,
    {
        let w = &ws[i];
        let cs = chars_of(w.as_str());
        assert(cs@.subrange(0, cs@.len() as int) =~= w@);
        let long = crate::agent::utf8_len_upto(&cs, 0, cs.len(), 3).is_none();
        let ghost prev = strs(out@);
        proof {
            assert(all.take(i + 1) =~= all.take(i as int).push(w@));
            crate::graph::lemma_push_contains(all.take(i as int), w@);
        }
        if long && !contains_string(&out, w.as_str()) {
            out.push(to_owned(w.as_str()));
            proof {
                assert(strs(out@) =~= prev.push(w@));
                crate::graph::lemma_push_contains(prev, w@);
                assert forall|a: int, b: int| 0 <= a < b < strs(out@).len() implies strs(out@)[a] != strs(out@)[b] by {
                    if b == prev.len() {
                        assert(prev.contains(prev[a]));
                    }
                }
            }
        }
        proof {
            assert(strs(out@).to_set() =~= all.take(i + 1).to_set().filter(|w: Seq<char>| counts_for_likeness(w)));
        }
        i += 1;
    }
    assert(all.take(ws@.len() as int) =~= all);
    out
}

/// How many values of `a` are in `b`.
pub fn shared_count(a: &Vec<String>, b: &Vec<String>) -> (r: usize)
    requires
        strs(a@).no_duplicates(),
    ensures
        r == strs(a@).to_set().intersect(strs(b@).to_set()).len(),
{
    let ghost sa = strs(a@);
    let ghost sb = strs(b@).to_set();
    let mut n: usize = 0;
    let mut i: usize = 0;
    proof {
        assert(sa.take(0).to_set().intersect(sb) =~= Set::<Seq<char>>::empty());
    }
    while i < a.len()
        invariant
            i <= a@.len(),
            sa == strs(a@),
            sb == strs(b@).to_set(),
            sa.no_duplicates(),
            n <= i,
            n == sa.take(i as int).to_set().intersect(sb).len(),
        decreases a.len() - i,
    {
        let ghost pre = sa.take(i as int).to_set();
        let ghost x = sa[i as int];
        proof {
            assert(sa.take(i + 1) =~= sa.take(i as int).push(x));
            crate::graph::lemma_push_contains(sa.take(i as int), x);
            vstd::seq_lib::seq_to_set_is_finite(sa.take(i as int));
            vstd::set::axiom_set_intersect_finite(pre, sb);
            assert(!pre.contains(x)) by {
                if sa.take(i as int).contains(x) {
                    let j = choose|j: int| 0 <= j < i && sa.take(i as int)[j] == x;
                    assert(sa[j] == sa[i as int]);
                }
            }
        }
        if contains_string(b, a[i].as_str()) {
            proof {
                assert(pre.insert(x).intersect(sb) =~= pre.intersect(sb).insert(x));
                vstd::set::axiom_set_insert_len(pre.intersect(sb), x);
            }
            n += 1;
        } else {
            proof {
                assert(pre.insert(x).intersect(sb) =~= pre.intersect(sb));
            }
        }
        i += 1;
    }
    assert(sa.take(a@.len() as int) =~= sa);
    n
}

/// Whether two word lists overlap too much (see `too_similar`).
pub fn similar_words(a: &Vec<String>, b: &Vec<String>) -> (r: bool)
    requires
        strs(a@).no_duplicates(),
        strs(b@).no_duplicates(),
    ensures
        r == too_similar(strs(a@).to_set(), strs(b@).to_set()),
{
    let hits = shared_count(a, b);
    proof {
        strs(a@).unique_seq_to_set();
        strs(b@).unique_seq_to_set();
        vstd::seq_lib::seq_to_set_is_finite(strs(a@));
        vstd::set_lib::lemma_len_intersect(strs(a@).to_set(), strs(b@).to_set());
    }
    let m = if a.len() <= b.len() { a.len() } else { b.len() };
    let m1 = if m >= 1 { m } else { 1 };
    (hits as u128) * 10 >= (m1 as u128) * 7 && hits >= 3
}

/// The first node of `role` whose title nearly repeats `title`, when the
/// new title has words that count at all.
pub open spec fn near_twin(b: BoardView, role: Seq<char>, title: Seq<char>) -> Option<Seq<char>>
    decreases b.len(),
{
    if b.len() == 0 || long_words(title).len() == 0 {
        None
    } else if spec_get(b[0].1, "role"@) == Some(role) && too_similar(
        long_words(title),
        long_words(
            match spec_get(b[0].1, "title"@) {
                Some(t) => t,
                None => Seq::empty(),
            },
        ),
    ) {
        Some(b[0].0)
    } else {
        near_twin(b.drop_first(), role, title)
    }
}

/// The node of the same role that a new title nearly repeats, if any: `add`
/// warns about it and still adds (the id and the existing title).
pub fn near_duplicate(board: &Vec<(String, Node)>, role: &str, title: &str) -> (r: Option<(String, String)>)
    ensures
        match r {
            Some((id, t)) => near_twin(board_view(board@), role@, title@) == Some(id@),
            None => near_twin(board_view(board@), role@, title@) is None,
        },
{
    proof {
        reveal_strlit("role");
        reveal_strlit("title");
        reveal_strlit("");
    }
    let new_w = long_word_list(title);
    proof {
        strs(new_w@).unique_seq_to_set();
    }
    let ghost bv = board_view(board@);
    if new_w.len() == 0 {
        return None;
    }
    let mut k: usize = 0;
    assert(bv.skip(0) =~= bv);
    while k < board.len()
        invariant
            k <= board@.len(),
            bv == board_view(board@),
            long_words(title@).len() > 0,
            strs(new_w@).no_duplicates(),
            strs(new_w@).to_set() == long_words(title@),
            near_twin(bv, role@, title@) == near_twin(bv.skip(k as int), role@, title@),
        decreases board.len() - k,
    {
        assert(bv.skip(k as int)[0] == (board@[k as int].0@, board@[k as int].1@));
        assert(bv.skip(k as int).drop_first() =~= bv.skip(k + 1));
        proof {
            reveal_strlit("role");
            reveal_strlit("title");
            reveal_strlit("");
        }
        let n = &board[k].1;
        let ghost nv = bv.skip(k as int)[0].1;
        assert(nv == n@);
        let same_role = match n.get("role") {
            Some(r) => str_eq(r, role),
            None => false,
        };
        if same_role {
            let t = match n.get("title") {
                Some(t) => t,
                None => "",
            };
            let ex_w = long_word_list(t);
            let ghost tv = match spec_get(nv, "title"@) {
                Some(x) => x,
                None => Seq::<char>::empty(),
            };
            assert(t@ == tv);
            if similar_words(&new_w, &ex_w) {
                assert(near_twin(bv.skip(k as int), role@, title@) == Some(board@[k as int].0@));
                return Some((to_owned(board[k].0.as_str()), to_owned(t)));
            }
        }
        k += 1;
    }
    None
}

// ─── commits that name no intent ───────────────────────────────────────────

pub proof fn lemma_first_occ_found(s: Seq<char>, p: Seq<char>)
    requires
        p.len() > 0,
        first_occ(s, p) < s.len(),
    ensures
        occurs_at(s, p, first_occ(s, p)),
        0 <= first_occ(s, p),
    decreases s.len(),
{
    if s.len() >= p.len() && s.take(p.len() as int) != p && s.len() > 0 {
        lemma_first_occ_found(s.drop_first(), p);
        let k = first_occ(s.drop_first(), p);
        assert(s.drop_first().subrange(k, k + p.len()) =~= s.subrange(k + 1, k + 1 + p.len()));
    } else if s.len() >= p.len() && s.take(p.len() as int) == p {
        assert(s.take(p.len() as int) =~= s.subrange(0, p.len() as int));
    }
}

/// The pieces of `s` between occurrences of a non-empty `sep`
/// (`str::split` by a string).
pub open spec fn split_str(s: Seq<char>, sep: Seq<char>) -> Seq<Seq<char>>
    decreases s.len(),
{
    let i = first_occ(s, sep);
    if sep.len() > 0 && i < s.len() {
        proof {
            lemma_first_occ_found(s, sep);
        }
        seq![s.take(i)] + split_str(s.skip(i + sep.len()), sep)
    } else {
        seq![s]
    }
}

/// The separator closing each commit in the log text.
pub const COMMIT_END: &'static str = "--ARTE--\n";

/// A commit from one block of the log: the trimmed block's first line
/// (trimmed) is the hash and the rest its message; none for a blank block or
/// one without a line break.
pub open spec fn commit_of(block: Seq<char>) -> Option<(Seq<char>, Seq<char>)> {
    let b = trim(block);
    let i = first_index(b, '\n');
    if b.len() > 0 && i < b.len() { Some((trim(b.take(i)), b.skip(i + 1))) } else { None }
}

/// The commits of the blocks, in order.
pub open spec fn commits_from(blocks: Seq<Seq<char>>) -> Seq<(Seq<char>, Seq<char>)>
    decreases blocks.len(),
{
    if blocks.len() == 0 {
        Seq::empty()
    } else {
        let before = commits_from(blocks.drop_last());
        match commit_of(blocks.last()) {
            Some(c) => before.push(c),
            None => before,
        }
    }
}

/// The commits (hash, message) of a log whose entries each end with
/// `--ARTE--` and a line break.
pub open spec fn commits_of(log: Seq<char>) -> Seq<(Seq<char>, Seq<char>)> {
    commits_from(split_str(log, COMMIT_END@))
}

/// The pieces of `s` between occurrences of `sep`.
fn split_on_str(s: &str, sep: &str) -> (r: Vec<String>)
    requires
        sep@.len() > 0,
    ensures
        strs(r@) == split_str(s@, sep@),
{
    let v = chars_of(s);
    let p = chars_of(sep);
    let mut out: Vec<String> = Vec::new();
    let mut from: usize = 0;
    assert(v@.skip(0) =~= s@);
    loop
        invariant
            from <= v@.len(),
            v@ == s@,
            p@ == sep@,
            p@.len() > 0,
            split_str(s@, sep@) == strs(out@) + split_str(s@.skip(from as int), sep@),
        decreases v@.len() - from,
    {
        let i = find_seq(&v, &p, from);
        let ghost t = s@.skip(from as int);
        let ghost po = strs(out@);
        if i < v.len() {
            proof {
                lemma_first_occ_found(t, sep@);
            }
            let piece = string_of(&v, from, i);
            out.push(piece);
            assert(t.take(i - from) =~= s@.subrange(from as int, i as int));
            assert(t.skip(i - from + sep@.len()) =~= s@.skip(i + p@.len()));
            assert(strs(out@) =~= po.push(t.take(i - from)));
            assert(split_str(t, sep@) =~= seq![t.take(i - from)] + split_str(t.skip(i - from + sep@.len()), sep@));
            assert(po + split_str(t, sep@) =~= strs(out@) + split_str(s@.skip(i + p@.len()), sep@));
            from = i + p.len();
        } else {
            let piece = string_of(&v, from, v.len());
            out.push(piece);
            assert(s@.subrange(from as int, v@.len() as int) =~= t);
            assert(strs(out@) =~= po.push(t));
            assert(split_str(t, sep@) =~= seq![t]);
            assert(po + split_str(t, sep@) =~= strs(out@));
            return out;
        }
    }
}

/// The commits of a log (hash and message each), in order; the log's
/// entries each end with `--ARTE--` and a line break.
pub fn parse_commits(log: &str) -> (r: Vec<(String, String)>)
    ensures
        r@.map_values(|c: (String, String)| (c.0@, c.1@)) == commits_of(log@),
{
    proof {
        reveal_strlit("--ARTE--\n");
    }
    let blocks = split_on_str(log, COMMIT_END);
    let ghost bs = strs(blocks@);
    let mut out: Vec<(String, String)> = Vec::new();
    let mut k: usize = 0;
    while k < blocks.len()
        invariant
            k <= blocks@.len(),
            bs == strs(blocks@),
            out@.map_values(|c: (String, String)| (c.0@, c.1@)) == commits_from(bs.take(k as int)),
        decreases blocks.len() - k,
    {
        assert(bs.take(k + 1).drop_last() =~= bs.take(k as int));
        assert(bs.take(k + 1).last() == blocks@[k as int]@);
        let ghost po = out@.map_values(|c: (String, String)| (c.0@, c.1@));
        let b = trim_str(blocks[k].as_str());
        let v = chars_of(b.as_str());
        let i = find_char(&v, '\n', 0, v.len());
        assert(v@.subrange(0, v@.len() as int) =~= b@);
        if v.len() > 0 && i < v.len() {
            let hash = trim_str(string_of(&v, 0, i).as_str());
            let body = string_of(&v, i + 1, v.len());
            assert(v@.subrange(0, i as int) =~= b@.take(i as int));
            assert(v@.subrange(i + 1, v@.len() as int) =~= b@.skip(i + 1));
            out.push((hash, body));
            assert(out@.map_values(|c: (String, String)| (c.0@, c.1@)) =~= po.push(
                commit_of(blocks@[k as int]@)->0,
            ));
        }
        k += 1;
    }
    assert(bs.take(k as int) =~= bs);
    out
}

/// The first line of a message (`str::lines().next()`, empty if none).
pub open spec fn first_line(body: Seq<char>) -> Seq<char> {
    split_on(body, '\n')[0]
}

/// Whether a commit is graded: not a merge, not a blank subject.
pub open spec fn graded(body: Seq<char>) -> bool {
    let f = lower_text(trim(first_line(body)));
    !(has_prefix(f, "merge "@) || f.len() == 0)
}

/// The known intent ids a message names, ignoring case, in the given order.
pub open spec fn named_ids(body: Seq<char>, known: Seq<Seq<char>>) -> Seq<Seq<char>>
    decreases known.len(),
{
    if known.len() == 0 {
        Seq::empty()
    } else {
        let before = named_ids(body, known.drop_last());
        if has_infix(lower_text(body), lower_text(known.last())) { before.push(known.last()) } else { before }
    }
}

/// The intents a commit message names (`check-commits`): none when the
/// commit is not graded (a merge or a blank subject), else the known ids
/// found in it, ignoring case. A graded commit that names none fails.
pub fn commit_refs(body: &str, known: &Vec<String>) -> (r: Option<Vec<String>>)
    ensures
        match r {
            None => !graded(body@),
            Some(hits) => graded(body@) && strs(hits@) == named_ids(body@, strs(known@)),
        },
{
    proof {
        reveal_strlit("merge ");
    }
    let v = chars_of(body);
    let e = find_char(&v, '\n', 0, v.len());
    assert(v@.subrange(0, v@.len() as int) =~= body@);
    proof {
        crate::conf::lemma_split_nonempty(body@, '\n');
        if e < v@.len() {
            crate::text::lemma_first_index(body@, '\n');
        }
    }
    let first = string_of(&v, 0, e);
    assert(first@ == first_line(body@)) by {
        crate::text::lemma_first_index(body@, '\n');
    }
    let f = lowercase(trim_str(first.as_str()).as_str());
    if starts_with(f.as_str(), "merge ") || chars_of(f.as_str()).len() == 0 {
        return None;
    }
    let low = lowercase(body);
    let mut hits: Vec<String> = Vec::new();
    let mut k: usize = 0;
    while k < known.len()
        invariant
            k <= known@.len(),
            low@ == lower_text(body@),
            strs(hits@) == named_ids(body@, strs(known@).take(k as int)),
        decreases known.len() - k,
    {
        assert(strs(known@).take(k + 1).drop_last() =~= strs(known@).take(k as int));
        let id_low = lowercase(known[k].as_str());
        if contains_str(low.as_str(), id_low.as_str()) {
            let ghost po = strs(hits@);
            hits.push(to_owned(known[k].as_str()));
            assert(strs(hits@) =~= po.push(known@[k as int]@));
        }
        k += 1;
    }
    assert(strs(known@).take(k as int) =~= strs(known@));
    Some(hits)
}

} // verus!
