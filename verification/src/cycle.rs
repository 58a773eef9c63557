//! The tetrahedron loop's decisions: PULL (group run files per validation),
//! CLASSIFY (what to dispatch next), PROMOTE (which validations earned ok),
//! the dispatch manifest, and when a `--forever` run stops. Reading the run
//! files, running `arte verify` and writing nodes are the caller's work.
use vstd::prelude::*;

use crate::graph::{strs, BoardView, board_view};
use crate::ident::{decimal, push_decimal};
use crate::node::{spec_get, spec_push, Field, Node};
use crate::runs::{
    count_result, ends_with_run, last_index, lemma_multiset_insert, newest_first, sort_newest_first,
    stable_pass, window, RunRec, STABLE_PASS_REQUIRED, STABLE_PASS_WINDOW,
};
use crate::text::{chars_of, push_str, str_eq, string_of, to_owned};

verus! {

// ─── PULL ───────────────────────────────────────────────────────────────────

/// The validation id of a run file `<v-id>.<seq>.run`: the part of the name
/// before `.run` up to its last dot. None for other names and an empty id.
pub open spec fn spec_run_vid(name: Seq<char>) -> Option<Seq<char>> {
    if name.len() >= 4 && name.skip(name.len() - 4) == ".run"@ {
        let stem = name.take(name.len() - 4);
        let p = last_index(stem, '.');
        if p >= 1 {
            Some(stem.take(p))
        } else {
            None
        }
    } else {
        None
    }
}

proof fn lemma_last_index_bounds(s: Seq<char>, c: char)
    ensures
        -1 <= last_index(s, c) < s.len(),
        last_index(s, c) >= 0 ==> s[last_index(s, c)] == c,
    decreases s.len(),
{
    if s.len() > 0 && s.last() != c {
        lemma_last_index_bounds(s.drop_last(), c);
    }
}

/// The validation a run file belongs to.
pub fn run_vid(name: &str) -> (r: Option<String>)
    ensures
        match r {
            Some(v) => spec_run_vid(name@) == Some(v@),
            None => spec_run_vid(name@) is None,
        },
{
    let t = chars_of(name);
    if !ends_with_run(&t) {
        return None;
    }
    let sl = t.len() - 4;
    let ghost stem = t@.take(sl as int);
    let mut p: usize = sl;
    while p > 0 && t[p - 1] != '.'
        invariant
            p <= sl < t@.len(),
            stem == t@.take(sl as int),
            last_index(stem, '.') == last_index(t@.take(p as int), '.'),
        decreases p,
    {
        assert(t@.take(p as int).drop_last() =~= t@.take(p - 1));
        p -= 1;
    }
    if p <= 1 {
        proof {
            if p == 0 {
                assert(t@.take(0) =~= Seq::<char>::empty());
            } else {
                assert(last_index(t@.take(1), '.') == 0);
            }
        }
        return None;
    }
    assert(last_index(t@.take(p as int), '.') == p - 1);
    assert(stem.take(p - 1) =~= t@.subrange(0, p - 1));
    Some(string_of(&t, 0, p - 1))
}

pub open spec fn entries_view(es: Seq<(String, RunRec)>) -> Seq<(Seq<char>, RunRec)> {
    es.map_values(|e: (String, RunRec)| (e.0@, e.1))
}

pub open spec fn entry_ids(es: Seq<(Seq<char>, RunRec)>) -> Seq<Seq<char>> {
    es.map_values(|e: (Seq<char>, RunRec)| e.0)
}

/// The runs recorded for `id`, in entry order.
pub open spec fn runs_from(es: Seq<(Seq<char>, RunRec)>, id: Seq<char>) -> Seq<RunRec>
    decreases es.len(),
{
    if es.len() == 0 {
        Seq::empty()
    } else {
        (if es[0].0 == id {
            seq![es[0].1]
        } else {
            Seq::empty()
        }) + runs_from(es.drop_first(), id)
    }
}

proof fn lemma_cons_multiset<A>(a: A, s: Seq<A>)
    ensures
        (seq![a] + s).to_multiset() == s.to_multiset().insert(a),
{
    assert(seq![a] + s =~= s.insert(0, a));
    lemma_multiset_insert(s, 0, a);
}

proof fn lemma_ids_cons(e: (Seq<char>, RunRec), s: Seq<(Seq<char>, RunRec)>, x: Seq<char>)
    ensures
        entry_ids(seq![e] + s).contains(x) <==> (x == e.0 || entry_ids(s).contains(x)),
{
    let t = seq![e] + s;
    assert(entry_ids(t) =~= seq![e.0] + entry_ids(s));
    if entry_ids(s).contains(x) {
        let j = choose|j: int| 0 <= j < entry_ids(s).len() && entry_ids(s)[j] == x;
        assert(entry_ids(t)[j + 1] == x);
    }
    if x == e.0 {
        assert(entry_ids(t)[0] == x);
    }
    if entry_ids(t).contains(x) {
        let j = choose|j: int| 0 <= j < entry_ids(t).len() && entry_ids(t)[j] == x;
        if j > 0 {
            assert(entry_ids(s)[j - 1] == x);
        }
    }
}

/// Index of `s` in `v`, if any.
fn index_of(v: &Vec<String>, s: &str) -> (r: Option<usize>)
    ensures
        match r {
            Some(i) => i < v@.len() && v@[i as int]@ == s@,
            None => !strs(v@).contains(s@),
        },
{
    let mut i: usize = 0;
    while i < v.len()
        invariant
            i <= v@.len(),
            forall|j: int| 0 <= j < i ==> v@[j]@ != s@,
        decreases v.len() - i,
    {
        if str_eq(v[i].as_str(), s) {
            return Some(i);
        }
        i += 1;
    }
    proof {
        if strs(v@).contains(s@) {
            let j = choose|j: int| 0 <= j < strs(v@).len() && strs(v@)[j] == s@;
            assert(v@[j]@ == s@);
        }
    }
    None
}

/// PULL — the runs of each validation, newest first. Each validation that
/// has runs appears once; its group holds exactly its runs.
pub fn group_runs(entries: Vec<(String, RunRec)>) -> (r: Vec<(String, Vec<RunRec>)>)
    ensures
        strs(r@.map_values(|g: (String, Vec<RunRec>)| g.0)).no_duplicates(),
        forall|x: Seq<char>|
            strs(r@.map_values(|g: (String, Vec<RunRec>)| g.0)).contains(x) <==> entry_ids(
                entries_view(entries@),
            ).contains(x),
        forall|j: int|
            0 <= j < r@.len() ==> newest_first(#[trigger] r@[j].1@) && r@[j].1@.to_multiset()
                == runs_from(entries_view(entries@), r@[j].0@).to_multiset(),
{
    let ghost ev = entries_view(entries@);
    let mut es = entries;
    let mut ids: Vec<String> = Vec::new();
    let mut buckets: Vec<Vec<RunRec>> = Vec::new();
    proof {
        assert(ev.skip(ev.len() as int) =~= Seq::<(Seq<char>, RunRec)>::empty());
    }
    while es.len() > 0
        invariant
            es@.len() <= ev.len(),
            entries_view(es@) == ev.take(es@.len() as int),
            strs(ids@).no_duplicates(),
            buckets@.len() == ids@.len(),
            forall|x: Seq<char>|
                #[trigger] strs(ids@).contains(x) <==> entry_ids(ev.skip(es@.len() as int)).contains(x),
            forall|j: int|
                0 <= j < ids@.len() ==> (#[trigger] buckets@[j])@.to_multiset() == runs_from(
                    ev.skip(es@.len() as int),
                    ids@[j]@,
                ).to_multiset(),
        decreases es@.len(),
    {
        let ghost m = es@.len() - 1;
        let ghost old_suffix = ev.skip(m + 1);
        let ghost before_es = es@;
        let (id, rec) = es.pop().unwrap();
        proof {
            assert(entries_view(before_es)[m] == (id@, rec));
            assert(ev[m] == (id@, rec));
            assert(ev.skip(m) =~= seq![ev[m]] + old_suffix);
            assert(entries_view(es@) =~= ev.take(m));
        }
        let ghost new_suffix = ev.skip(m);
        match index_of(&ids, id.as_str()) {
            Some(j) => {
                let ghost old_b = buckets@;
                buckets[j].push(rec);
                proof {
                    assert forall|q: int| 0 <= q < ids@.len() implies (#[trigger] buckets@[q])@.to_multiset()
                        == runs_from(new_suffix, ids@[q]@).to_multiset() by {
                        assert(new_suffix.drop_first() =~= old_suffix);
                        assert(new_suffix[0] == ev[m]);
                        assert(runs_from(new_suffix, ids@[q]@) == (if ev[m].0 == ids@[q]@ {
                            seq![ev[m].1]
                        } else {
                            Seq::empty()
                        }) + runs_from(old_suffix, ids@[q]@));
                        if q == j {
                            assert(buckets@[q]@ == old_b[q]@.push(rec));
                            lemma_multiset_insert(old_b[q]@, old_b[q]@.len() as int, rec);
                            assert(old_b[q]@.insert(old_b[q]@.len() as int, rec) =~= old_b[q]@.push(rec));
                            lemma_cons_multiset(rec, runs_from(old_suffix, ids@[q]@));
                        } else {
                            assert(buckets@[q] == old_b[q]);
                            assert(ids@[q]@ != id@) by {
                                assert(strs(ids@)[q] != strs(ids@)[j as int]);
                            }
                            assert(Seq::<RunRec>::empty() + runs_from(old_suffix, ids@[q]@) =~= runs_from(
                                old_suffix,
                                ids@[q]@,
                            ));
                        }
                    }
                    assert forall|x: Seq<char>| #[trigger] strs(ids@).contains(x) <==> entry_ids(
                        new_suffix,
                    ).contains(x) by {
                        lemma_ids_cons(ev[m], old_suffix, x);
                        assert(strs(ids@)[j as int] == id@);
                    }
                }
            },
            None => {
                let ghost old_ids = ids@;
                let ghost old_b = buckets@;
                let mut b: Vec<RunRec> = Vec::new();
                b.push(rec);
                buckets.push(b);
                ids.push(id);
                proof {
                    assert(strs(ids@) =~= strs(old_ids).push(ev[m].0));
                    assert forall|x: Seq<char>| #[trigger] strs(ids@).contains(x) <==> entry_ids(
                        new_suffix,
                    ).contains(x) by {
                        lemma_ids_cons(ev[m], old_suffix, x);
                        if strs(old_ids).contains(x) {
                            let q = choose|q: int| 0 <= q < strs(old_ids).len() && strs(old_ids)[q] == x;
                            assert(strs(ids@)[q] == x);
                        }
                        if x == ev[m].0 {
                            assert(strs(ids@)[old_ids.len() as int] == x);
                        }
                        if strs(ids@).contains(x) {
                            let q = choose|q: int| 0 <= q < strs(ids@).len() && strs(ids@)[q] == x;
                            if q < old_ids.len() {
                                assert(strs(old_ids)[q] == x);
                            }
                        }
                    }
                    assert forall|q: int| 0 <= q < ids@.len() implies (#[trigger] buckets@[q])@.to_multiset()
                        == runs_from(new_suffix, ids@[q]@).to_multiset() by {
                        assert(new_suffix.drop_first() =~= old_suffix);
                        assert(new_suffix[0] == ev[m]);
                        assert(runs_from(new_suffix, ids@[q]@) == (if ev[m].0 == ids@[q]@ {
                            seq![ev[m].1]
                        } else {
                            Seq::empty()
                        }) + runs_from(old_suffix, ids@[q]@));
                        if q == old_ids.len() {
                            assert(!strs(old_ids).contains(ev[m].0));
                            lemma_no_runs(old_suffix, ev[m].0);
                            assert(buckets@[q]@ =~= seq![rec]);
                            assert(seq![ev[m].1] + runs_from(old_suffix, ids@[q]@) =~= seq![rec]);
                        } else {
                            assert(buckets@[q] == old_b[q]);
                            assert(old_ids[q]@ != id@) by {
                                assert(strs(old_ids).contains(strs(old_ids)[q]));
                            }
                            assert(Seq::<RunRec>::empty() + runs_from(old_suffix, ids@[q]@) =~= runs_from(
                                old_suffix,
                                ids@[q]@,
                            ));
                        }
                    }
                }
            },
        }
    }
    let mut out: Vec<(String, Vec<RunRec>)> = Vec::new();
    let mut j: usize = 0;
    let n = ids.len();
    let ghost full = ev.skip(0);
    assert(full =~= ev);
    while j < n
        invariant
            j <= n == ids@.len() == buckets@.len(),
            full == ev,
            strs(ids@).no_duplicates(),
            forall|x: Seq<char>| #[trigger] strs(ids@).contains(x) <==> entry_ids(ev).contains(x),
            forall|q: int|
                j <= q < ids@.len() ==> (#[trigger] buckets@[q])@.to_multiset() == runs_from(
                    ev,
                    ids@[q]@,
                ).to_multiset(),
            out@.len() == j,
            forall|q: int| 0 <= q < j ==> #[trigger] out@[q].0@ == ids@[q]@,
            forall|q: int|
                0 <= q < j ==> newest_first(#[trigger] out@[q].1@) && out@[q].1@.to_multiset()
                    == runs_from(ev, out@[q].0@).to_multiset(),
        decreases n - j,
    {
        let mut b: Vec<RunRec> = Vec::new();
        let ghost old_b = buckets@;
        std::mem::swap(&mut b, &mut buckets[j]);
        proof {
            assert forall|q: int| j < q < ids@.len() implies #[trigger] buckets@[q] == old_b[q] by {}
        }
        let sorted = sort_newest_first(b);
        out.push((ids[j].clone(), sorted));
        j += 1;
    }
    proof {
        let gids = strs(out@.map_values(|g: (String, Vec<RunRec>)| g.0));
        assert(gids =~= strs(ids@));
    }
    out
}

proof fn lemma_no_runs(es: Seq<(Seq<char>, RunRec)>, id: Seq<char>)
    requires
        !entry_ids(es).contains(id),
    ensures
        runs_from(es, id) == Seq::<RunRec>::empty(),
    decreases es.len(),
{
    if es.len() > 0 {
        assert(entry_ids(es)[0] != id);
        assert(entry_ids(es.drop_first()) =~= entry_ids(es).drop_first());
        if entry_ids(es.drop_first()).contains(id) {
            let j = choose|j: int| 0 <= j < entry_ids(es.drop_first()).len() && entry_ids(es.drop_first())[j] == id;
            assert(entry_ids(es)[j + 1] == id);
        }
        lemma_no_runs(es.drop_first(), id);
        assert(Seq::<RunRec>::empty() + Seq::<RunRec>::empty() =~= Seq::<RunRec>::empty());
    }
}

// ─── CLASSIFY ───────────────────────────────────────────────────────────────

pub open spec fn groups_view(g: Seq<(String, Vec<RunRec>)>) -> Seq<(Seq<char>, Seq<RunRec>)> {
    g.map_values(|e: (String, Vec<RunRec>)| (e.0@, e.1@))
}

pub open spec fn passes_in(runs: Seq<RunRec>) -> nat {
    count_result(window(runs), "pass"@)
}

/// More of the recent runs failed than passed.
pub open spec fn failing(runs: Seq<RunRec>) -> bool {
    window(runs).len() - passes_in(runs) > passes_in(runs)
}

/// Index of the first failing validation.
pub open spec fn first_failing(gs: Seq<(Seq<char>, Seq<RunRec>)>) -> Option<int>
    decreases gs.len(),
{
    if gs.len() == 0 {
        None
    } else if failing(gs[0].1) {
        Some(0)
    } else {
        match first_failing(gs.drop_first()) {
            Some(i) => Some(i + 1),
            None => None,
        }
    }
}

/// The dispatch manifest: what to do next, on which validation, and why.
pub struct Dispatch {
    pub next: String,
    pub target: String,
    pub reason: String,
}

pub struct DispatchModel {
    pub next: Seq<char>,
    pub target: Seq<char>,
    pub reason: Seq<char>,
}

impl View for Dispatch {
    type V = DispatchModel;

    open spec fn view(&self) -> DispatchModel {
        DispatchModel { next: self.next@, target: self.target@, reason: self.reason@ }
    }
}

/// CLASSIFY — the first validation whose recent window has more fails than
/// passes is dispatched to `implement`; with none, `next: none`.
pub open spec fn spec_classify(gs: Seq<(Seq<char>, Seq<RunRec>)>) -> DispatchModel {
    match first_failing(gs) {
        Some(i) => {
            let w = window(gs[i].1);
            DispatchModel {
                next: "implement"@,
                target: gs[i].0,
                reason: decimal((w.len() - passes_in(gs[i].1)) as nat) + " of last "@ + decimal(w.len())
                    + " failed"@,
            }
        },
        None => DispatchModel { next: "none"@, target: "—"@, reason: Seq::empty() },
    }
}

proof fn lemma_count_le(s: Seq<RunRec>, w: Seq<char>)
    ensures
        count_result(s, w) <= s.len(),
    decreases s.len(),
{
    if s.len() > 0 {
        lemma_count_le(s.drop_last(), w);
    }
}

proof fn lemma_count_all(s: Seq<RunRec>, w: Seq<char>)
    requires
        forall|i: int| 0 <= i < s.len() ==> (#[trigger] s[i]).result@ == w,
    ensures
        count_result(s, w) == s.len(),
    decreases s.len(),
{
    if s.len() > 0 {
        assert forall|i: int| 0 <= i < s.drop_last().len() implies (#[trigger] s.drop_last()[i]).result@ == w by {
            assert(s.drop_last()[i] == s[i]);
        }
        lemma_count_all(s.drop_last(), w);
    }
}

proof fn lemma_count_none(s: Seq<RunRec>, w: Seq<char>)
    requires
        forall|i: int| 0 <= i < s.len() ==> (#[trigger] s[i]).result@ != w,
    ensures
        count_result(s, w) == 0,
    decreases s.len(),
{
    if s.len() > 0 {
        assert forall|i: int| 0 <= i < s.drop_last().len() implies (#[trigger] s.drop_last()[i]).result@ != w by {
            assert(s.drop_last()[i] == s[i]);
        }
        lemma_count_none(s.drop_last(), w);
    }
}

/// The recent window of `runs` holds more runs that did not pass than runs
/// that passed.
pub open spec fn mostly_red(runs: Seq<RunRec>) -> bool {
    2 * count_result(window(runs), "pass"@) < window(runs).len()
}

proof fn lemma_first_failing(gs: Seq<(Seq<char>, Seq<RunRec>)>)
    ensures
        match first_failing(gs) {
            Some(i) => 0 <= i < gs.len() && mostly_red(gs[i].1) && forall|j: int| 0 <= j < i ==> !mostly_red(
                #[trigger] gs[j].1,
            ),
            None => forall|j: int| 0 <= j < gs.len() ==> !mostly_red(#[trigger] gs[j].1),
        },
    decreases gs.len(),
{
    if gs.len() > 0 {
        lemma_count_le(window(gs[0].1), "pass"@);
        if !failing(gs[0].1) {
            lemma_first_failing(gs.drop_first());
            match first_failing(gs.drop_first()) {
                Some(i) => {
                    assert(gs.drop_first()[i] == gs[i + 1]);
                    assert forall|j: int| 0 <= j < i + 1 implies !mostly_red(#[trigger] gs[j].1) by {
                        if j > 0 {
                            assert(gs.drop_first()[j - 1] == gs[j]);
                        }
                    }
                },
                None => {
                    assert forall|j: int| 0 <= j < gs.len() implies !mostly_red(#[trigger] gs[j].1) by {
                        if j > 0 {
                            assert(gs.drop_first()[j - 1] == gs[j]);
                        }
                    }
                },
            }
        }
    }
}

/// CLASSIFY sends to `implement` exactly when some validation's recent
/// window (its five newest runs) holds more runs that did not pass than runs
/// that passed; the target is the first such validation, the reason counts
/// its non-passing runs against the window's size; otherwise nothing is
/// dispatched.
pub proof fn law_classify_dispatches_first_red(gs: Seq<(Seq<char>, Seq<RunRec>)>)
    ensures
        (spec_classify(gs).next == "implement"@) == (exists|i: int| 0 <= i < gs.len() && mostly_red(#[trigger] gs[i].1)),
        spec_classify(gs).next == "implement"@ ==> exists|i: int|
            0 <= i < gs.len() && mostly_red(#[trigger] gs[i].1) && spec_classify(gs).target == gs[i].0
                && spec_classify(gs).reason == decimal(
                (window(gs[i].1).len() - count_result(window(gs[i].1), "pass"@)) as nat,
            ) + " of last "@ + decimal(window(gs[i].1).len()) + " failed"@ && forall|j: int|
                0 <= j < i ==> !mostly_red(gs[j].1),
        spec_classify(gs).next != "implement"@ ==> spec_classify(gs) == (DispatchModel {
            next: "none"@,
            target: "—"@,
            reason: Seq::empty(),
        }),
{
    reveal_strlit("implement");
    reveal_strlit("none");
    lemma_first_failing(gs);
    match first_failing(gs) {
        Some(i) => {
            assert(spec_classify(gs).next == "implement"@);
            assert(mostly_red(gs[i].1));
        },
        None => {
            assert("none"@.len() != "implement"@.len());
            assert(spec_classify(gs).next != "implement"@);
            assert(!exists|i: int| 0 <= i < gs.len() && mostly_red(#[trigger] gs[i].1));
        },
    }
}

/// A validation whose newest runs all failed is dispatched when it comes
/// first; when every validation's recent runs all passed, nothing is.
pub proof fn law_classify_all_red_or_all_green(gs: Seq<(Seq<char>, Seq<RunRec>)>)
    ensures
        gs.len() > 0 && gs[0].1.len() > 0 && (forall|k: int|
            0 <= k < window(gs[0].1).len() ==> (#[trigger] window(gs[0].1)[k]).result@ == "fail"@) ==> spec_classify(
            gs,
        ).next == "implement"@ && spec_classify(gs).target == gs[0].0,
        (forall|i: int, k: int|
            0 <= i < gs.len() && 0 <= k < window(gs[i].1).len() ==> (#[trigger] window(gs[i].1)[k]).result@
                == "pass"@) ==> spec_classify(gs).next == "none"@,
{
    reveal_strlit("implement");
    reveal_strlit("none");
    reveal_strlit("fail");
    reveal_strlit("pass");
    lemma_first_failing(gs);
    if gs.len() > 0 && gs[0].1.len() > 0 && (forall|k: int|
        0 <= k < window(gs[0].1).len() ==> (#[trigger] window(gs[0].1)[k]).result@ == "fail"@) {
        assert forall|k: int| 0 <= k < window(gs[0].1).len() implies (#[trigger] window(gs[0].1)[k]).result@ != "pass"@ by {
            assert(window(gs[0].1)[k].result@ == "fail"@);
            assert("fail"@[0] != "pass"@[0]);
        }
        lemma_count_none(window(gs[0].1), "pass"@);
        assert(mostly_red(gs[0].1));
    }
    if forall|i: int, k: int|
        0 <= i < gs.len() && 0 <= k < window(gs[i].1).len() ==> (#[trigger] window(gs[i].1)[k]).result@ == "pass"@ {
        assert forall|i: int| 0 <= i < gs.len() implies !mostly_red(#[trigger] gs[i].1) by {
            assert forall|k: int| 0 <= k < window(gs[i].1).len() implies (#[trigger] window(gs[i].1)[k]).result@
                == "pass"@ by {
            }
            lemma_count_all(window(gs[i].1), "pass"@);
        }
        law_classify_dispatches_first_red(gs);
    }
}

/// CLASSIFY one round.
pub fn classify(per: &Vec<(String, Vec<RunRec>)>) -> (d: Dispatch)
    ensures
        d@ == spec_classify(groups_view(per@)),
{
    proof {
        reveal_strlit("implement");
        reveal_strlit(" of last ");
        reveal_strlit(" failed");
        reveal_strlit("none");
        reveal_strlit("—");
    }
    let ghost gs = groups_view(per@);
    let mut i: usize = 0;
    assert(gs.skip(0) =~= gs);
    while i < per.len()
        invariant
            i <= per@.len(),
            gs == groups_view(per@),
            first_failing(gs) == match first_failing(gs.skip(i as int)) {
                Some(k) => Some(k + i),
                None => None,
            },
        decreases per.len() - i,
    {
        let runs = per[i].1.as_slice();
        let (passed, _stable) = stable_pass(runs);
        let w: usize = if runs.len() < STABLE_PASS_WINDOW { runs.len() } else { STABLE_PASS_WINDOW };
        proof {
            lemma_count_le(window(per@[i as int].1@), "pass"@);
            assert(gs.skip(i as int)[0] == gs[i as int]);
            assert(gs[i as int].1 == per@[i as int].1@);
        }
        assert(w == window(per@[i as int].1@).len());
        let fails = w - passed;
        if fails > passed {
            let mut reason = String::new();
            push_decimal(&mut reason, fails as u64);
            push_str(&mut reason, " of last ");
            push_decimal(&mut reason, w as u64);
            push_str(&mut reason, " failed");
            let d = Dispatch { next: "implement".to_string(), target: per[i].0.clone(), reason };
            assert(d@.reason =~= spec_classify(gs).reason);
            return d;
        }
        assert(gs.skip(i as int).drop_first() =~= gs.skip(i + 1));
        i += 1;
    }
    assert(gs.skip(i as int) =~= Seq::<(Seq<char>, Seq<RunRec>)>::empty());
    Dispatch { next: "none".to_string(), target: "—".to_string(), reason: String::new() }
}

// ─── PROMOTE ────────────────────────────────────────────────────────────────

/// The first node filed under `id`.
pub open spec fn first_node(b: BoardView, id: Seq<char>) -> Option<Seq<Field>>
    decreases b.len(),
{
    if b.len() == 0 {
        None
    } else if b[0].0 == id {
        Some(b[0].1)
    } else {
        first_node(b.drop_first(), id)
    }
}

/// A validation whose window is a stable pass and whose node is not ok yet.
pub open spec fn promotable_group(b: BoardView, g: (Seq<char>, Seq<RunRec>)) -> bool {
    &&& passes_in(g.1) >= STABLE_PASS_REQUIRED
    &&& first_node(b, g.0) is Some
    &&& spec_get(first_node(b, g.0).unwrap(), "status"@) != Some("ok"@)
}

pub open spec fn spec_promotable(b: BoardView, gs: Seq<(Seq<char>, Seq<RunRec>)>) -> Seq<Seq<char>>
    decreases gs.len(),
{
    if gs.len() == 0 {
        Seq::empty()
    } else {
        let rest = spec_promotable(b, gs.drop_last());
        if promotable_group(b, gs.last()) {
            rest.push(gs.last().0)
        } else {
            rest
        }
    }
}

fn first_node_status_ok(board: &Vec<(String, Node)>, id: &str) -> (r: Option<bool>)
    ensures
        match r {
            Some(ok) => first_node(board_view(board@), id@) is Some && ok == (spec_get(
                first_node(board_view(board@), id@).unwrap(),
                "status"@,
            ) == Some("ok"@)),
            None => first_node(board_view(board@), id@) is None,
        },
{
    proof {
        reveal_strlit("status");
        reveal_strlit("ok");
    }
    let ghost bv = board_view(board@);
    let mut k: usize = 0;
    assert(bv.skip(0) =~= bv);
    while k < board.len()
        invariant
            k <= board@.len(),
            bv == board_view(board@),
            first_node(bv, id@) == first_node(bv.skip(k as int), id@),
        decreases board.len() - k,
    {
        assert(bv.skip(k as int)[0] == (board@[k as int].0@, board@[k as int].1@));
        if str_eq(board[k].0.as_str(), id) {
            let ok = match board[k].1.get("status") {
                Some(st) => str_eq(st, "ok"),
                None => false,
            };
            return Some(ok);
        }
        assert(bv.skip(k as int).drop_first() =~= bv.skip(k + 1));
        k += 1;
    }
    assert(bv.skip(k as int) =~= Seq::<(Seq<char>, Seq<Field>)>::empty());
    None
}

/// The validations that get `status: ok` this round: every eligible one
/// when this round's verify came back green, none otherwise, so that ok is
/// never written without a matching green run.
pub fn promote_now(verify_ok: bool, eligible: &Vec<String>) -> (r: Vec<String>)
    ensures
        strs(r@) == if verify_ok {
            strs(eligible@)
        } else {
            Seq::<Seq<char>>::empty()
        },
{
    let mut out: Vec<String> = Vec::new();
    if verify_ok {
        let mut i: usize = 0;
        while i < eligible.len()
            invariant
                i <= eligible.len(),
                strs(out@) == strs(eligible@.take(i as int)),
            decreases eligible.len() - i,
        {
            let ghost before = out@;
            out.push(eligible[i].clone());
            assert(strs(out@) =~= strs(before).push(eligible@[i as int]@));
            assert(eligible@.take(i + 1) =~= eligible@.take(i as int).push(eligible@[i as int]));
            assert(strs(eligible@.take(i + 1)) =~= strs(eligible@.take(i as int)).push(eligible@[i as int]@));
            i = i + 1;
        }
        assert(eligible@.take(eligible.len() as int) =~= eligible@);
    } else {
        assert(strs(out@) =~= Seq::<Seq<char>>::empty());
    }
    out
}

/// PROMOTE — the validations with a stable pass whose node is not ok yet, in
/// the order of `per`.
pub fn promotable(per: &Vec<(String, Vec<RunRec>)>, board: &Vec<(String, Node)>) -> (r: Vec<String>)
    ensures
        strs(r@) == spec_promotable(board_view(board@), groups_view(per@)),
{
    let ghost gs = groups_view(per@);
    let mut out: Vec<String> = Vec::new();
    let mut i: usize = 0;
    while i < per.len()
        invariant
            i <= per@.len(),
            gs == groups_view(per@),
            strs(out@) == spec_promotable(board_view(board@), gs.take(i as int)),
        decreases per.len() - i,
    {
        let (_passed, stable) = stable_pass(per[i].1.as_slice());
        assert(gs.take(i + 1).drop_last() =~= gs.take(i as int));
        assert(gs.take(i + 1).last() == (per@[i as int].0@, per@[i as int].1@));
        if stable {
            match first_node_status_ok(board, per[i].0.as_str()) {
                Some(ok) => {
                    if !ok {
                        let ghost before = out@;
                        out.push(per[i].0.clone());
                        assert(strs(out@) =~= strs(before).push(per@[i as int].0@));
                    }
                },
                None => {},
            }
        }
        i += 1;
    }
    assert(gs.take(i as int) =~= gs);
    out
}

// ─── DISPATCH ───────────────────────────────────────────────────────────────

/// The fields of the dispatch manifest: `next`, `target`, and `reason` when
/// there is one.
pub open spec fn dispatch_fields(d: DispatchModel) -> Seq<Field> {
    let f = spec_push(spec_push(Seq::empty(), "next"@, d.next), "target"@, d.target);
    if d.reason.len() > 0 {
        spec_push(f, "reason"@, d.reason)
    } else {
        f
    }
}

/// The dispatch manifest as a node (the orchestrator reads its text).
pub fn dispatch_node(d: &Dispatch) -> (n: Node)
    ensures
        n@ == dispatch_fields(d@),
{
    proof {
        reveal_strlit("next");
        reveal_strlit("target");
        reveal_strlit("reason");
    }
    let mut n = Node { fields: Vec::new() };
    assert(n@ =~= Seq::<Field>::empty());
    n.push_field("next", d.next.as_str());
    n.push_field("target", d.target.as_str());
    if !d.reason.as_str().is_empty() {
        n.push_field("reason", d.reason.as_str());
    }
    n
}

// ─── the round loop ─────────────────────────────────────────────────────────

/// After a round: a single run stops; `--forever` stops after two idle rounds
/// in a row (nothing to dispatch) and otherwise goes on with the idle count.
pub open spec fn spec_next_round(forever: bool, idle: nat, next_none: bool) -> Option<nat> {
    if !forever {
        None
    } else if next_none {
        if idle + 1 >= 2 {
            None
        } else {
            Some(idle + 1)
        }
    } else {
        Some(0)
    }
}

/// Whether the loop goes on after a round, and with which idle count.
pub fn next_round(forever: bool, idle: usize, next_none: bool) -> (r: Option<usize>)
    ensures
        match r {
            Some(k) => spec_next_round(forever, idle as nat, next_none) == Some(k as nat),
            None => spec_next_round(forever, idle as nat, next_none) is None,
        },
{
    if !forever {
        None
    } else if next_none {
        if idle >= 1 {
            None
        } else {
            Some(idle + 1)
        }
    } else {
        Some(0)
    }
}

/// A round with no history, nothing to promote and nothing to dispatch is
/// cold: no verify runs.
pub fn cold_round(per: &Vec<(String, Vec<RunRec>)>, promote: &Vec<String>, d: &Dispatch) -> (r: bool)
    ensures
        r == (per@.len() == 0 && promote@.len() == 0 && d@.next == "none"@),
{
    proof {
        reveal_strlit("none");
    }
    per.len() == 0 && promote.len() == 0 && str_eq(d.next.as_str(), "none")
}

} // verus!
