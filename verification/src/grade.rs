//! Grading a verify pass: which lane runs are owed, how each measured outcome
//! turns into a status write or a hole, and how many declared-pristine paths
//! the suite disturbed. Running the commands and writing the nodes is the
//! caller's work; every decision between those steps is made here.
use vstd::prelude::*;

use crate::text::str_eq;
use crate::verify::{lane_key, spec_lane_key, targets_view, TargetModel, ValTarget};

verus! {

// ─── lanes ──────────────────────────────────────────────────────────────────

/// The lane command that marks a subset as never auto-run.
pub open spec fn is_skip(cmd: Seq<char>) -> bool {
    cmd == "skip"@
}

pub open spec fn cmds_view(v: Seq<String>) -> Seq<Seq<char>> {
    v.map_values(|s: String| s@)
}

/// The lane key of target `i`, run under command `cmds[i]`.
pub open spec fn key_at(ts: Seq<TargetModel>, cmds: Seq<Seq<char>>, i: int) -> Seq<char> {
    spec_lane_key(cmds[i], ts[i].path, ts[i].anchor)
}

/// Whether target `j` is run under key `k`: it is in an auto-run lane and its
/// lane key is `k`.
pub open spec fn runs_under(ts: Seq<TargetModel>, cmds: Seq<Seq<char>>, k: Seq<char>, j: int) -> bool {
    !is_skip(cmds[j]) && key_at(ts, cmds, j) == k
}

/// The first target from `j` on that is run under key `k` (the length when
/// there is none).
pub open spec fn first_run(ts: Seq<TargetModel>, cmds: Seq<Seq<char>>, k: Seq<char>, j: int) -> int
    decreases ts.len() - j,
{
    if j < 0 || j >= ts.len() {
        ts.len() as int
    } else if runs_under(ts, cmds, k, j) {
        j
    } else {
        first_run(ts, cmds, k, j + 1)
    }
}

/// The target whose run decides target `i`: the first one that shares its
/// lane key. A lane key is run once per pass.
pub open spec fn owner(ts: Seq<TargetModel>, cmds: Seq<Seq<char>>, i: int) -> int {
    first_run(ts, cmds, key_at(ts, cmds, i), 0)
}

/// The outcome that grades target `i`: that of the run of its lane key.
pub open spec fn outcome_of(
    ts: Seq<TargetModel>,
    cmds: Seq<Seq<char>>,
    outs: Seq<Option<bool>>,
    i: int,
) -> Option<bool> {
    outs[owner(ts, cmds, i)]
}

// ─── the tally ──────────────────────────────────────────────────────────────

/// The tally of one verify pass: validations measured green (`ok`) and red
/// (`ko`), holes (a validation whose test file is missing), validations in
/// skip lanes, and the status writes owed, as (target index, pass) in target
/// order.
pub struct VerifyTally {
    pub ok: usize,
    pub ko: usize,
    pub holes: usize,
    pub skipped: usize,
    pub writes: Vec<(usize, bool)>,
}

pub struct TallyModel {
    pub ok: nat,
    pub ko: nat,
    pub holes: nat,
    pub skipped: nat,
    pub writes: Seq<(int, bool)>,
}

pub open spec fn writes_view(v: Seq<(usize, bool)>) -> Seq<(int, bool)> {
    v.map_values(|w: (usize, bool)| (w.0 as int, w.1))
}

impl View for VerifyTally {
    type V = TallyModel;

    open spec fn view(&self) -> TallyModel {
        TallyModel {
            ok: self.ok as nat,
            ko: self.ko as nat,
            holes: self.holes as nat,
            skipped: self.skipped as nat,
            writes: writes_view(self.writes@),
        }
    }
}

/// The tally over the first `n` targets. A skip lane is never graded, only
/// counted; a measured outcome is a status write, ok or ko; a missing test
/// (no outcome) is a hole and writes nothing.
pub open spec fn spec_grade(
    ts: Seq<TargetModel>,
    cmds: Seq<Seq<char>>,
    outs: Seq<Option<bool>>,
    n: int,
) -> TallyModel
    decreases n,
{
    if n <= 0 {
        TallyModel { ok: 0, ko: 0, holes: 0, skipped: 0, writes: Seq::empty() }
    } else {
        let t = spec_grade(ts, cmds, outs, n - 1);
        let i = n - 1;
        if is_skip(cmds[i]) {
            TallyModel { ok: t.ok, ko: t.ko, holes: t.holes, skipped: t.skipped + 1, writes: t.writes }
        } else {
            match outcome_of(ts, cmds, outs, i) {
                Some(true) => TallyModel {
                    ok: t.ok + 1,
                    ko: t.ko,
                    holes: t.holes,
                    skipped: t.skipped,
                    writes: t.writes.push((i, true)),
                },
                Some(false) => TallyModel {
                    ok: t.ok,
                    ko: t.ko + 1,
                    holes: t.holes,
                    skipped: t.skipped,
                    writes: t.writes.push((i, false)),
                },
                None => TallyModel {
                    ok: t.ok,
                    ko: t.ko,
                    holes: t.holes + 1,
                    skipped: t.skipped,
                    writes: t.writes,
                },
            }
        }
    }
}

/// The tally of a whole pass: each leaked pristine path counts as one more
/// red.
pub open spec fn spec_tally(
    ts: Seq<TargetModel>,
    cmds: Seq<Seq<char>>,
    outs: Seq<Option<bool>>,
    leaks: nat,
) -> TallyModel {
    let t = spec_grade(ts, cmds, outs, ts.len() as int);
    TallyModel { ok: t.ok, ko: t.ko + leaks, holes: t.holes, skipped: t.skipped, writes: t.writes }
}

proof fn lemma_grade_counts(ts: Seq<TargetModel>, cmds: Seq<Seq<char>>, outs: Seq<Option<bool>>, n: int)
    requires
        0 <= n,
    ensures
        spec_grade(ts, cmds, outs, n).ok + spec_grade(ts, cmds, outs, n).ko
            + spec_grade(ts, cmds, outs, n).holes + spec_grade(ts, cmds, outs, n).skipped == n,
    decreases n,
{
    if n > 0 {
        lemma_grade_counts(ts, cmds, outs, n - 1);
    }
}

proof fn lemma_first_run_self(ts: Seq<TargetModel>, cmds: Seq<Seq<char>>, k: Seq<char>, j: int, i: int)
    requires
        0 <= j <= i < ts.len(),
        runs_under(ts, cmds, k, i),
    ensures
        j <= first_run(ts, cmds, k, j) <= i,
        runs_under(ts, cmds, k, first_run(ts, cmds, k, j)),
    decreases i - j,
{
    if !runs_under(ts, cmds, k, j) {
        lemma_first_run_self(ts, cmds, k, j + 1, i);
    }
}

/// The index of the target whose run decides target `i`.
fn owner_index(keys: &Vec<String>, skip: &Vec<bool>, i: usize, Ghost(ts): Ghost<Seq<TargetModel>>, Ghost(cmds): Ghost<Seq<Seq<char>>>) -> (r: usize)
    requires
        keys.len() == skip.len() == ts.len() == cmds.len(),
        i < ts.len(),
        !is_skip(cmds[i as int]),
        forall|j: int| 0 <= j < ts.len() ==> keys[j]@ == key_at(ts, cmds, j) && skip[j] == is_skip(cmds[j]),
    ensures
        r as int == owner(ts, cmds, i as int),
        r <= i,
{
    let k = &keys[i];
    let mut j: usize = 0;
    while j < i
        invariant
            keys.len() == skip.len() == ts.len() == cmds.len(),
            i < ts.len(),
            j <= i,
            k@ == key_at(ts, cmds, i as int),
            forall|j: int| 0 <= j < ts.len() ==> keys[j]@ == key_at(ts, cmds, j) && skip[j] == is_skip(cmds[j]),
            first_run(ts, cmds, k@, 0) == first_run(ts, cmds, k@, j as int),
        decreases i - j,
    {
        if !skip[j] && str_eq(keys[j].as_str(), k.as_str()) {
            return j;
        }
        j = j + 1;
    }
    j
}

/// The lane key and the skip mark of each target.
fn keys_of(targets: &Vec<ValTarget>, cmds: &Vec<String>) -> (r: (Vec<String>, Vec<bool>))
    requires
        targets.len() == cmds.len(),
    ensures
        r.0.len() == r.1.len() == targets.len(),
        forall|j: int|
            0 <= j < targets.len() ==> #[trigger] r.0[j]@ == key_at(targets_view(targets@), cmds_view(cmds@), j),
        forall|j: int| 0 <= j < targets.len() ==> #[trigger] r.1[j] == is_skip(cmds_view(cmds@)[j]),
{
    let ghost ts = targets_view(targets@);
    let ghost cs = cmds_view(cmds@);
    let mut keys: Vec<String> = Vec::new();
    let mut skip: Vec<bool> = Vec::new();
    let mut j: usize = 0;
    while j < targets.len()
        invariant
            targets.len() == cmds.len(),
            ts == targets_view(targets@),
            cs == cmds_view(cmds@),
            j <= targets.len(),
            keys.len() == skip.len() == j,
            forall|i: int| 0 <= i < j ==> keys[i]@ == key_at(ts, cs, i) && skip[i] == is_skip(cs[i]),
        decreases targets.len() - j,
    {
        let t = &targets[j];
        keys.push(lane_key(cmds[j].as_str(), t.path.as_str(), t.anchor.as_str()));
        skip.push(str_eq(cmds[j].as_str(), "skip"));
        j = j + 1;
    }
    (keys, skip)
}

/// Which targets need their lane run: those in an auto-run lane that are the
/// first under their lane key. The others share that run's outcome.
pub fn runs_needed(targets: &Vec<ValTarget>, cmds: &Vec<String>) -> (r: Vec<bool>)
    requires
        targets.len() == cmds.len(),
    ensures
        r.len() == targets.len(),
        forall|i: int|
            0 <= i < r.len() ==> r[i] == (!is_skip(cmds_view(cmds@)[i]) && owner(
                targets_view(targets@),
                cmds_view(cmds@),
                i,
            ) == i),
{
    let ghost ts = targets_view(targets@);
    let ghost cs = cmds_view(cmds@);
    let (keys, skip) = keys_of(targets, cmds);
    assert(ts.len() == targets.len() && cs.len() == cmds.len());
    let mut r: Vec<bool> = Vec::new();
    let mut i: usize = 0;
    while i < targets.len()
        invariant
            targets.len() == cmds.len() == keys.len() == skip.len(),
            ts == targets_view(targets@),
            cs == cmds_view(cmds@),
            ts.len() == targets.len(),
            cs.len() == cmds.len(),
            i <= targets.len(),
            r.len() == i,
            forall|j: int| 0 <= j < ts.len() ==> keys[j]@ == key_at(ts, cs, j) && skip[j] == is_skip(cs[j]),
            forall|j: int| 0 <= j < i ==> r[j] == (!is_skip(cs[j]) && owner(ts, cs, j) == j),
        decreases targets.len() - i,
    {
        if skip[i] {
            r.push(false);
        } else {
            let o = owner_index(&keys, &skip, i, Ghost(ts), Ghost(cs));
            r.push(o == i);
        }
        i = i + 1;
    }
    r
}

/// Grades a verify pass. `cmds[i]` is the lane command of `targets[i]`, and
/// `outcomes[i]` the outcome of its lane run (`None`: its test file is
/// missing), read only for the first target under each lane key; `leaks`
/// counts the pristine paths that the suite changed or removed.
pub fn grade_targets(
    targets: &Vec<ValTarget>,
    cmds: &Vec<String>,
    outcomes: &Vec<Option<bool>>,
    leaks: usize,
) -> (r: VerifyTally)
    requires
        targets.len() == cmds.len(),
        targets.len() == outcomes.len(),
        targets.len() + leaks <= usize::MAX,
    ensures
        r@ == spec_tally(targets_view(targets@), cmds_view(cmds@), outcomes@, leaks as nat),
{
    let ghost ts = targets_view(targets@);
    let ghost cs = cmds_view(cmds@);
    let (keys, skip) = keys_of(targets, cmds);
    let mut t = VerifyTally { ok: 0, ko: 0, holes: 0, skipped: 0, writes: Vec::new() };
    assert(ts.len() == targets.len() && cs.len() == cmds.len());
    assert(t@.writes =~= spec_grade(ts, cs, outcomes@, 0).writes);
    let mut i: usize = 0;
    while i < targets.len()
        invariant
            targets.len() == cmds.len() == keys.len() == skip.len() == outcomes.len(),
            targets.len() + leaks <= usize::MAX,
            ts == targets_view(targets@),
            cs == cmds_view(cmds@),
            ts.len() == targets.len(),
            cs.len() == cmds.len(),
            i <= targets.len(),
            forall|j: int| 0 <= j < ts.len() ==> keys[j]@ == key_at(ts, cs, j) && skip[j] == is_skip(cs[j]),
            t@ == spec_grade(ts, cs, outcomes@, i as int),
        decreases targets.len() - i,
    {
        proof {
            lemma_grade_counts(ts, cs, outcomes@, i as int);
        }
        if skip[i] {
            t.skipped = t.skipped + 1;
        } else {
            let o = owner_index(&keys, &skip, i, Ghost(ts), Ghost(cs));
            match outcomes[o] {
                Some(true) => {
                    t.ok = t.ok + 1;
                    t.writes.push((i, true));
                },
                Some(false) => {
                    t.ko = t.ko + 1;
                    t.writes.push((i, false));
                },
                None => {
                    t.holes = t.holes + 1;
                },
            }
        }
        proof {
            assert(t.writes@.map_values(|w: (usize, bool)| (w.0 as int, w.1))
                =~= spec_grade(ts, cs, outcomes@, i + 1).writes);
        }
        i = i + 1;
    }
    proof {
        lemma_grade_counts(ts, cs, outcomes@, i as int);
    }
    t.ko = t.ko + leaks;
    t
}

/// Every status write of a pass carries exactly the measured outcome of its
/// target's lane: it names a target in an auto-run lane whose outcome is that
/// verdict. So a validation whose test is missing is a hole, never blessed.
pub proof fn law_writes_are_measured(
    ts: Seq<TargetModel>,
    cmds: Seq<Seq<char>>,
    outs: Seq<Option<bool>>,
    leaks: nat,
)
    requires
        ts.len() == cmds.len() == outs.len(),
    ensures
        forall|k: int|
            #![trigger spec_tally(ts, cmds, outs, leaks).writes[k]]
            0 <= k < spec_tally(ts, cmds, outs, leaks).writes.len() ==> {
                let w = spec_tally(ts, cmds, outs, leaks).writes[k];
                &&& 0 <= w.0 < ts.len()
                &&& !is_skip(cmds[w.0])
                &&& outcome_of(ts, cmds, outs, w.0) == Some(w.1)
            },
{
    lemma_writes_measured(ts, cmds, outs, ts.len() as int);
}

proof fn lemma_writes_measured(ts: Seq<TargetModel>, cmds: Seq<Seq<char>>, outs: Seq<Option<bool>>, n: int)
    requires
        0 <= n <= ts.len(),
        ts.len() == cmds.len(),
    ensures
        forall|k: int|
            #![trigger spec_grade(ts, cmds, outs, n).writes[k]]
            0 <= k < spec_grade(ts, cmds, outs, n).writes.len() ==> {
                let w = spec_grade(ts, cmds, outs, n).writes[k];
                &&& 0 <= w.0 < n
                &&& !is_skip(cmds[w.0])
                &&& outcome_of(ts, cmds, outs, w.0) == Some(w.1)
            },
    decreases n,
{
    if n > 0 {
        lemma_writes_measured(ts, cmds, outs, n - 1);
        let t = spec_grade(ts, cmds, outs, n - 1);
        let u = spec_grade(ts, cmds, outs, n);
        assert forall|k: int| #![trigger u.writes[k]] 0 <= k < u.writes.len() implies {
            let w = u.writes[k];
            &&& 0 <= w.0 < n
            &&& !is_skip(cmds[w.0])
            &&& outcome_of(ts, cmds, outs, w.0) == Some(w.1)
        } by {
            if k < t.writes.len() {
                assert(u.writes[k] == t.writes[k]);
            }
        }
    }
}

/// A validation in an auto-run lane whose lane has no outcome (its test file
/// is missing) is counted as a hole and gets no status write.
pub proof fn law_missing_test_is_hole(
    ts: Seq<TargetModel>,
    cmds: Seq<Seq<char>>,
    outs: Seq<Option<bool>>,
    leaks: nat,
    i: int,
)
    requires
        ts.len() == cmds.len() == outs.len(),
        0 <= i < ts.len(),
        !is_skip(cmds[i]),
        outcome_of(ts, cmds, outs, i) is None,
    ensures
        forall|k: int|
            0 <= k < spec_tally(ts, cmds, outs, leaks).writes.len() ==> spec_tally(ts, cmds, outs, leaks).writes[k].0 != i,
        spec_grade(ts, cmds, outs, i + 1).holes == spec_grade(ts, cmds, outs, i).holes + 1,
{
    law_writes_are_measured(ts, cmds, outs, leaks);
    assert forall|k: int|
        0 <= k < spec_tally(ts, cmds, outs, leaks).writes.len() implies spec_tally(ts, cmds, outs, leaks).writes[k].0 != i by {
        let w = spec_tally(ts, cmds, outs, leaks).writes[k];
        assert(outcome_of(ts, cmds, outs, w.0) == Some(w.1));
    }
}

// ─── leaks ──────────────────────────────────────────────────────────────────

pub open spec fn snap_view(v: Seq<(String, u64)>) -> Seq<(Seq<char>, u64)> {
    v.map_values(|p: (String, u64)| (p.0@, p.1))
}

/// The stamp that a snapshot records last for path `p`.
pub open spec fn last_stamp(b: Seq<(Seq<char>, u64)>, p: Seq<char>) -> Option<u64>
    decreases b.len(),
{
    if b.len() == 0 {
        None
    } else if b.last().0 == p {
        Some(b.last().1)
    } else {
        last_stamp(b.drop_last(), p)
    }
}

pub open spec fn has_path(v: Seq<(Seq<char>, u64)>, p: Seq<char>) -> bool {
    exists|i: int| 0 <= i < v.len() && v[i].0 == p
}

/// The entries of `a` whose path `b` lacks or records with another stamp.
pub open spec fn count_changed(b: Seq<(Seq<char>, u64)>, a: Seq<(Seq<char>, u64)>) -> nat
    decreases a.len(),
{
    if a.len() == 0 {
        0
    } else {
        count_changed(b, a.drop_last()) + if last_stamp(b, a.last().0) != Some(a.last().1) {
            1nat
        } else {
            0nat
        }
    }
}

/// The entries of `b` whose path `a` lacks.
pub open spec fn count_removed(b: Seq<(Seq<char>, u64)>, a: Seq<(Seq<char>, u64)>) -> nat
    decreases b.len(),
{
    if b.len() == 0 {
        0
    } else {
        count_removed(b.drop_last(), a) + if !has_path(a, b.last().0) {
            1nat
        } else {
            0nat
        }
    }
}

/// The leaks between two snapshots of the pristine paths: none when they are
/// equal, else the paths changed or added plus the paths removed.
pub open spec fn spec_leaks(b: Seq<(Seq<char>, u64)>, a: Seq<(Seq<char>, u64)>) -> nat {
    if b == a {
        0
    } else {
        count_changed(b, a) + count_removed(b, a)
    }
}

fn stamp_of(b: &Vec<(String, u64)>, p: &str) -> (r: Option<u64>)
    ensures
        r == last_stamp(snap_view(b@), p@),
{
    let ghost bv = snap_view(b@);
    let mut found: Option<u64> = None;
    let mut j: usize = 0;
    while j < b.len()
        invariant
            bv == snap_view(b@),
            j <= b.len(),
            found == last_stamp(bv.take(j as int), p@),
        decreases b.len() - j,
    {
        proof {
            assert(bv.take(j + 1).drop_last() =~= bv.take(j as int));
        }
        if str_eq(b[j].0.as_str(), p) {
            found = Some(b[j].1);
        }
        j = j + 1;
    }
    assert(bv.take(b.len() as int) =~= bv);
    found
}

fn path_in(a: &Vec<(String, u64)>, p: &str) -> (r: bool)
    ensures
        r == has_path(snap_view(a@), p@),
{
    let ghost av = snap_view(a@);
    let mut j: usize = 0;
    while j < a.len()
        invariant
            av == snap_view(a@),
            j <= a.len(),
            forall|i: int| 0 <= i < j ==> av[i].0 != p@,
        decreases a.len() - j,
    {
        if str_eq(a[j].0.as_str(), p) {
            assert(av[j as int].0 == p@);
            return true;
        }
        j = j + 1;
    }
    false
}

fn snaps_equal(b: &Vec<(String, u64)>, a: &Vec<(String, u64)>) -> (r: bool)
    ensures
        r == (snap_view(b@) == snap_view(a@)),
{
    let ghost bv = snap_view(b@);
    let ghost av = snap_view(a@);
    if b.len() != a.len() {
        assert(bv.len() != av.len());
        return false;
    }
    let mut j: usize = 0;
    while j < b.len()
        invariant
            bv == snap_view(b@),
            av == snap_view(a@),
            b.len() == a.len(),
            j <= b.len(),
            forall|i: int| 0 <= i < j ==> bv[i] == av[i],
        decreases b.len() - j,
    {
        if b[j].1 != a[j].1 || !str_eq(b[j].0.as_str(), a[j].0.as_str()) {
            assert(bv[j as int] != av[j as int]);
            return false;
        }
        j = j + 1;
    }
    assert(bv =~= av);
    true
}

/// How many declared-pristine paths the suite disturbed, from the snapshots
/// taken before and after it: each path whose stamp changed or that appeared,
/// plus each path that disappeared.
pub fn leak_count(before: &Vec<(String, u64)>, after: &Vec<(String, u64)>) -> (r: usize)
    requires
        before.len() + after.len() <= usize::MAX,
    ensures
        r as nat == spec_leaks(snap_view(before@), snap_view(after@)),
{
    let ghost bv = snap_view(before@);
    let ghost av = snap_view(after@);
    if snaps_equal(before, after) {
        return 0;
    }
    let mut changed: usize = 0;
    let mut j: usize = 0;
    while j < after.len()
        invariant
            bv == snap_view(before@),
            av == snap_view(after@),
            j <= after.len(),
            changed as nat == count_changed(bv, av.take(j as int)),
            changed <= j,
        decreases after.len() - j,
    {
        proof {
            assert(av.take(j + 1).drop_last() =~= av.take(j as int));
        }
        let same = match stamp_of(before, after[j].0.as_str()) {
            Some(h) => h == after[j].1,
            None => false,
        };
        if !same {
            changed = changed + 1;
        }
        j = j + 1;
    }
    assert(av.take(after.len() as int) =~= av);
    let mut removed: usize = 0;
    let mut k: usize = 0;
    while k < before.len()
        invariant
            bv == snap_view(before@),
            av == snap_view(after@),
            k <= before.len(),
            changed as nat == count_changed(bv, av),
            changed <= after.len(),
            removed as nat == count_removed(bv.take(k as int), av),
            removed <= k,
        decreases before.len() - k,
    {
        proof {
            assert(bv.take(k + 1).drop_last() =~= bv.take(k as int));
        }
        if !path_in(after, before[k].0.as_str()) {
            removed = removed + 1;
        }
        k = k + 1;
    }
    assert(bv.take(before.len() as int) =~= bv);
    changed + removed
}

} // verus!
