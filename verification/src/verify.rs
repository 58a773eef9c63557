//! The measurement layer's decisions: which validations are test-backed and
//! where their tests live, how a lane command is keyed and spelled, what a
//! measured verdict writes on a node, and how controls roll up from the
//! validations that prove them. Running the tests is the caller's work.
use vstd::prelude::*;

use crate::graph::{board_view, serves, serves_of, strs, contains_string, BoardView};
use crate::node::{
    lemma_get_first_all, law_set_then_get, law_unset_clears_only_its_key, spec_all, spec_get, spec_set,
    spec_unset, Field, Node,
};
use crate::conf::VerifyConf;
use crate::query::{at_path, control_role, spec_at_path, test_backed, is_test_backed_path, opt_view};
use crate::runs::{field_or_empty, get_or_empty};
use crate::text::{chars_of, contains_str, has_infix, push_char, push_str, str_eq, string_of, to_owned};

verus! {

// ─── what a verdict writes ──────────────────────────────────────────────────

/// The fields of a validation after a measured run — `status` ok/ko, the
/// measured commit as `sha`, `proven: observed-red` stamped on the first red
/// (and never taken back), and `comment` holding the failing line on red,
/// cleared on green or when there is no line.
pub open spec fn spec_record(
    fs: Seq<Field>,
    pass: bool,
    head: Option<Seq<char>>,
    failure: Option<Seq<char>>,
) -> Seq<Field> {
    let f1 = spec_set(fs, "status"@, if pass { "ok"@ } else { "ko"@ });
    let f2 = match head {
        Some(h) => spec_set(f1, "sha"@, h),
        None => f1,
    };
    let f3 = if !pass && spec_get(f2, "proven"@) is None {
        spec_set(f2, "proven"@, "observed-red"@)
    } else {
        f2
    };
    match failure {
        Some(line) => if !pass && line.len() > 0 {
            spec_set(f3, "comment"@, line)
        } else {
            spec_unset(f3, "comment"@)
        },
        None => spec_unset(f3, "comment"@),
    }
}

pub open spec fn opt_str_view(o: Option<&str>) -> Option<Seq<char>> {
    match o {
        Some(s) => Some(s@),
        None => None,
    }
}

/// As `record_status`, plus the failing line to put on the board: written on
/// red, cleared on green.
pub fn record_status_with(n: &mut Node, pass: bool, head: &Option<String>, failure: Option<&str>)
    ensures
        final(n)@ == spec_record(old(n)@, pass, opt_view(*head), opt_str_view(failure)),
{
    proof {
        reveal_strlit("status");
        reveal_strlit("ok");
        reveal_strlit("ko");
        reveal_strlit("sha");
        reveal_strlit("proven");
        reveal_strlit("observed-red");
        reveal_strlit("comment");
    }
    n.set_field("status", if pass { "ok" } else { "ko" });
    if let Some(h) = head {
        n.set_field("sha", h.as_str());
    }
    if !pass && n.get("proven").is_none() {
        n.set_field("proven", "observed-red");
    }
    match failure {
        Some(line) => {
            if !pass && !line.is_empty() {
                n.set_field("comment", line);
            } else {
                n.unset_field("comment");
            }
        },
        None => {
            n.unset_field("comment");
        },
    }
}

/// Write a validation's measured status to its node (no failing line).
pub fn record_status(n: &mut Node, pass: bool, head: &Option<String>)
    ensures
        final(n)@ == spec_record(old(n)@, pass, opt_view(*head), None),
{
    record_status_with(n, pass, head, None)
}

/// The test artifact a validation's status is measured against: the file
/// part of its first `at:` value.
pub fn test_artifact(n: &Node) -> (r: Option<String>)
    ensures
        opt_view(r) == match spec_get(n@, "at"@) {
            Some(a) => Some(spec_at_path(a)),
            None => None,
        },
{
    match n.get("at") {
        Some(a) => Some(at_path(a)),
        None => None,
    }
}

/// Records the digest of the test artifact as `test_sha`, so the status
/// names the exact test it was measured with; nothing changes without an
/// `at:` or without a digest (the artifact could not be read).
pub fn record_test_sha(n: &mut Node, digest: Option<&str>)
    ensures
        final(n)@ == match digest {
            Some(d) => if spec_get(old(n)@, "at"@) is Some {
                spec_set(old(n)@, "test_sha"@, d@)
            } else {
                old(n)@
            },
            None => old(n)@,
        },
{
    match digest {
        Some(d) => {
            if n.get("at").is_some() {
                n.set_field("test_sha", d);
            }
        },
        None => {},
    }
}

/// Setting one key leaves what another key reads untouched.
proof fn lemma_set_keeps_get(fs: Seq<Field>, k: Seq<char>, v: Seq<char>, k2: Seq<char>)
    requires
        k2 != k,
    ensures
        spec_get(spec_set(fs, k, v), k2) == spec_get(fs, k2),
{
    law_set_then_get(fs, k, v, k2);
    lemma_get_first_all(fs, k2);
    lemma_get_first_all(spec_set(fs, k, v), k2);
}

/// Clearing one key leaves what another key reads untouched.
proof fn lemma_unset_keeps_get(fs: Seq<Field>, k: Seq<char>, k2: Seq<char>)
    requires
        k2 != k,
    ensures
        spec_get(spec_unset(fs, k), k2) == spec_get(fs, k2),
{
    law_unset_clears_only_its_key(fs, k, k2);
    lemma_get_first_all(fs, k2);
    lemma_get_first_all(spec_unset(fs, k), k2);
}

/// A recorded verdict reads back: the status is ok on a pass and ko on a
/// fail; the measured commit is the `sha`; a red stamps `proven`, and a
/// `proven` stamp is never taken back; a green clears the failing line, a red
/// with a line writes it.
pub proof fn law_record_verdict(
    fs: Seq<Field>,
    pass: bool,
    head: Option<Seq<char>>,
    failure: Option<Seq<char>>,
)
    ensures
        spec_get(spec_record(fs, pass, head, failure), "status"@) == Some(
            if pass { "ok"@ } else { "ko"@ },
        ),
        head is Some ==> spec_get(spec_record(fs, pass, head, failure), "sha"@) == head,
        !pass ==> spec_get(spec_record(fs, pass, head, failure), "proven"@) is Some,
        spec_get(fs, "proven"@) is Some ==> spec_get(spec_record(fs, pass, head, failure), "proven"@)
            == spec_get(fs, "proven"@),
        pass ==> spec_get(spec_record(fs, pass, head, failure), "comment"@) is None,
        !pass && failure is Some && failure.unwrap().len() > 0 ==> spec_get(
            spec_record(fs, pass, head, failure),
            "comment"@,
        ) == failure,
{
    reveal_strlit("status");
    reveal_strlit("sha");
    reveal_strlit("proven");
    reveal_strlit("comment");
    assert("status"@ != "proven"@) by {
        assert("status"@[0] != "proven"@[0]);
    }
    assert("sha"@.len() != "status"@.len() && "sha"@.len() != "proven"@.len());
    assert("comment"@.len() != "status"@.len() && "comment"@.len() != "proven"@.len()
        && "comment"@.len() != "sha"@.len());
    let st: Seq<char> = if pass { "ok"@ } else { "ko"@ };
    let f1 = spec_set(fs, "status"@, st);
    law_set_then_get(fs, "status"@, st, "status"@);
    lemma_set_keeps_get(fs, "status"@, st, "proven"@);
    let f2 = match head {
        Some(h) => spec_set(f1, "sha"@, h),
        None => f1,
    };
    if let Some(h) = head {
        law_set_then_get(f1, "sha"@, h, "sha"@);
        lemma_set_keeps_get(f1, "sha"@, h, "status"@);
        lemma_set_keeps_get(f1, "sha"@, h, "proven"@);
    }
    let f3 = if !pass && spec_get(f2, "proven"@) is None {
        spec_set(f2, "proven"@, "observed-red"@)
    } else {
        f2
    };
    if !pass && spec_get(f2, "proven"@) is None {
        law_set_then_get(f2, "proven"@, "observed-red"@, "proven"@);
        lemma_set_keeps_get(f2, "proven"@, "observed-red"@, "status"@);
        lemma_set_keeps_get(f2, "proven"@, "observed-red"@, "sha"@);
    }
    let writes = match failure {
        Some(line) => !pass && line.len() > 0,
        None => false,
    };
    if writes {
        let line = failure.unwrap();
        law_set_then_get(f3, "comment"@, line, "comment"@);
        lemma_set_keeps_get(f3, "comment"@, line, "status"@);
        lemma_set_keeps_get(f3, "comment"@, line, "sha"@);
        lemma_set_keeps_get(f3, "comment"@, line, "proven"@);
    } else {
        law_unset_clears_only_its_key(f3, "comment"@, "comment"@);
        lemma_unset_keeps_get(f3, "comment"@, "status"@);
        lemma_unset_keeps_get(f3, "comment"@, "sha"@);
        lemma_unset_keeps_get(f3, "comment"@, "proven"@);
    }
}

// ─── test-backed validations ────────────────────────────────────────────────

/// `s` without any leading `./` segments.
pub open spec fn strip_dot_slash(s: Seq<char>) -> Seq<char>
    decreases s.len(),
{
    if s.len() >= 2 && s[0] == '.' && s[1] == '/' {
        strip_dot_slash(s.skip(2))
    } else {
        s
    }
}

/// An `at:` value that names a test once leading `./` is dropped.
pub open spec fn test_at(a: Seq<char>) -> bool {
    test_backed(strip_dot_slash(a))
}

fn strip_dot_slash_from(v: &Vec<char>, lo: usize) -> (r: usize)
    requires
        lo <= v.len(),
    ensures
        lo <= r <= v.len(),
        v@.subrange(r as int, v.len() as int) == strip_dot_slash(v@.subrange(lo as int, v.len() as int)),
{
    let mut i: usize = lo;
    while i < v.len() && v.len() - i >= 2 && v[i] == '.' && v[i + 1] == '/'
        invariant
            lo <= i <= v.len(),
            strip_dot_slash(v@.subrange(lo as int, v.len() as int)) == strip_dot_slash(
                v@.subrange(i as int, v.len() as int),
            ),
        decreases v.len() - i,
    {
        assert(v@.subrange(i as int, v.len() as int).skip(2) =~= v@.subrange(i + 2, v.len() as int));
        i += 2;
    }
    i
}

/// Whether an `at:` value names a test file (leading `./` ignored).
pub fn is_test_at(a: &str) -> (r: bool)
    ensures
        r == test_at(a@),
{
    let v = chars_of(a);
    let i = strip_dot_slash_from(&v, 0);
    assert(v@.subrange(0, v.len() as int) =~= v@);
    let s = string_of(&v, i, v.len());
    is_test_backed_path(s.as_str())
}

/// The first `at:` value that names a test.
pub open spec fn first_test_at(ats: Seq<Seq<char>>) -> Option<Seq<char>>
    decreases ats.len(),
{
    if ats.len() == 0 {
        None
    } else if test_at(ats[0]) {
        Some(ats[0])
    } else {
        first_test_at(ats.drop_first())
    }
}

/// `s` without its leading `#` and `:` characters.
pub open spec fn strip_anchor_marks(s: Seq<char>) -> Seq<char>
    decreases s.len(),
{
    if s.len() > 0 && (s[0] == '#' || s[0] == ':') {
        strip_anchor_marks(s.drop_first())
    } else {
        s
    }
}

/// The unit named after the file part of an `at:` value (`file#unit`, `file:unit`).
pub open spec fn spec_anchor(a: Seq<char>) -> Seq<char> {
    strip_anchor_marks(a.skip(spec_at_path(a).len() as int))
}

/// A validation to measure: its id, test file, unit anchor, subset (lane) and
/// full `at:` value.
pub struct ValTarget {
    pub id: String,
    pub path: String,
    pub anchor: String,
    pub subset: String,
    pub at: String,
}

pub struct TargetModel {
    pub id: Seq<char>,
    pub path: Seq<char>,
    pub anchor: Seq<char>,
    pub subset: Seq<char>,
    pub at: Seq<char>,
}

impl View for ValTarget {
    type V = TargetModel;

    open spec fn view(&self) -> TargetModel {
        TargetModel {
            id: self.id@,
            path: self.path@,
            anchor: self.anchor@,
            subset: self.subset@,
            at: self.at@,
        }
    }
}

pub open spec fn targets_view(v: Seq<ValTarget>) -> Seq<TargetModel> {
    v.map_values(|t: ValTarget| t@)
}

/// The target of node `(id, fs)`, when it is a validation with a test `at:`.
pub open spec fn target_of(id: Seq<char>, fs: Seq<Field>) -> Option<TargetModel> {
    if spec_get(fs, "role"@) == Some("validation"@) {
        match first_test_at(spec_all(fs, "at"@)) {
            Some(a) => Some(
                TargetModel {
                    id,
                    path: spec_at_path(a),
                    anchor: spec_anchor(a),
                    subset: get_or_empty(fs, "subset"@),
                    at: a,
                },
            ),
            None => None,
        }
    } else {
        None
    }
}

/// The targets among the first `n` nodes whose id passes the `only` filter
/// (an empty filter passes every id), in board order.
pub open spec fn spec_targets(b: BoardView, only: Seq<Seq<char>>, n: int) -> Seq<TargetModel>
    decreases n,
{
    if n <= 0 {
        Seq::empty()
    } else {
        let rest = spec_targets(b, only, n - 1);
        if only.len() == 0 || only.contains(b[n - 1].0) {
            match target_of(b[n - 1].0, b[n - 1].1) {
                Some(t) => rest.push(t),
                None => rest,
            }
        } else {
            rest
        }
    }
}

fn anchor_of(a: &str) -> (r: String)
    ensures
        r@ == spec_anchor(a@),
{
    let p = at_path(a);
    let v = chars_of(a);
    let pv = chars_of(p.as_str());
    let mut i: usize = pv.len();
    proof {
        crate::query::lemma_first_anchor(a@);
    }
    assert(v@.subrange(i as int, v.len() as int) =~= a@.skip(spec_at_path(a@).len() as int));
    while i < v.len() && (v[i] == '#' || v[i] == ':')
        invariant
            i <= v@.len(),
            v@ == a@,
            strip_anchor_marks(v@.subrange(i as int, v.len() as int)) == spec_anchor(a@),
        decreases v.len() - i,
    {
        assert(v@.subrange(i as int, v.len() as int).drop_first() =~= v@.subrange(i + 1, v.len() as int));
        i += 1;
    }
    string_of(&v, i, v.len())
}

/// The target of one node, when it is a test-backed validation.
pub fn validation_target(id: &str, n: &Node) -> (r: Option<ValTarget>)
    ensures
        match r {
            Some(t) => target_of(id@, n@) == Some(t@),
            None => target_of(id@, n@) is None,
        },
{
    proof {
        reveal_strlit("role");
        reveal_strlit("validation");
        reveal_strlit("at");
        reveal_strlit("subset");
    }
    let is_val = match n.get("role") {
        Some(r) => str_eq(r, "validation"),
        None => false,
    };
    if !is_val {
        return None;
    }
    let ats = n.all("at");
    let ghost all = spec_all(n@, "at"@);
    assert(all.skip(0) =~= all);
    let mut j: usize = 0;
    while j < ats.len()
        invariant
            j <= ats@.len(),
            all == spec_all(n@, "at"@),
            ats@.len() == all.len(),
            forall|q: int| 0 <= q < ats@.len() ==> #[trigger] ats@[q]@ == all[q],
            first_test_at(all) == first_test_at(all.skip(j as int)),
            spec_get(n@, "role"@) == Some("validation"@),
        decreases ats.len() - j,
    {
        assert(all.skip(j as int)[0] == ats@[j as int]@);
        if is_test_at(ats[j]) {
            let a = ats[j];
            assert(a@ == all[j as int]);
            assert(first_test_at(all.skip(j as int)) == Some(a@));
            let t = ValTarget {
                id: to_owned(id),
                path: at_path(a),
                anchor: anchor_of(a),
                subset: field_or_empty(n, "subset"),
                at: to_owned(a),
            };

            return Some(t);
        }
        assert(all.skip(j as int).drop_first() =~= all.skip(j + 1));
        j += 1;
    }
    assert(all.skip(j as int).len() == 0);
    None
}

/// Each validation to measure, with the test file its `at:` points at. A
/// non-empty `only` keeps just those ids.
pub fn validation_targets(board: &Vec<(String, Node)>, only: &Vec<String>) -> (r: Vec<ValTarget>)
    ensures
        targets_view(r@) == spec_targets(board_view(board@), strs(only@), board@.len() as int),
{
    let ghost bv = board_view(board@);
    let mut out: Vec<ValTarget> = Vec::new();
    let mut k: usize = 0;
    while k < board.len()
        invariant
            k <= board@.len(),
            bv == board_view(board@),
            targets_view(out@) == spec_targets(bv, strs(only@), k as int),
        decreases board.len() - k,
    {
        let id = board[k].0.as_str();
        if only.len() == 0 || contains_string(only, id) {
            match validation_target(id, &board[k].1) {
                Some(t) => {
                    let ghost before = out@;
                    out.push(t);
                    assert(targets_view(out@) =~= targets_view(before).push(out@.last()@));
                },
                None => {},
            }
        }
        k += 1;
    }
    out
}

/// Some node carries `id` and is a validation.
pub open spec fn is_validation_id(b: BoardView, id: Seq<char>) -> bool {
    exists|k: int|
        0 <= k < b.len() && #[trigger] b[k].0 == id && spec_get(b[k].1, "role"@) == Some(
            "validation"@,
        )
}

/// The first requested id that names no validation — a typo must never read
/// as "verified".
pub fn unknown_validation(board: &Vec<(String, Node)>, only: &Vec<String>) -> (r: Option<String>)
    ensures
        match r {
            Some(id) => strs(only@).contains(id@) && !is_validation_id(board_view(board@), id@),
            None => forall|j: int|
                0 <= j < only@.len() ==> is_validation_id(board_view(board@), #[trigger] only@[j]@),
        },
{
    proof {
        reveal_strlit("role");
        reveal_strlit("validation");
    }
    let ghost bv = board_view(board@);
    let mut j: usize = 0;
    while j < only.len()
        invariant
            j <= only@.len(),
            bv == board_view(board@),
            forall|q: int| 0 <= q < j ==> is_validation_id(bv, #[trigger] only@[q]@),
        decreases only.len() - j,
    {
        let id = only[j].as_str();
        let mut found = false;
        let mut k: usize = 0;
        while k < board.len()
            invariant
                k <= board@.len(),
                bv == board_view(board@),
                id@ == only@[j as int]@,
                found ==> is_validation_id(bv, id@),
                !found ==> forall|q: int|
                    0 <= q < k ==> !(#[trigger] bv[q].0 == id@ && spec_get(bv[q].1, "role"@) == Some(
                        "validation"@,
                    )),
            decreases board.len() - k,
        {
            if !found && str_eq(board[k].0.as_str(), id) {
                match board[k].1.get("role") {
                    Some(r) => {
                        if str_eq(r, "validation") {
                            assert(bv[k as int].0 == id@);
                            found = true;
                        }
                    },
                    None => {},
                }
            }
            k += 1;
        }
        if !found {
            assert(strs(only@)[j as int] == id@);
            return Some(only[j].clone());
        }
        j += 1;
    }
    None
}

// ─── lanes ──────────────────────────────────────────────────────────────────

/// The command declared for a lane (first declaration of it).
pub open spec fn lane_for(lanes: Seq<(Seq<char>, Seq<char>)>, subset: Seq<char>) -> Option<Seq<char>>
    decreases lanes.len(),
{
    if lanes.len() == 0 {
        None
    } else if lanes[0].0 == subset {
        Some(lanes[0].1)
    } else {
        lane_for(lanes.drop_first(), subset)
    }
}

/// A subset's lane command, or the default test command.
pub open spec fn spec_lane_cmd(lanes: Seq<(Seq<char>, Seq<char>)>, subset: Seq<char>, test: Seq<char>) -> Seq<char> {
    match lane_for(lanes, subset) {
        Some(c) => c,
        None => test,
    }
}

/// The command a subset's lane runs: its `[lanes]` entry, else `test`.
pub fn lane_cmd(vc: &VerifyConf, subset: &str, test: &str) -> (r: String)
    ensures
        r@ == spec_lane_cmd(vc.model().lanes, subset@, test@),
{
    let ghost ls = vc.model().lanes;
    let mut i: usize = 0;
    assert(ls.skip(0) =~= ls);
    while i < vc.lanes.len()
        invariant
            i <= vc.lanes@.len(),
            ls == vc.model().lanes,
            lane_for(ls, subset@) == lane_for(ls.skip(i as int), subset@),
        decreases vc.lanes.len() - i,
    {
        assert(ls.skip(i as int)[0] == (vc.lanes@[i as int].0@, vc.lanes@[i as int].1@));
        if str_eq(vc.lanes[i].0.as_str(), subset) {
            return vc.lanes[i].1.clone();
        }
        assert(ls.skip(i as int).drop_first() =~= ls.skip(i + 1));
        i += 1;
    }
    to_owned(test)
}

/// A runner that can select one test by name.
pub open spec fn name_filter(cmd: Seq<char>) -> bool {
    has_infix(cmd, "vitest"@) || has_infix(cmd, "jest"@)
}

/// The key under which one lane run is cached: command and file, plus the
/// unit when the runner selects by name.
pub open spec fn spec_lane_key(cmd: Seq<char>, f: Seq<char>, anchor: Seq<char>) -> Seq<char> {
    if name_filter(cmd) && anchor.len() > 0 {
        cmd + seq!['\0'] + f + seq!['\0'] + anchor
    } else {
        cmd + seq!['\0'] + f
    }
}

/// One character escaped for a double-quoted shell word.
pub open spec fn esc_char(c: char) -> Seq<char> {
    if c == '\\' || c == '"' || c == '$' || c == '`' {
        seq!['\\', c]
    } else {
        seq![c]
    }
}

/// `s` with `\`, `"`, `$` and backquote escaped by a backslash.
pub open spec fn shell_escape(s: Seq<char>) -> Seq<char>
    decreases s.len(),
{
    if s.len() == 0 {
        Seq::empty()
    } else {
        shell_escape(s.drop_last()) + esc_char(s.last())
    }
}

/// The shell command for one lane run: the unit selected by name when the
/// runner supports it, else the whole `at:` value.
pub open spec fn spec_lane_command(cmd: Seq<char>, f: Seq<char>, anchor: Seq<char>, a_full: Seq<char>) -> Seq<char> {
    if name_filter(cmd) && anchor.len() > 0 {
        cmd + " "@ + f + " -t \""@ + shell_escape(anchor) + "\""@
    } else {
        cmd + " "@ + a_full
    }
}

fn is_name_filter(cmd: &str) -> (r: bool)
    ensures
        r == name_filter(cmd@),
{
    contains_str(cmd, "vitest") || contains_str(cmd, "jest")
}

/// The cache key of one lane run.
pub fn lane_key(cmd: &str, f: &str, anchor: &str) -> (r: String)
    ensures
        r@ == spec_lane_key(cmd@, f@, anchor@),
{
    let mut k = to_owned(cmd);
    push_char(&mut k, '\0');
    push_str(&mut k, f);
    if is_name_filter(cmd) && !anchor.is_empty() {
        push_char(&mut k, '\0');
        push_str(&mut k, anchor);
    }
    k
}

/// `s` escaped for a double-quoted shell word.
pub fn shell_escape_str(s: &str) -> (r: String)
    ensures
        r@ == shell_escape(s@),
{
    let v = chars_of(s);
    let mut out = String::new();
    let mut i: usize = 0;
    while i < v.len()
        invariant
            i <= v@.len(),
            v@ == s@,
            out@ == shell_escape(v@.take(i as int)),
        decreases v.len() - i,
    {
        let c = v[i];
        if c == '\\' || c == '"' || c == '$' || c == '`' {
            push_char(&mut out, '\\');
        }
        push_char(&mut out, c);
        assert(v@.take(i + 1).drop_last() =~= v@.take(i as int));
        assert(out@ =~= shell_escape(v@.take(i + 1)));
        i += 1;
    }
    assert(v@.take(i as int) =~= v@);
    out
}

/// The shell command for one lane run.
pub fn lane_command(cmd: &str, f: &str, anchor: &str, a_full: &str) -> (r: String)
    ensures
        r@ == spec_lane_command(cmd@, f@, anchor@, a_full@),
{
    let mut c = to_owned(cmd);
    push_char(&mut c, ' ');
    proof {
        reveal_strlit(" ");
        reveal_strlit(" -t \"");
        reveal_strlit("\"");
    }
    if is_name_filter(cmd) && !anchor.is_empty() {
        push_str(&mut c, f);
        push_str(&mut c, " -t \"");
        let e = shell_escape_str(anchor);
        push_str(&mut c, e.as_str());
        push_char(&mut c, '"');
        assert(c@ =~= spec_lane_command(cmd@, f@, anchor@, a_full@));
    } else {
        push_str(&mut c, a_full);
        assert(c@ =~= spec_lane_command(cmd@, f@, anchor@, a_full@));
    }
    c
}

// ─── control roll-up ────────────────────────────────────────────────────────

/// The statuses of the layer-`vrole` nodes among the first `n` that serve
/// `cid` directly and carry a status.
pub open spec fn proofs_of(b: BoardView, vrole: Seq<char>, cid: Seq<char>, n: int) -> Seq<Seq<char>>
    decreases n,
{
    if n <= 0 {
        Seq::empty()
    } else {
        let rest = proofs_of(b, vrole, cid, n - 1);
        let fs = b[n - 1].1;
        if spec_get(fs, "role"@) == Some(vrole) && serves_of(fs).contains(cid) && spec_get(fs, "status"@) is Some {
            rest.push(spec_get(fs, "status"@).unwrap())
        } else {
            rest
        }
    }
}

/// Worst-wins over measured proofs: any ko is ko, all ok is ok, anything
/// mixed (or none) is left to a human.
pub open spec fn spec_rolled(ps: Seq<Seq<char>>) -> Option<Seq<char>> {
    if ps.len() == 0 {
        None
    } else if ps.contains("ko"@) {
        Some("ko"@)
    } else if forall|i: int| 0 <= i < ps.len() ==> #[trigger] ps[i] == "ok"@ {
        Some("ok"@)
    } else {
        None
    }
}

/// Worst-wins, position by position: with no proofs nothing is rolled up;
/// a ko anywhere among them makes the control ko; only when every proof is
/// ok is it ok; a mix without ko (pending, justified, …) is left alone.
pub proof fn law_rollup_worst_wins(ps: Seq<Seq<char>>)
    ensures
        ps.len() == 0 ==> spec_rolled(ps) is None,
        (exists|i: int| 0 <= i < ps.len() && #[trigger] ps[i] == "ko"@) ==> spec_rolled(ps) == Some("ko"@),
        (ps.len() > 0 && forall|i: int| 0 <= i < ps.len() ==> #[trigger] ps[i] == "ok"@) ==> spec_rolled(ps) == Some(
            "ok"@,
        ),
        ((forall|i: int| 0 <= i < ps.len() ==> #[trigger] ps[i] != "ko"@) && (exists|i: int|
            0 <= i < ps.len() && #[trigger] ps[i] != "ok"@)) ==> spec_rolled(ps) is None,
        spec_rolled(ps) == Some("ko"@) ==> exists|i: int| 0 <= i < ps.len() && #[trigger] ps[i] == "ko"@,
{
    reveal_strlit("ko");
    reveal_strlit("ok");
    assert("ko"@ != "ok"@) by {
        assert("ko"@[1] != "ok"@[1]);
    }
    if exists|i: int| 0 <= i < ps.len() && #[trigger] ps[i] == "ko"@ {
        let i = choose|i: int| 0 <= i < ps.len() && #[trigger] ps[i] == "ko"@;
        assert(ps.contains("ko"@));
    }
    if ps.contains("ko"@) {
        let i = choose|i: int| 0 <= i < ps.len() && ps[i] == "ko"@;
        assert(ps[i] == "ko"@);
    }
}

/// For each control among the first `n` with a measured roll-up: its id, the
/// rolled status, and whether its node must be rewritten (neither `justified`
/// nor already at that status).
pub open spec fn spec_rollups(b: BoardView, crole: Seq<char>, vrole: Seq<char>, n: int) -> Seq<
    (Seq<char>, Seq<char>, bool),
>
    decreases n,
{
    if n <= 0 {
        Seq::empty()
    } else {
        let rest = spec_rollups(b, crole, vrole, n - 1);
        let (cid, fs) = b[n - 1];
        if spec_get(fs, "role"@) == Some(crole) {
            match spec_rolled(proofs_of(b, vrole, cid, b.len() as int)) {
                Some(r) => rest.push(
                    (
                        cid,
                        r,
                        spec_get(fs, "status"@) != Some("justified"@) && spec_get(fs, "status"@)
                            != Some(r),
                    ),
                ),
                None => rest,
            }
        } else {
            rest
        }
    }
}

pub open spec fn rollups_view(v: Seq<(String, String, bool)>) -> Seq<(Seq<char>, Seq<char>, bool)> {
    v.map_values(|e: (String, String, bool)| (e.0@, e.1@, e.2))
}

fn proofs_for(board: &Vec<(String, Node)>, vrole: &str, cid: &str) -> (r: Vec<String>)
    ensures
        strs(r@) == proofs_of(board_view(board@), vrole@, cid@, board@.len() as int),
{
    proof {
        reveal_strlit("role");
        reveal_strlit("status");
    }
    let ghost bv = board_view(board@);
    let mut out: Vec<String> = Vec::new();
    let mut k: usize = 0;
    while k < board.len()
        invariant
            k <= board@.len(),
            bv == board_view(board@),
            strs(out@) == proofs_of(bv, vrole@, cid@, k as int),
        decreases board.len() - k,
    {
        let n = &board[k].1;
        let is_v = match n.get("role") {
            Some(r) => str_eq(r, vrole),
            None => false,
        };
        if is_v && contains_string(&serves(n), cid) {
            match n.get("status") {
                Some(st) => {
                    let ghost before = out@;
                    out.push(to_owned(st));
                    assert(strs(out@) =~= strs(before).push(st@));
                },
                None => {},
            }
        }
        k += 1;
    }
    out
}

fn rolled_of(ps: &Vec<String>) -> (r: Option<&'static str>)
    ensures
        opt_str_view(r) == spec_rolled(strs(ps@)),
{
    proof {
        reveal_strlit("ko");
        reveal_strlit("ok");
    }
    if ps.len() == 0 {
        return None;
    }
    if contains_string(ps, "ko") {
        return Some("ko");
    }
    let mut i: usize = 0;
    while i < ps.len()
        invariant
            i <= ps@.len(),
            ps@.len() > 0,
            !strs(ps@).contains("ko"@),
            forall|j: int| 0 <= j < i ==> #[trigger] strs(ps@)[j] == "ok"@,
        decreases ps.len() - i,
    {
        if !str_eq(ps[i].as_str(), "ok") {
            assert(strs(ps@)[i as int] != "ok"@);
            return None;
        }
        i += 1;
    }
    Some("ok")
}

/// Roll one layer up: each control's status measured from the validations
/// that serve it (worst-wins). Mixed or pending is left alone; a `justified`
/// control stays a human's call.
pub fn control_rollups(board: &Vec<(String, Node)>, chain: &Vec<String>) -> (r: Vec<(String, String, bool)>)
    ensures
        rollups_view(r@) == spec_rollups(
            board_view(board@),
            control_role(strs(chain@)),
            if chain@.len() > 0 { strs(chain@).last() } else { "validation"@ },
            board@.len() as int,
        ),
{
    proof {
        reveal_strlit("role");
        reveal_strlit("status");
        reveal_strlit("justified");
        reveal_strlit("control");
        reveal_strlit("validation");
    }
    let ghost bv = board_view(board@);
    let crole: String = if chain.len() >= 2 {
        chain[chain.len() - 2].clone()
    } else {
        "control".to_string()
    };
    let vrole: String = if chain.len() > 0 {
        chain[chain.len() - 1].clone()
    } else {
        "validation".to_string()
    };
    let ghost cr = control_role(strs(chain@));
    let ghost vr = if chain@.len() > 0 { strs(chain@).last() } else { "validation"@ };
    assert(crole@ == cr);
    assert(vrole@ == vr);
    let mut out: Vec<(String, String, bool)> = Vec::new();
    let mut k: usize = 0;
    while k < board.len()
        invariant
            k <= board@.len(),
            bv == board_view(board@),
            crole@ == cr,
            vrole@ == vr,
            rollups_view(out@) == spec_rollups(bv, cr, vr, k as int),
        decreases board.len() - k,
    {
        let n = &board[k].1;
        let is_c = match n.get("role") {
            Some(r) => str_eq(r, crole.as_str()),
            None => false,
        };
        if is_c {
            let ps = proofs_for(board, vrole.as_str(), board[k].0.as_str());
            match rolled_of(&ps) {
                Some(r) => {
                    let write = match n.get("status") {
                        Some(st) => !str_eq(st, "justified") && !str_eq(st, r),
                        None => true,
                    };
                    let ghost before = out@;
                    out.push((board[k].0.clone(), to_owned(r), write));
                    assert(rollups_view(out@) =~= rollups_view(before).push((bv[k as int].0, r@, write)));
                },
                None => {},
            }
        }
        k += 1;
    }
    out
}

} // verus!
