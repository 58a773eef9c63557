//! Run history: `<runs>/<v-id>.<seq>.run`, one file per validation execution,
//! line-oriented `key: value` like nodes. Reading and writing the files is the
//! caller's; these functions name, parse, order, judge and prune them.
use vstd::prelude::*;

use crate::ident::{decimal, digit_char, lemma_decimal_value, push_decimal, value_of};
use crate::node::{spec_get, Node};
use crate::text::{chars_of, str_eq, string_of, to_owned};

verus! {

/// Stable-pass rule: at least 2 passes among the 5 most recent runs.
pub const STABLE_PASS_REQUIRED: usize = 2;

pub const STABLE_PASS_WINDOW: usize = 5;

/// One recorded run of a validation.
#[derive(Debug, Clone)]
pub struct RunRec {
    pub seq: String,
    pub result: String,
    pub sha: String,
    pub timestamp: String,
    pub note: String,
}

// ─── numerals ───────────────────────────────────────────────────────────────

pub open spec fn is_digit(c: char) -> bool {
    '0' <= c && c <= '9'
}

pub open spec fn all_digits(s: Seq<char>) -> bool {
    forall|i: int| 0 <= i < s.len() ==> is_digit(#[trigger] s[i])
}

/// `str::parse` of an unsigned integer bounded by `max`: an optional `+`, then
/// at least one ASCII digit and nothing else, denoting at most `max`.
pub open spec fn spec_parse_uint(s: Seq<char>, max: nat) -> Option<nat> {
    let d = if s.len() > 0 && s[0] == '+' {
        s.drop_first()
    } else {
        s
    };
    if d.len() > 0 && all_digits(d) && value_of(d) <= max {
        Some(value_of(d))
    } else {
        None
    }
}

proof fn lemma_value_prefix(s: Seq<char>, k: int)
    requires
        0 <= k <= s.len(),
        all_digits(s),
    ensures
        value_of(s) >= value_of(s.take(k)),
    decreases s.len(),
{
    if k < s.len() {
        assert(s.drop_last().take(k) =~= s.take(k));
        assert(all_digits(s.drop_last())) by {
            assert forall|i: int| 0 <= i < s.drop_last().len() implies is_digit(
                #[trigger] s.drop_last()[i],
            ) by {
                assert(s.drop_last()[i] == s[i]);
            }
        }
        lemma_value_prefix(s.drop_last(), k);
        assert(is_digit(s.last()));
    } else {
        assert(s.take(k) =~= s);
    }
}

/// Parse `v[lo..hi]` as an unsigned integer of at most `max`.
pub fn parse_uint(v: &Vec<char>, lo: usize, hi: usize, max: u64) -> (r: Option<u64>)
    requires
        lo <= hi <= v.len(),
    ensures
        match r {
            Some(n) => spec_parse_uint(v@.subrange(lo as int, hi as int), max as nat) == Some(
                n as nat,
            ),
            None => spec_parse_uint(v@.subrange(lo as int, hi as int), max as nat) is None,
        },
{
    let ghost s = v@.subrange(lo as int, hi as int);
    let start: usize = if lo < hi && v[lo] == '+' {
        lo + 1
    } else {
        lo
    };
    let ghost d = v@.subrange(start as int, hi as int);
    assert(d == if s.len() > 0 && s[0] == '+' {
        s.drop_first()
    } else {
        s
    });
    if start >= hi {
        return None;
    }
    let mut acc: u64 = 0;
    let mut i: usize = start;
    while i < hi
        invariant
            start <= i <= hi <= v.len(),
            d == v@.subrange(start as int, hi as int),
            s == v@.subrange(lo as int, hi as int),
            d == if s.len() > 0 && s[0] == '+' {
                s.drop_first()
            } else {
                s
            },
            all_digits(d.take(i - start)),
            acc as nat == value_of(d.take(i - start)),
            acc <= max,
        decreases hi - i,
    {
        let c = v[i];
        if !('0' <= c && c <= '9') {
            assert(d[i - start] == c);
            assert(!is_digit(d[i - start]));
            return None;
        }
        let dig = (c as u32 - 48) as u64;
        proof {
            assert(d.take(i - start + 1).drop_last() =~= d.take(i - start));
            assert(d.take(i - start + 1).last() == c);
            assert(all_digits(d.take(i - start + 1))) by {
                assert forall|j: int| 0 <= j < d.take(i - start + 1).len() implies is_digit(
                    #[trigger] d.take(i - start + 1)[j],
                ) by {
                    if j < i - start {
                        assert(d.take(i - start + 1)[j] == d.take(i - start)[j]);
                    }
                }
            }
        }
        if dig > max || acc > (max - dig) / 10 {
            proof {
                assert(acc * 10 + dig > max) by (nonlinear_arith)
                    requires
                        dig > max || acc > (max - dig) / 10,
                        acc >= 0,
                ;
                assert(value_of(d.take(i - start + 1)) == acc * 10 + dig);
                if all_digits(d) {
                    lemma_value_prefix(d, i - start + 1);
                }
            }
            return None;
        }
        assert(acc * 10 + dig <= max) by (nonlinear_arith)
            requires
                acc <= (max - dig) / 10,
                dig <= max,
        ;
        acc = acc * 10 + dig;
        i += 1;
    }
    assert(d.take(i - start) =~= d);
    Some(acc)
}

// ─── judging a history ──────────────────────────────────────────────────────

pub open spec fn count_result(s: Seq<RunRec>, word: Seq<char>) -> nat
    decreases s.len(),
{
    if s.len() == 0 {
        0
    } else {
        count_result(s.drop_last(), word) + if s.last().result@ == word {
            1nat
        } else {
            0nat
        }
    }
}

/// The most recent runs the stable-pass rule looks at.
pub open spec fn window(s: Seq<RunRec>) -> Seq<RunRec> {
    if s.len() <= 5 {
        s
    } else {
        s.take(5)
    }
}

/// Stable? `(passes in the window, passes >= 2)`, newest-first runs given.
pub fn stable_pass(runs: &[RunRec]) -> (r: (usize, bool))
    ensures
        r.0 as nat == count_result(window(runs@), "pass"@),
        r.1 == (r.0 >= STABLE_PASS_REQUIRED),
{
    let n = if runs.len() < STABLE_PASS_WINDOW {
        runs.len()
    } else {
        STABLE_PASS_WINDOW
    };
    let mut passed: usize = 0;
    let mut i: usize = 0;
    proof {
        reveal_strlit("pass");
    }
    while i < n
        invariant
            i <= n <= runs@.len(),
            n == window(runs@).len(),
            passed as nat == count_result(runs@.take(i as int), "pass"@),
            passed <= i,
        decreases n - i,
    {
        assert(runs@.take(i + 1).drop_last() =~= runs@.take(i as int));
        if str_eq(runs[i].result.as_str(), "pass") {
            passed += 1;
        }
        i += 1;
    }
    assert(runs@.take(n as int) =~= window(runs@));
    (passed, passed >= STABLE_PASS_REQUIRED)
}

/// Has this validation ever been observed red? The node carries a `proven`
/// stamp, or some run recorded `fail` / `ko`. No history means unproven.
pub open spec fn spec_proven(node: Option<Seq<(Seq<char>, Seq<char>)>>, runs: Seq<RunRec>) -> bool {
    (node is Some && spec_get(node.unwrap(), "proven"@) is Some) || exists|i: int|
        0 <= i < runs.len() && (runs[i].result@ == "fail"@ || runs[i].result@ == "ko"@)
}

pub fn proven_detector(node: Option<&Node>, runs: &[RunRec]) -> (r: bool)
    ensures
        r == spec_proven(
            match node {
                Some(n) => Some(n@),
                None => None,
            },
            runs@,
        ),
{
    proof {
        reveal_strlit("proven");
        reveal_strlit("fail");
        reveal_strlit("ko");
    }
    if let Some(n) = node {
        if n.get("proven").is_some() {
            return true;
        }
    }
    let mut i: usize = 0;
    while i < runs.len()
        invariant
            i <= runs@.len(),
            forall|j: int| 0 <= j < i ==> runs@[j].result@ != "fail"@ && runs@[j].result@ != "ko"@,
        decreases runs.len() - i,
    {
        if str_eq(runs[i].result.as_str(), "fail") || str_eq(runs[i].result.as_str(), "ko") {
            return true;
        }
        i += 1;
    }
    false
}

// ─── file names ─────────────────────────────────────────────────────────────

/// The `<seq>` of a file named `<v_id>.<seq>.run`.
pub open spec fn spec_run_seq(name: Seq<char>, v_id: Seq<char>) -> Option<Seq<char>> {
    let p = v_id.len() + 1;
    if name.len() >= p + 4 && name.take(v_id.len() as int) == v_id && name[v_id.len() as int]
        == '.' && name.skip(name.len() - 4) == ".run"@ {
        Some(name.subrange(p as int, name.len() - 4))
    } else {
        None
    }
}

pub(crate) fn ends_with_run(t: &Vec<char>) -> (r: bool)
    ensures
        r == (t@.len() >= 4 && t@.skip(t@.len() - 4) == ".run"@),
{
    proof {
        reveal_strlit(".run");
    }
    let n = t.len();
    if n < 4 {
        return false;
    }
    let r = t[n - 4] == '.' && t[n - 3] == 'r' && t[n - 2] == 'u' && t[n - 1] == 'n';
    let ghost tail = t@.skip(n - 4);
    assert(".run"@ =~= seq!['.', 'r', 'u', 'n']);
    assert(tail[0] == t@[n - 4] && tail[1] == t@[n - 3] && tail[2] == t@[n - 2] && tail[3] == t@[n
        - 1]);
    if r {
        assert(tail =~= ".run"@);
    }
    r
}

fn starts_with_id_dot(t: &Vec<char>, id: &Vec<char>) -> (r: bool)
    ensures
        r == (t@.len() >= id@.len() + 1 && t@.take(id@.len() as int) == id@ && t@[id@.len() as int]
            == '.'),
{
    if t.len() <= id.len() {
        return false;
    }
    let mut i: usize = 0;
    while i < id.len()
        invariant
            i <= id.len(),
            t@.len() >= id@.len() + 1,
            forall|j: int| 0 <= j < i ==> t@[j] == id@[j],
        decreases id.len() - i,
    {
        if t[i] != id[i] {
            assert(t@.take(id@.len() as int)[i as int] != id@[i as int]);
            return false;
        }
        i += 1;
    }
    assert(t@.take(id@.len() as int) =~= id@);
    t[id.len()] == '.'
}

/// The sequence part of a run file name for validation `v_id`.
pub fn run_seq(name: &str, v_id: &str) -> (r: Option<String>)
    ensures
        match r {
            Some(s) => spec_run_seq(name@, v_id@) == Some(s@),
            None => spec_run_seq(name@, v_id@) is None,
        },
{
    let t = chars_of(name);
    let id = chars_of(v_id);
    if t.len() >= id.len() && t.len() - id.len() >= 5 && starts_with_id_dot(&t, &id) && ends_with_run(
        &t,
    ) {
        Some(string_of(&t, id.len() + 1, t.len() - 4))
    } else {
        None
    }
}

/// A run record parsed from its file text; missing fields read as empty.
pub open spec fn get_or_empty(fs: Seq<(Seq<char>, Seq<char>)>, k: Seq<char>) -> Seq<char> {
    match spec_get(fs, k) {
        Some(v) => v,
        None => Seq::empty(),
    }
}

pub(crate) fn field_or_empty(n: &Node, k: &str) -> (r: String)
    ensures
        r@ == get_or_empty(n@, k@),
{
    match n.get(k) {
        Some(v) => to_owned(v),
        None => String::new(),
    }
}

/// The record of one run file: `result`, `sha`, `timestamp`, `note` fields.
pub fn run_from_text(seq: &str, text: &str) -> (r: RunRec)
    ensures
        r.seq@ == seq@,
        r.result@ == get_or_empty(crate::node::spec_parse(text@), "result"@),
        r.sha@ == get_or_empty(crate::node::spec_parse(text@), "sha"@),
        r.timestamp@ == get_or_empty(crate::node::spec_parse(text@), "timestamp"@),
        r.note@ == get_or_empty(crate::node::spec_parse(text@), "note"@),
{
    let n = Node::parse(text);
    RunRec {
        seq: to_owned(seq),
        result: field_or_empty(&n, "result"),
        sha: field_or_empty(&n, "sha"),
        timestamp: field_or_empty(&n, "timestamp"),
        note: field_or_empty(&n, "note"),
    }
}

// ─── ordering ───────────────────────────────────────────────────────────────

/// Lexicographic order by code point (the order of `String`'s byte-wise `<`).
pub open spec fn lex_lt(a: Seq<char>, b: Seq<char>) -> bool
    decreases a.len(),
{
    if a.len() == 0 {
        b.len() > 0
    } else if b.len() == 0 {
        false
    } else if a[0] != b[0] {
        a[0] < b[0]
    } else {
        lex_lt(a.drop_first(), b.drop_first())
    }
}

pub proof fn lemma_lex_total(a: Seq<char>, b: Seq<char>)
    ensures
        lex_lt(a, b) || lex_lt(b, a) || a == b,
        !(lex_lt(a, b) && lex_lt(b, a)),
    decreases a.len(),
{
    if a.len() > 0 && b.len() > 0 && a[0] == b[0] {
        lemma_lex_total(a.drop_first(), b.drop_first());
        if a.drop_first() == b.drop_first() {
            assert(a =~= seq![a[0]] + a.drop_first());
            assert(b =~= seq![b[0]] + b.drop_first());
        }
    } else if a.len() == 0 && b.len() == 0 {
        assert(a =~= b);
    }
}

pub proof fn lemma_lex_trans(a: Seq<char>, b: Seq<char>, c: Seq<char>)
    requires
        lex_lt(a, b),
        lex_lt(b, c),
    ensures
        lex_lt(a, c),
    decreases a.len(),
{
    if a.len() > 0 && b.len() > 0 && c.len() > 0 && a[0] == b[0] && b[0] == c[0] {
        lemma_lex_trans(a.drop_first(), b.drop_first(), c.drop_first());
    }
}

pub(crate) fn lex_less(a: &String, b: &String) -> (r: bool)
    ensures
        r == lex_lt(a@, b@),
{
    let x = chars_of(a.as_str());
    let y = chars_of(b.as_str());
    let mut i: usize = 0;
    assert(a@.skip(0) =~= a@);
    assert(b@.skip(0) =~= b@);
    while i < x.len() && i < y.len() && x[i] == y[i]
        invariant
            i <= x.len(),
            i <= y.len(),
            x@ == a@,
            y@ == b@,
            lex_lt(a@, b@) == lex_lt(a@.skip(i as int), b@.skip(i as int)),
        decreases x.len() - i,
    {
        assert(a@.skip(i as int).drop_first() =~= a@.skip(i + 1));
        assert(b@.skip(i as int).drop_first() =~= b@.skip(i + 1));
        i += 1;
    }
    if i == x.len() {
        i < y.len()
    } else if i == y.len() {
        false
    } else {
        x[i] < y[i]
    }
}

/// The digits of `s`, in order.
pub open spec fn digits_of(s: Seq<char>) -> Seq<char>
    decreases s.len(),
{
    if s.len() == 0 {
        Seq::empty()
    } else if is_digit(s.last()) {
        digits_of(s.drop_last()).push(s.last())
    } else {
        digits_of(s.drop_last())
    }
}

/// The number a run's sequence denotes: the value of its digits (so run 1000
/// comes after run 999).
pub open spec fn seq_value(s: Seq<char>) -> nat {
    value_of(digits_of(s))
}

/// Newest first: no record comes before one with a greater sequence number.
pub open spec fn newest_first(s: Seq<RunRec>) -> bool {
    forall|i: int, j: int|
        0 <= i < j < s.len() ==> seq_value(#[trigger] s[i].seq@) >= seq_value(#[trigger] s[j].seq@)
}

proof fn lemma_digits_all(s: Seq<char>)
    ensures
        all_digits(digits_of(s)),
    decreases s.len(),
{
    if s.len() > 0 {
        lemma_digits_all(s.drop_last());
    }
}

proof fn lemma_digits_take(s: Seq<char>, i: int)
    requires
        0 <= i < s.len(),
    ensures
        digits_of(s.take(i + 1)) == if is_digit(s[i]) {
            digits_of(s.take(i)).push(s[i])
        } else {
            digits_of(s.take(i))
        },
{
    assert(s.take(i + 1).drop_last() =~= s.take(i));
}

/// Leading zeros leave a numeral's value as it is.
proof fn lemma_value_zeros(k: nat, s: Seq<char>)
    ensures
        value_of(Seq::new(k, |j: int| '0') + s) == value_of(s),
    decreases s.len(), k,
{
    let z = Seq::new(k, |j: int| '0');
    if s.len() == 0 {
        assert(z + s =~= z);
        if k > 0 {
            assert(z.drop_last() =~= Seq::new((k - 1) as nat, |j: int| '0'));
            lemma_value_zeros((k - 1) as nat, s);
            assert(Seq::new((k - 1) as nat, |j: int| '0') + s =~= z.drop_last());
        }
    } else {
        assert((z + s).drop_last() =~= z + s.drop_last());
        lemma_value_zeros(k, s.drop_last());
    }
}

/// The value of digit `c`.
spec fn digit_val(c: char) -> int {
    (c as u32) - 48
}

/// Appending one digit to each of two numerals keeps their order, and an
/// equal prefix leaves the order to the new digits.
proof fn lemma_digit_step(va: int, vb: int, x: int, y: int)
    requires
        0 <= va,
        0 <= vb,
        0 <= x <= 9,
        0 <= y <= 9,
    ensures
        va < vb ==> va * 10 + x < vb * 10 + y,
        va > vb ==> va * 10 + x > vb * 10 + y,
        va == vb ==> (va * 10 + x < vb * 10 + y <==> x < y),
        va == vb ==> (va * 10 + x == vb * 10 + y <==> x == y),
{
    if va < vb {
        assert(va * 10 + 10 <= vb * 10) by (nonlinear_arith)
            requires
                va < vb,
        ;
    }
    if va > vb {
        assert(vb * 10 + 10 <= va * 10) by (nonlinear_arith)
            requires
                va > vb,
        ;
    }
}

fn digits_vec(s: &String) -> (r: Vec<char>)
    ensures
        r@ == digits_of(s@),
{
    let v = chars_of(s.as_str());
    let mut out: Vec<char> = Vec::new();
    let mut i: usize = 0;
    while i < v.len()
        invariant
            i <= v@.len(),
            v@ == s@,
            out@ == digits_of(s@.take(i as int)),
        decreases v.len() - i,
    {
        proof {
            lemma_digits_take(s@, i as int);
        }
        if '0' <= v[i] && v[i] <= '9' {
            out.push(v[i]);
        }
        i += 1;
    }
    assert(s@.take(i as int) =~= s@);
    out
}

/// `k` zeros, then `d`.
fn padded(d: &Vec<char>, k: usize) -> (r: Vec<char>)
    ensures
        r@ == Seq::new(k as nat, |j: int| '0') + d@,
{
    let mut out: Vec<char> = Vec::new();
    let mut i: usize = 0;
    while i < k
        invariant
            i <= k,
            out@ == Seq::new(i as nat, |j: int| '0'),
        decreases k - i,
    {
        out.push('0');
        assert(out@ =~= Seq::new((i + 1) as nat, |j: int| '0'));
        i += 1;
    }
    let mut j: usize = 0;
    while j < d.len()
        invariant
            j <= d@.len(),
            out@ == Seq::new(k as nat, |q: int| '0') + d@.take(j as int),
        decreases d.len() - j,
    {
        out.push(d[j]);
        assert(d@.take(j + 1) =~= d@.take(j as int).push(d@[j as int]));
        assert(out@ =~= Seq::new(k as nat, |q: int| '0') + d@.take(j + 1));
        j += 1;
    }
    assert(d@.take(j as int) =~= d@);
    out
}

/// One more digit of a numeral multiplies its value by ten and adds it.
proof fn lemma_take_step(p: Seq<char>, i: int)
    requires
        all_digits(p),
        0 <= i < p.len(),
    ensures
        value_of(p.take(i + 1)) == value_of(p.take(i)) * 10 + digit_val(p[i]),
        0 <= digit_val(p[i]) <= 9,
{
    assert(p.take(i + 1).drop_last() =~= p.take(i));
    assert(p.take(i + 1).last() == p[i]);
    assert(is_digit(p[i]));
}

/// Whether run sequence `a` denotes a smaller number than `b`.
pub fn seq_less(a: &String, b: &String) -> (r: bool)
    ensures
        r == (seq_value(a@) < seq_value(b@)),
{
    let da = digits_vec(a);
    let db = digits_vec(b);
    let n = if da.len() > db.len() { da.len() } else { db.len() };
    let pa = padded(&da, n - da.len());
    let pb = padded(&db, n - db.len());
    proof {
        lemma_value_zeros((n - da.len()) as nat, da@);
        lemma_value_zeros((n - db.len()) as nat, db@);
        lemma_digits_all(a@);
        lemma_digits_all(b@);
        assert(all_digits(pa@));
        assert(all_digits(pb@));
        assert(pa@.take(0) =~= Seq::<char>::empty());
        assert(pb@.take(0) =~= Seq::<char>::empty());
    }
    // -1: smaller so far, 0: equal so far, 1: greater so far
    let mut c: i8 = 0;
    let mut i: usize = 0;
    while i < n
        invariant
            i <= n == pa@.len() == pb@.len(),
            all_digits(pa@),
            all_digits(pb@),
            c == -1 ==> value_of(pa@.take(i as int)) < value_of(pb@.take(i as int)),
            c == 0 ==> value_of(pa@.take(i as int)) == value_of(pb@.take(i as int)),
            c == 1 ==> value_of(pa@.take(i as int)) > value_of(pb@.take(i as int)),
            -1 <= c <= 1,
        decreases n - i,
    {
        let ghost va = value_of(pa@.take(i as int));
        let ghost vb = value_of(pb@.take(i as int));
        proof {
            lemma_take_step(pa@, i as int);
            lemma_take_step(pb@, i as int);
            lemma_digit_step(va as int, vb as int, digit_val(pa@[i as int]), digit_val(pb@[i as int]));
        }
        if c == 0 {
            if pa[i] < pb[i] {
                c = -1;
            } else if pa[i] > pb[i] {
                c = 1;
            }
        }
        i += 1;
    }
    assert(pa@.take(n as int) =~= pa@);
    assert(pb@.take(n as int) =~= pb@);
    c == -1
}

pub proof fn lemma_multiset_insert<A>(s: Seq<A>, k: int, x: A)
    requires
        0 <= k <= s.len(),
    ensures
        s.insert(k, x).to_multiset() == s.to_multiset().insert(x),
{
    let t = s.insert(k, x);
    t.to_multiset_ensures();
    assert(t.remove(k) =~= s);
    assert(t[k] == x);
    assert(t.contains(x));
    assert(t.to_multiset().count(x) > 0);
    assert(s.to_multiset().insert(x) =~= t.to_multiset());
}

/// Runs ordered newest first (greatest sequence number first); the same records.
pub fn sort_newest_first(runs: Vec<RunRec>) -> (r: Vec<RunRec>)
    ensures
        newest_first(r@),
        r@.to_multiset() == runs@.to_multiset(),
{
    let ghost orig = runs@;
    let mut rest = runs;
    let mut out: Vec<RunRec> = Vec::new();
    let mut i: usize = 0;
    let n = rest.len();
    proof {
        orig.take(0).to_multiset_ensures();
        assert(orig.take(0) =~= Seq::<RunRec>::empty());
        Seq::<RunRec>::empty().to_multiset_ensures();
        assert(out@.to_multiset() =~= orig.take(0).to_multiset());
    }
    while i < n
        invariant
            i <= n == orig.len(),
            rest@ == orig.skip(i as int),
            newest_first(out@),
            out@.to_multiset() == orig.take(i as int).to_multiset(),
        decreases n - i,
    {
        assert(rest@.len() > 0);
        let x = rest.remove(0);
        assert(x == orig[i as int]);
        assert(rest@ =~= orig.skip(i + 1));
        let mut k: usize = 0;
        while k < out.len() && !seq_less(&out[k].seq, &x.seq)
            invariant
                k <= out.len(),
                forall|j: int| 0 <= j < k ==> seq_value(#[trigger] out@[j].seq@) >= seq_value(x.seq@),
            decreases out.len() - k,
        {
            k += 1;
        }
        let ghost before = out@;
        out.insert(k, x);
        proof {
            assert(out@ == before.insert(k as int, x));
            assert forall|a: int, b: int| 0 <= a < b < out@.len() implies seq_value(#[trigger] out@[a].seq@)
                >= seq_value(#[trigger] out@[b].seq@) by {
                if b < k {
                    assert(out@[a] == before[a] && out@[b] == before[b]);
                } else if b == k {
                    assert(out@[a] == before[a]);
                } else if a < k {
                    assert(out@[a] == before[a] && out@[b] == before[b - 1]);
                } else if a == k {
                    assert(out@[b] == before[b - 1]);
                    if k < b - 1 {
                        assert(seq_value(before[k as int].seq@) >= seq_value(before[b - 1].seq@));
                    }
                } else {
                    assert(out@[a] == before[a - 1] && out@[b] == before[b - 1]);
                }
            }
            lemma_multiset_insert(before, k as int, x);
            assert(orig.take(i + 1) =~= orig.take(i as int).push(orig[i as int]));
            orig.take(i as int).to_multiset_ensures();
        }
        i += 1;
    }
    assert(orig.take(n as int) =~= orig);
    out
}


// ─── the next sequence number ───────────────────────────────────────────────

/// The number in a run file name for `v_id`, when it parses as a `u32`.
pub open spec fn seq_num(name: Seq<char>, v_id: Seq<char>) -> Option<nat> {
    match spec_run_seq(name, v_id) {
        Some(m) => spec_parse_uint(m, 0xFFFF_FFFFnat),
        None => None,
    }
}

/// The greatest run number recorded for `v_id`, 0 when there is none.
pub open spec fn max_seq(names: Seq<Seq<char>>, v_id: Seq<char>) -> nat
    decreases names.len(),
{
    if names.len() == 0 {
        0
    } else {
        let m = max_seq(names.drop_last(), v_id);
        match seq_num(names.last(), v_id) {
            Some(n) => if n > m {
                n
            } else {
                m
            },
            None => m,
        }
    }
}

pub open spec fn names_view(v: Seq<String>) -> Seq<Seq<char>> {
    v.map_values(|s: String| s@)
}

/// The next run number for `v_id`, zero-padded to three digits: one past the
/// greatest number among `names` (the files of the runs directory).
pub fn next_run_seq(names: &Vec<String>, v_id: &str) -> (r: String)
    requires
        max_seq(names_view(names@), v_id@) < 0xFFFF_FFFF,
    ensures
        r@ == crate::display::pad0(decimal(max_seq(names_view(names@), v_id@) + 1), 3),
{
    let mut max_n: u32 = 0;
    let mut i: usize = 0;
    let ghost nv = names_view(names@);
    while i < names.len()
        invariant
            i <= names.len(),
            nv == names_view(names@),
            max_n as nat == max_seq(nv.take(i as int), v_id@),
        decreases names.len() - i,
    {
        proof {
            assert(nv.take(i + 1).drop_last() =~= nv.take(i as int));
            assert(nv.take(i + 1).last() == names@[i as int]@);
        }
        if let Some(mid) = run_seq(names[i].as_str(), v_id) {
            let cs = chars_of(mid.as_str());
            assert(cs@.subrange(0, cs@.len() as int) =~= mid@);
            if let Some(n) = parse_uint(&cs, 0, cs.len(), 0xFFFF_FFFF) {
                if n as u32 > max_n {
                    max_n = n as u32;
                }
            }
        }
        i += 1;
    }
    assert(nv.take(i as int) =~= nv);
    let mut r = String::new();
    crate::display::push_signed(&mut r, (max_n as i64) + 1, 3);
    r
}

proof fn lemma_decimal_digits(n: nat)
    ensures
        all_digits(decimal(n)),
    decreases n,
{
    if n < 10 {
        assert((digit_char(n) as u32) == 48 + n);
        assert(decimal(n)[0] == digit_char(n));
    } else {
        lemma_decimal_digits(n / 10);
        let d = decimal(n / 10).push(digit_char(n % 10));
        assert((digit_char(n % 10) as u32) == 48 + n % 10);
        assert forall|i: int| 0 <= i < d.len() implies is_digit(#[trigger] d[i]) by {
            if i < d.len() - 1 {
                assert(d[i] == decimal(n / 10)[i]);
            }
        }
    }
}

/// Digits appended after any text are kept whole by `digits_of`.
proof fn lemma_digits_suffix(p: Seq<char>, d: Seq<char>)
    requires
        all_digits(d),
    ensures
        digits_of(p + d) == digits_of(p) + d,
    decreases d.len(),
{
    if d.len() == 0 {
        assert(p + d =~= p);
        assert(digits_of(p) + d =~= digits_of(p));
    } else {
        let e = d.drop_last();
        assert(all_digits(e)) by {
            assert forall|i: int| 0 <= i < e.len() implies is_digit(#[trigger] e[i]) by {
                assert(e[i] == d[i]);
            }
        }
        lemma_digits_suffix(p, e);
        assert((p + d).drop_last() =~= p + e);
        assert((p + d).last() == d.last());
        assert(is_digit(d[d.len() - 1]));
        assert(digits_of(p) + d =~= (digits_of(p) + e).push(d.last()));
    }
}

/// A run number that parses is the value of its digits.
proof fn lemma_parsed_value(m: Seq<char>)
    requires
        spec_parse_uint(m, 0xFFFF_FFFFnat) is Some,
    ensures
        seq_value(m) == spec_parse_uint(m, 0xFFFF_FFFFnat)->0,
{
    if m.len() > 0 && m[0] == '+' {
        let d = m.drop_first();
        assert(m =~= seq!['+'] + d);
        lemma_digits_suffix(seq!['+'], d);
        assert(seq!['+'].drop_last() =~= Seq::<char>::empty());
        assert(seq!['+'].last() == '+');
        assert(!is_digit('+'));
        assert(digits_of(Seq::<char>::empty()) =~= Seq::<char>::empty());
        assert(digits_of(seq!['+']) =~= Seq::<char>::empty());
        assert(Seq::<char>::empty() + d =~= d);
    } else {
        lemma_digits_suffix(Seq::<char>::empty(), m);
        assert(Seq::<char>::empty() + m =~= m);
    }
}

/// Every run number recorded for `v_id` is at most the greatest one.
proof fn lemma_max_seq_bounds(names: Seq<Seq<char>>, v_id: Seq<char>, k: int)
    requires
        0 <= k < names.len(),
        seq_num(names[k], v_id) is Some,
    ensures
        seq_num(names[k], v_id)->0 <= max_seq(names, v_id),
    decreases names.len(),
{
    if k < names.len() - 1 {
        assert(names.drop_last()[k] == names[k]);
        lemma_max_seq_bounds(names.drop_last(), v_id, k);
    }
}

/// A run written next is the newest of its validation: the number
/// `next_run_seq` gives exceeds that of every run of `v_id` whose number
/// parses, so the new run sorts first.
pub proof fn law_next_run_is_newest(names: Seq<Seq<char>>, v_id: Seq<char>, k: int)
    requires
        0 <= k < names.len(),
        seq_num(names[k], v_id) is Some,
    ensures
        seq_value(spec_run_seq(names[k], v_id)->0) < seq_value(
            crate::display::pad0(decimal(max_seq(names, v_id) + 1), 3),
        ),
{
    let m = spec_run_seq(names[k], v_id)->0;
    lemma_parsed_value(m);
    lemma_max_seq_bounds(names, v_id, k);
    let n = max_seq(names, v_id) + 1;
    let d = decimal(n as nat);
    lemma_decimal_value(n as nat);
    lemma_decimal_digits(n as nat);
    let q = crate::display::pad0(d, 3);
    if d.len() >= 3 {
        assert(q == d);
        lemma_digits_suffix(Seq::<char>::empty(), d);
        assert(Seq::<char>::empty() + d =~= d);
    } else {
        let z = crate::display::repeat('0', (3 - d.len()) as nat);
        assert(q == z + d);
        assert(all_digits(z + d)) by {
            assert forall|i: int| 0 <= i < (z + d).len() implies is_digit(#[trigger] (z + d)[i]) by {
                if i >= z.len() {
                    assert((z + d)[i] == d[i - z.len()]);
                }
            }
        }
        lemma_digits_suffix(Seq::<char>::empty(), z + d);
        assert(Seq::<char>::empty() + (z + d) =~= z + d);
        assert(z =~= Seq::new((3 - d.len()) as nat, |j: int| '0'));
        lemma_value_zeros((3 - d.len()) as nat, d);
    }
}

// ─── pruning ────────────────────────────────────────────────────────────────

/// Index of the last `c` in `s`, or -1.
pub open spec fn last_index(s: Seq<char>, c: char) -> int
    decreases s.len(),
{
    if s.len() == 0 {
        -1
    } else if s.last() == c {
        s.len() - 1
    } else {
        last_index(s.drop_last(), c)
    }
}

/// A run file `<validation>.<digits>.run` with at least three digits:
/// (validation, run number).
pub open spec fn run_file(name: Seq<char>) -> Option<(Seq<char>, nat)> {
    if name.len() >= 4 && name.skip(name.len() - 4) == ".run"@ {
        let stem = name.take(name.len() - 4);
        let p = last_index(stem, '.');
        let digits = stem.skip(p + 1);
        if p >= 0 && digits.len() >= 3 && all_digits(digits) && value_of(digits)
            <= 0xFFFF_FFFF_FFFF_FFFFnat {
            Some((stem.take(p), value_of(digits)))
        } else {
            None
        }
    } else {
        None
    }
}

/// `b` (at index `j`) sorts before `a` (at index `i`) in a stable
/// newest-first order of the same validation's runs.
pub open spec fn ahead_of(b: Option<(Seq<char>, nat)>, j: int, a: Option<(Seq<char>, nat)>, i: int) -> bool {
    match (a, b) {
        (Some((va, na)), Some((vb, nb))) => va == vb && (nb > na || (nb == na && j < i)),
        _ => false,
    }
}

/// How many of `ps[0..upto]` sort ahead of `ps[i]`.
pub open spec fn rank_upto(ps: Seq<Option<(Seq<char>, nat)>>, i: int, upto: int) -> nat
    decreases upto,
{
    if upto <= 0 {
        0
    } else {
        rank_upto(ps, i, upto - 1) + if ahead_of(ps[upto - 1], upto - 1, ps[i], i) {
            1nat
        } else {
            0nat
        }
    }
}

/// A run file is pruned when `keep` newer runs of its validation exist.
pub open spec fn pruned(ps: Seq<Option<(Seq<char>, nat)>>, i: int, keep: nat) -> bool {
    ps[i] is Some && rank_upto(ps, i, ps.len() as int) >= keep
}

/// The names, in order, of the run files that pruning to `keep` removes.
pub open spec fn prune_list(names: Seq<Seq<char>>, keep: nat, upto: int) -> Seq<Seq<char>>
    decreases upto,
{
    if upto <= 0 {
        Seq::empty()
    } else {
        let rest = prune_list(names, keep, upto - 1);
        if pruned(names.map_values(|n: Seq<char>| run_file(n)), upto - 1, keep) {
            rest.push(names[upto - 1])
        } else {
            rest
        }
    }
}

pub open spec fn run_files(names: Seq<Seq<char>>) -> Seq<Option<(Seq<char>, nat)>> {
    names.map_values(|n: Seq<char>| run_file(n))
}

proof fn lemma_prune_list_members(names: Seq<Seq<char>>, keep: nat, upto: int, x: Seq<char>)
    requires
        0 <= upto <= names.len(),
    ensures
        prune_list(names, keep, upto).contains(x) <==> exists|k: int|
            0 <= k < upto && #[trigger] names[k] == x && pruned(run_files(names), k, keep),
    decreases upto,
{
    if upto > 0 {
        lemma_prune_list_members(names, keep, upto - 1, x);
        let rest = prune_list(names, keep, upto - 1);
        assert(run_files(names) == names.map_values(|n: Seq<char>| run_file(n)));
        if pruned(run_files(names), upto - 1, keep) {
            crate::graph::lemma_push_contains(rest, names[upto - 1]);
        }
    }
}

proof fn lemma_rank_zero(ps: Seq<Option<(Seq<char>, nat)>>, i: int, upto: int)
    requires
        0 <= upto <= ps.len(),
        forall|t: int| 0 <= t < ps.len() ==> !ahead_of(#[trigger] ps[t], t, ps[i], i),
    ensures
        rank_upto(ps, i, upto) == 0,
    decreases upto,
{
    if upto > 0 {
        lemma_rank_zero(ps, i, upto - 1);
    }
}

proof fn lemma_rank_dominates(ps: Seq<Option<(Seq<char>, nat)>>, j: int, k: int, upto: int)
    requires
        0 <= upto <= ps.len(),
        forall|t: int| 0 <= t < ps.len() && ahead_of(#[trigger] ps[t], t, ps[k], k) ==> ahead_of(ps[t], t, ps[j], j),
    ensures
        rank_upto(ps, j, upto) >= rank_upto(ps, k, upto),
    decreases upto,
{
    if upto > 0 {
        lemma_rank_dominates(ps, j, k, upto - 1);
    }
}

/// Pruning never removes the newest run of a validation: a run file whose
/// number is greater than that of every other run of its validation stays,
/// whatever the names around it, as long as at least one run is kept.
pub proof fn law_prune_keeps_newest(names: Seq<Seq<char>>, keep: nat, i: int, v: Seq<char>, n: nat)
    requires
        keep >= 1,
        0 <= i < names.len(),
        run_file(names[i]) == Some((v, n)),
        forall|j: int|
            0 <= j < names.len() && j != i ==> match #[trigger] run_file(names[j]) {
                Some((w, m)) => w == v ==> m < n,
                None => true,
            },
    ensures
        !prune_list(names, keep, names.len() as int).contains(names[i]),
{
    let ps = run_files(names);
    lemma_prune_list_members(names, keep, names.len() as int, names[i]);
    assert forall|t: int| 0 <= t < ps.len() implies !ahead_of(#[trigger] ps[t], t, ps[i], i) by {
        assert(ps[t] == run_file(names[t]));
        assert(ps[i] == run_file(names[i]));
    }
    lemma_rank_zero(ps, i, ps.len() as int);
    if exists|k: int| 0 <= k < names.len() && #[trigger] names[k] == names[i] && pruned(ps, k, keep) {
        let k = choose|k: int| 0 <= k < names.len() && #[trigger] names[k] == names[i] && pruned(ps, k, keep);
        if k != i {
            assert(run_file(names[k]) == Some((v, n)));
        }
    }
}

/// Pruning takes the oldest runs first: when a run of a validation is
/// removed, every run of the same validation with a smaller number is
/// removed too.
pub proof fn law_prune_oldest_first(names: Seq<Seq<char>>, keep: nat, i: int, j: int, v: Seq<char>, n: nat, m: nat)
    requires
        0 <= i < names.len(),
        0 <= j < names.len(),
        run_file(names[i]) == Some((v, n)),
        run_file(names[j]) == Some((v, m)),
        m < n,
        prune_list(names, keep, names.len() as int).contains(names[i]),
    ensures
        prune_list(names, keep, names.len() as int).contains(names[j]),
{
    let ps = run_files(names);
    lemma_prune_list_members(names, keep, names.len() as int, names[i]);
    lemma_prune_list_members(names, keep, names.len() as int, names[j]);
    let k = choose|k: int| 0 <= k < names.len() && #[trigger] names[k] == names[i] && pruned(ps, k, keep);
    assert(ps[k] == Some((v, n)));
    assert(ps[j] == Some((v, m)));
    assert forall|t: int| 0 <= t < ps.len() && ahead_of(#[trigger] ps[t], t, ps[k], k) implies ahead_of(
        ps[t],
        t,
        ps[j],
        j,
    ) by {}
    lemma_rank_dominates(ps, j, k, ps.len() as int);
    assert(pruned(ps, j, keep));
}

/// Runs of validation `v` numbered above `n`.
pub open spec fn newer_run(f: Option<(Seq<char>, nat)>, v: Seq<char>, n: nat) -> bool {
    match f {
        Some((w, m)) => w == v && m > n,
        None => false,
    }
}

proof fn lemma_rank_counts(
    ps: Seq<Option<(Seq<char>, nat)>>,
    i: int,
    u: int,
    newer: Set<int>,
    v: Seq<char>,
    n: nat,
)
    requires
        0 <= i < ps.len(),
        0 <= u <= ps.len(),
        ps[i] == Some((v, n)),
        newer.finite(),
        forall|t: int| #[trigger] newer.contains(t) ==> 0 <= t < ps.len() && newer_run(ps[t], v, n),
    ensures
        newer.filter(|t: int| t < u).finite(),
        rank_upto(ps, i, u) >= newer.filter(|t: int| t < u).len(),
    decreases u,
{
    let b = newer.filter(|t: int| t < u);
    assert(b.subset_of(newer));
    vstd::set_lib::lemma_set_subset_finite(newer, b);
    if u == 0 {
        assert(b =~= Set::<int>::empty());
    } else {
        lemma_rank_counts(ps, i, u - 1, newer, v, n);
        let a = newer.filter(|t: int| t < u - 1);
        if newer.contains(u - 1) {
            assert(b =~= a.insert(u - 1));
            assert(!a.contains(u - 1));
            vstd::set::axiom_set_insert_len(a, u - 1);
            assert(newer_run(ps[u - 1], v, n));
            assert(ahead_of(ps[u - 1], u - 1, ps[i], i));
        } else {
            assert(b =~= a);
        }
    }
}

/// Pruning removes every run that `keep` newer runs of its validation
/// outnumber: given `keep` distinct positions holding runs of the same
/// validation with larger numbers, the run is among the names to remove.
pub proof fn law_prune_removes_outnumbered(
    names: Seq<Seq<char>>,
    keep: nat,
    i: int,
    v: Seq<char>,
    n: nat,
    newer: Set<int>,
)
    requires
        0 <= i < names.len(),
        run_file(names[i]) == Some((v, n)),
        newer.finite(),
        newer.len() >= keep,
        forall|t: int| #[trigger] newer.contains(t) ==> 0 <= t < names.len() && newer_run(run_file(names[t]), v, n),
    ensures
        prune_list(names, keep, names.len() as int).contains(names[i]),
{
    let ps = run_files(names);
    assert forall|t: int| #[trigger] newer.contains(t) implies 0 <= t < ps.len() && newer_run(ps[t], v, n) by {
        assert(ps[t] == run_file(names[t]));
    }
    assert(ps[i] == Some((v, n)));
    lemma_rank_counts(ps, i, ps.len() as int, newer, v, n);
    assert(newer.filter(|t: int| t < ps.len()) =~= newer);
    assert(pruned(ps, i, keep));
    lemma_prune_list_members(names, keep, names.len() as int, names[i]);
}

fn parse_run_file(name: &String) -> (r: Option<(String, u64)>)
    ensures
        match r {
            Some((v, n)) => run_file(name@) == Some((v@, n as nat)),
            None => run_file(name@) is None,
        },
{
    let t = chars_of(name.as_str());
    if !ends_with_run(&t) {
        return None;
    }
    let sl = t.len() - 4;
    let ghost stem = t@.take(sl as int);
    let mut p: usize = sl;
    while p > 0 && t[p - 1] != '.'
        invariant
            p <= sl < t@.len(),
            stem == t@.take(sl as int),
            last_index(stem, '.') == last_index(t@.take(p as int), '.'),
        decreases p,
    {
        assert(t@.take(p as int).drop_last() =~= t@.take(p - 1));
        p -= 1;
    }
    // p is 0 (no dot) or one past the last dot of the stem.
    if p == 0 {
        assert(t@.take(0) =~= Seq::<char>::empty());
        return None;
    }
    assert(last_index(t@.take(p as int), '.') == p - 1);
    let dot = p - 1;
    assert(stem.skip(dot + 1) =~= t@.subrange(p as int, sl as int));
    if sl - p < 3 {
        return None;
    }
    let mut k: usize = p;
    while k < sl
        invariant
            1 <= p <= k <= sl < t@.len(),
            t@ == name@,
            sl == t@.len() - 4,
            t@.skip(sl as int) == ".run"@,
            stem == t@.take(sl as int),
            last_index(stem, '.') == p - 1,
            stem.skip(p as int) == t@.subrange(p as int, sl as int),
            forall|j: int| p <= j < k ==> is_digit(#[trigger] t@[j]),
        decreases sl - k,
    {
        if !('0' <= t[k] && t[k] <= '9') {
            assert(!is_digit(t@.subrange(p as int, sl as int)[k - p]));
            return None;
        }
        k += 1;
    }
    assert(all_digits(t@.subrange(p as int, sl as int))) by {
        assert forall|j: int| 0 <= j < sl - p implies is_digit(
            #[trigger] t@.subrange(p as int, sl as int)[j],
        ) by {
            assert(t@.subrange(p as int, sl as int)[j] == t@[p + j]);
        }
    }
    match parse_uint(&t, p, sl, 0xFFFF_FFFF_FFFF_FFFF) {
        Some(n) => {
            assert(t@.subrange(p as int, sl as int)[0] != '+');
            assert(stem.take(dot as int) =~= t@.subrange(0, dot as int));
            Some((string_of(&t, 0, dot), n))
        },
        None => {
            assert(t@.subrange(p as int, sl as int)[0] != '+');
            None
        },
    }
}

fn same_str(a: &String, b: &String) -> (r: bool)
    ensures
        r == (a@ == b@),
{
    str_eq(a.as_str(), b.as_str())
}

fn opt_view(o: &Option<(String, u64)>) -> (r: bool)
    ensures
        r == o is Some,
{
    o.is_some()
}

pub open spec fn run_files_view(ps: Seq<Option<(String, u64)>>) -> Seq<Option<(Seq<char>, nat)>> {
    ps.map_values(
        |o: Option<(String, u64)>|
            match o {
                Some((v, n)) => Some((v@, n as nat)),
                None => None,
            },
    )
}

/// Bound each validation's run history to `keep` files: the names (among those
/// of a runs directory) of the files to remove, older than the `keep` newest.
pub fn prune_runs(names: &Vec<String>, keep: usize) -> (r: Vec<String>)
    ensures
        names_view(r@) == prune_list(names_view(names@), keep as nat, names@.len() as int),
{
    let ghost nv = names_view(names@);
    let ghost spec_ps = nv.map_values(|n: Seq<char>| run_file(n));
    let mut ps: Vec<Option<(String, u64)>> = Vec::new();
    let mut i: usize = 0;
    while i < names.len()
        invariant
            i <= names.len(),
            nv == names_view(names@),
            spec_ps == nv.map_values(|n: Seq<char>| run_file(n)),
            run_files_view(ps@) == spec_ps.take(i as int),
            ps@.len() == i,
            spec_ps.len() == names@.len(),
        decreases names.len() - i,
    {
        let p = parse_run_file(&names[i]);
        let ghost before = ps@;
        ps.push(p);
        proof {
            assert(spec_ps[i as int] == run_file(names@[i as int]@));
            assert(run_files_view(ps@)[i as int] == spec_ps[i as int]);
            assert forall|j: int| 0 <= j < i implies run_files_view(ps@)[j] == spec_ps.take(
                i + 1,
            )[j] by {
                assert(ps@[j] == before[j]);
                assert(run_files_view(before)[j] == spec_ps.take(i as int)[j]);
            }
        }
        assert(run_files_view(ps@) =~= spec_ps.take(i + 1));
        i += 1;
    }
    assert(spec_ps.take(i as int) =~= spec_ps);
    let mut out: Vec<String> = Vec::new();
    let mut a: usize = 0;
    while a < ps.len()
        invariant
            a <= ps.len() == names.len(),
            nv == names_view(names@),
            spec_ps == nv.map_values(|n: Seq<char>| run_file(n)),
            run_files_view(ps@) == spec_ps,
            names_view(out@) == prune_list(nv, keep as nat, a as int),
        decreases ps.len() - a,
    {
        let mut ahead: usize = 0;
        let mut b: usize = 0;
        while b < ps.len()
            invariant
                b <= ps.len(),
                a < ps.len(),
                ahead <= b,
                run_files_view(ps@) == spec_ps,
                ahead as nat == rank_upto(spec_ps, a as int, b as int),
            decreases ps.len() - b,
        {
            let hit = match (&ps[a], &ps[b]) {
                (Some((va, na)), Some((vb, nb))) => same_str(va, vb) && (*nb > *na || (*nb == *na
                    && b < a)),
                _ => false,
            };
            assert(run_files_view(ps@)[a as int] == spec_ps[a as int]);
            assert(run_files_view(ps@)[b as int] == spec_ps[b as int]);
            assert(hit == ahead_of(spec_ps[b as int], b as int, spec_ps[a as int], a as int));
            if hit {
                ahead += 1;
            }
            b += 1;
        }
        assert(run_files_view(ps@)[a as int] == spec_ps[a as int]);
        if opt_view(&ps[a]) && ahead >= keep {
            out.push(names[a].clone());
        }
        assert(names_view(out@) =~= prune_list(nv, keep as nat, a + 1));
        a += 1;
    }
    out
}

// ─── writing a run ──────────────────────────────────────────────────────────

/// The fields a run file records: validation and result, then sha, timestamp
/// and note when they are not empty.
pub open spec fn run_fields(v_id: Seq<char>, rec: RunRec) -> Seq<(Seq<char>, Seq<char>)> {
    let base = seq![("validation"@, v_id), ("result"@, rec.result@)];
    let a = if rec.sha@.len() > 0 {
        base.push(("sha"@, rec.sha@))
    } else {
        base
    };
    let b = if rec.timestamp@.len() > 0 {
        a.push(("timestamp"@, rec.timestamp@))
    } else {
        a
    };
    if rec.note@.len() > 0 {
        b.push(("note"@, rec.note@))
    } else {
        b
    }
}

/// The node a run file holds for `rec`.
pub fn run_record(v_id: &str, rec: &RunRec) -> (r: Node)
    ensures
        r@ == run_fields(v_id@, *rec),
{
    proof {
        reveal_strlit("validation");
        reveal_strlit("result");
        reveal_strlit("sha");
        reveal_strlit("timestamp");
        reveal_strlit("note");
    }
    let mut n = Node { fields: Vec::new() };
    n.fields.push((to_owned("validation"), to_owned(v_id)));
    n.fields.push((to_owned("result"), rec.result.clone()));
    if !rec.sha.as_str().is_empty() {
        n.fields.push((to_owned("sha"), rec.sha.clone()));
    }
    if !rec.timestamp.as_str().is_empty() {
        n.fields.push((to_owned("timestamp"), rec.timestamp.clone()));
    }
    if !rec.note.as_str().is_empty() {
        n.fields.push((to_owned("note"), rec.note.clone()));
    }
    assert(n@ =~= run_fields(v_id@, *rec));
    n
}

/// `<v_id>.<seq>.run`.
pub fn run_file_name(v_id: &str, seq: &str) -> (r: String)
    ensures
        r@ == v_id@ + seq!['.'] + seq@ + ".run"@,
{
    let mut s = to_owned(v_id);
    crate::text::push_char(&mut s, '.');
    crate::text::push_str(&mut s, seq);
    crate::text::push_str(&mut s, ".run");
    s
}

} // verus!
