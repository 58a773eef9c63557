//! The viewer's agent interface, execute layer: stable ids and their areas,
//! addressing, item digests, three-way merge of links and scalars.
use vstd::prelude::*;

use crate::conf::{split_bounds, split_on};
use crate::ident::{decimal, push_decimal};
use crate::protocol::{spec_status_word, status_word, svec, sopt, BoardColumn, Item, ItemModel, Status};
use crate::runs::{all_digits, is_digit, parse_uint, spec_parse_uint};
use crate::text::{chars_of, push_char, push_str, str_eq, string_of, to_owned};

verus! {

// ─── stable ids: `lvl_area_NNN` ─────────────────────────────────────────────

pub open spec fn is_lower(c: char) -> bool {
    'a' <= c && c <= 'z'
}

pub open spec fn all_lower(s: Seq<char>) -> bool {
    forall|i: int| 0 <= i < s.len() ==> is_lower(#[trigger] s[i])
}

/// `level_area_NNN`: four lowercase ASCII letters, three lowercase ASCII
/// letters (the functional area), three ASCII digits, joined by `_`.
pub open spec fn spec_valid_id(s: Seq<char>) -> bool {
    let p = split_on(s, '_');
    &&& p.len() == 3
    &&& p[0].len() == 4 && all_lower(p[0])
    &&& p[1].len() == 3 && all_lower(p[1])
    &&& p[2].len() == 3 && all_digits(p[2])
}

fn range_all_lower(v: &Vec<char>, lo: usize, hi: usize) -> (r: bool)
    requires
        lo <= hi <= v.len(),
    ensures
        r == all_lower(v@.subrange(lo as int, hi as int)),
{
    let mut i: usize = lo;
    while i < hi
        invariant
            lo <= i <= hi <= v.len(),
            forall|j: int| lo <= j < i ==> is_lower(#[trigger] v@[j]),
        decreases hi - i,
    {
        if !('a' <= v[i] && v[i] <= 'z') {
            assert(!is_lower(v@.subrange(lo as int, hi as int)[i - lo]));
            return false;
        }
        i += 1;
    }
    assert forall|j: int| 0 <= j < hi - lo implies is_lower(#[trigger] v@.subrange(lo as int, hi as int)[j]) by {
        assert(v@.subrange(lo as int, hi as int)[j] == v@[lo + j]);
    }
    true
}

fn range_all_digits(v: &Vec<char>, lo: usize, hi: usize) -> (r: bool)
    requires
        lo <= hi <= v.len(),
    ensures
        r == all_digits(v@.subrange(lo as int, hi as int)),
{
    let mut i: usize = lo;
    while i < hi
        invariant
            lo <= i <= hi <= v.len(),
            forall|j: int| lo <= j < i ==> is_digit(#[trigger] v@[j]),
        decreases hi - i,
    {
        if !('0' <= v[i] && v[i] <= '9') {
            assert(!is_digit(v@.subrange(lo as int, hi as int)[i - lo]));
            return false;
        }
        i += 1;
    }
    assert forall|j: int| 0 <= j < hi - lo implies is_digit(#[trigger] v@.subrange(lo as int, hi as int)[j]) by {
        assert(v@.subrange(lo as int, hi as int)[j] == v@[lo + j]);
    }
    true
}

/// Whether `s` has the `level_area_NNN` shape of a stable id.
pub fn valid_id_shape(s: &str) -> (r: bool)
    ensures
        r == spec_valid_id(s@),
{
    let v = chars_of(s);
    let p = split_bounds(&v, '_', 0, v.len());
    assert(v@.subrange(0, v@.len() as int) =~= s@);
    if p.len() != 3 {
        return false;
    }
    let (a0, b0) = p[0];
    let (a1, b1) = p[1];
    let (a2, b2) = p[2];
    b0 - a0 == 4 && range_all_lower(&v, a0, b0) && b1 - a1 == 3 && range_all_lower(&v, a1, b1) && b2
        - a2 == 3 && range_all_digits(&v, a2, b2)
}

/// The number of UTF-8 bytes of `c` (`char::len_utf8`).
pub open spec fn utf8_width(c: char) -> nat {
    let u = c as u32;
    if u < 0x80 {
        1
    } else if u < 0x800 {
        2
    } else if u < 0x10000 {
        3
    } else {
        4
    }
}

/// The number of UTF-8 bytes of `s` (`str::len`).
pub open spec fn utf8_len(s: Seq<char>) -> nat
    decreases s.len(),
{
    if s.len() == 0 {
        0
    } else {
        utf8_len(s.drop_last()) + utf8_width(s.last())
    }
}

/// The functional area of an id: its middle `_` segment, when the id has
/// three segments and that one is three bytes long.
pub open spec fn spec_area_of(id: Seq<char>) -> Option<Seq<char>> {
    let p = split_on(id, '_');
    if p.len() == 3 && utf8_len(p[1]) == 3 {
        Some(p[1])
    } else {
        None
    }
}

/// UTF-8 length of `v[lo..hi]`, when it is at most `cap`.
pub(crate) fn utf8_len_upto(v: &Vec<char>, lo: usize, hi: usize, cap: usize) -> (r: Option<usize>)
    requires
        lo <= hi <= v.len(),
    ensures
        match r {
            Some(n) => n == utf8_len(v@.subrange(lo as int, hi as int)) && n <= cap,
            None => utf8_len(v@.subrange(lo as int, hi as int)) > cap,
        },
{
    let mut n: usize = 0;
    let mut i: usize = lo;
    while i < hi
        invariant
            lo <= i <= hi <= v.len(),
            n == utf8_len(v@.subrange(lo as int, i as int)),
            n <= cap,
        decreases hi - i,
    {
        let u = v[i] as u32;
        let w: usize = if u < 0x80 {
            1
        } else if u < 0x800 {
            2
        } else if u < 0x10000 {
            3
        } else {
            4
        };
        assert(v@.subrange(lo as int, i + 1).drop_last() =~= v@.subrange(lo as int, i as int));
        if w > cap - n {
            proof {
                lemma_utf8_len_mono(v@.subrange(lo as int, hi as int), i + 1 - lo);
                assert(v@.subrange(lo as int, hi as int).take(i + 1 - lo) =~= v@.subrange(lo as int, i + 1));
            }
            return None;
        }
        n = n + w;
        i += 1;
    }
    Some(n)
}

proof fn lemma_utf8_len_mono(s: Seq<char>, k: int)
    requires
        0 <= k <= s.len(),
    ensures
        utf8_len(s.take(k)) <= utf8_len(s),
    decreases s.len(),
{
    if k < s.len() {
        assert(s.drop_last().take(k) =~= s.take(k));
        lemma_utf8_len_mono(s.drop_last(), k);
    } else {
        assert(s.take(k) =~= s);
    }
}

/// The functional-area trigram of an id (its middle `_abc_` segment), if shaped.
pub fn area_of(id: &str) -> (r: Option<&str>)
    ensures
        match r {
            Some(a) => spec_area_of(id@) == Some(a@),
            None => spec_area_of(id@) is None,
        },
{
    let v = chars_of(id);
    let p = split_bounds(&v, '_', 0, v.len());
    assert(v@.subrange(0, v@.len() as int) =~= id@);
    if p.len() != 3 {
        return None;
    }
    let (a1, b1) = p[1];
    match utf8_len_upto(&v, a1, b1, 3) {
        Some(n) => {
            if n == 3 {
                Some(id.substring_char(a1, b1))
            } else {
                None
            }
        },
        None => None,
    }
}

/// The level code of a layer page, for auto-assigned ids.
pub open spec fn spec_level_code(page: Seq<char>) -> Option<Seq<char>> {
    if page == "intent"@ {
        Some("innt"@)
    } else if page == "impl"@ {
        Some("impl"@)
    } else if page == "control"@ {
        Some("ctrl"@)
    } else if page == "validation"@ {
        Some("tsts"@)
    } else {
        None
    }
}

pub open spec fn sstr(o: Option<&str>) -> Option<Seq<char>> {
    match o {
        Some(s) => Some(s@),
        None => None,
    }
}

/// The level code of a layer page: innt, impl, ctrl, tsts.
pub fn level_code(page: &str) -> (r: Option<&'static str>)
    ensures
        sstr(r) == spec_level_code(page@),
{
    proof {
        reveal_strlit("intent");
        reveal_strlit("impl");
        reveal_strlit("control");
        reveal_strlit("validation");
        reveal_strlit("innt");
        reveal_strlit("ctrl");
        reveal_strlit("tsts");
    }
    if str_eq(page, "intent") {
        Some("innt")
    } else if str_eq(page, "impl") {
        Some("impl")
    } else if str_eq(page, "control") {
        Some("ctrl")
    } else if str_eq(page, "validation") {
        Some("tsts")
    } else {
        None
    }
}

pub open spec fn is_ascii_alpha(c: char) -> bool {
    ('a' <= c && c <= 'z') || ('A' <= c && c <= 'Z')
}

pub open spec fn ascii_lower(c: char) -> char {
    if 'A' <= c && c <= 'Z' {
        ((c as u32) + 32) as char
    } else {
        c
    }
}

/// The ASCII letters of `s`, lowercased, in order.
pub open spec fn ascii_letters(s: Seq<char>) -> Seq<char>
    decreases s.len(),
{
    if s.len() == 0 {
        Seq::empty()
    } else if is_ascii_alpha(s.last()) {
        ascii_letters(s.drop_last()).push(ascii_lower(s.last()))
    } else {
        ascii_letters(s.drop_last())
    }
}

/// A title's trigram: its first three ASCII letters, lowercased; `gen` when it
/// has fewer than three.
pub open spec fn spec_trigram(title: Seq<char>) -> Seq<char> {
    if ascii_letters(title).len() >= 3 {
        ascii_letters(title).take(3)
    } else {
        "gen"@
    }
}

/// A title's trigram (first three ASCII letters, lowercased, else `gen`).
pub fn trigram(title: &str) -> (r: String)
    ensures
        r@ == spec_trigram(title@),
{
    proof {
        reveal_strlit("gen");
    }
    let v = chars_of(title);
    let mut a = String::new();
    let mut i: usize = 0;
    while i < v.len() && a.as_str().unicode_len() < 3
        invariant
            i <= v@.len(),
            v@ == title@,
            a@ == ascii_letters(v@.take(i as int)).take(if ascii_letters(v@.take(i as int)).len() < 3 {
                ascii_letters(v@.take(i as int)).len() as int
            } else {
                3
            }),
            ascii_letters(v@.take(i as int)).len() < 3 ==> a@ == ascii_letters(v@.take(i as int)),
            a@.len() <= 3,
        decreases v.len() - i,
    {
        let c = v[i];
        assert(v@.take(i + 1).drop_last() =~= v@.take(i as int));
        proof {
            lemma_letters_take_len(v@, i as int);
        }
        if ('a' <= c && c <= 'z') || ('A' <= c && c <= 'Z') {
            let l = if 'A' <= c && c <= 'Z' {
                ((c as u8) + 32) as char
            } else {
                c
            };
            push_char(&mut a, l);
        }
        assert(a@ =~= ascii_letters(v@.take(i + 1)).take(if ascii_letters(v@.take(i + 1)).len() < 3 {
            ascii_letters(v@.take(i + 1)).len() as int
        } else {
            3
        }));
        i += 1;
    }
    proof {
        if i == v.len() {
            assert(v@.take(i as int) =~= v@);
        } else {
            lemma_letters_grow(v@, i as int);
        }
    }
    if a.as_str().unicode_len() == 3 {
        a
    } else {
        "gen".to_string()
    }
}

proof fn lemma_letters_take_len(s: Seq<char>, i: int)
    requires
        0 <= i < s.len(),
    ensures
        ascii_letters(s.take(i + 1)).len() <= ascii_letters(s.take(i)).len() + 1,
        ascii_letters(s.take(i + 1)).len() >= ascii_letters(s.take(i)).len(),
{
    assert(s.take(i + 1).drop_last() =~= s.take(i));
}

/// Letters found in a prefix stay at the front of the letters of the whole.
proof fn lemma_letters_grow(s: Seq<char>, i: int)
    requires
        0 <= i <= s.len(),
    ensures
        ascii_letters(s).len() >= ascii_letters(s.take(i)).len(),
        ascii_letters(s).take(ascii_letters(s.take(i)).len() as int) == ascii_letters(s.take(i)),
    decreases s.len() - i,
{
    if i == s.len() {
        assert(s.take(i) =~= s);
    } else {
        lemma_letters_grow(s, i + 1);
        assert(s.take(i + 1).drop_last() =~= s.take(i));
        let a = ascii_letters(s.take(i));
        let b = ascii_letters(s.take(i + 1));
        assert(b.take(a.len() as int) =~= a);
        assert(ascii_letters(s).take(a.len() as int) =~= ascii_letters(s).take(b.len() as int).take(
            a.len() as int,
        ));
    }
}

/// The id prefix and number of `pre_NNN`: split at the last `_`, the tail
/// parsed as a `u32`.
pub open spec fn spec_id_prefix_num(id: Seq<char>) -> Option<(Seq<char>, nat)> {
    let p = crate::runs::last_index(id, '_');
    if p >= 0 {
        match spec_parse_uint(id.skip(p + 1), 0xFFFF_FFFFnat) {
            Some(n) => Some((id.take(p), n)),
            None => None,
        }
    } else {
        None
    }
}

/// Split `pre_NNN` into its prefix and number.
pub fn id_prefix_num(id: &str) -> (r: Option<(String, u32)>)
    ensures
        match r {
            Some((pre, n)) => spec_id_prefix_num(id@) == Some((pre@, n as nat)),
            None => spec_id_prefix_num(id@) is None,
        },
{
    let v = chars_of(id);
    let mut p: usize = v.len();
    assert(v@.take(p as int) =~= v@);
    while p > 0 && v[p - 1] != '_'
        invariant
            p <= v@.len(),
            v@ == id@,
            crate::runs::last_index(v@, '_') == crate::runs::last_index(v@.take(p as int), '_'),
        decreases p,
    {
        assert(v@.take(p as int).drop_last() =~= v@.take(p - 1));
        p -= 1;
    }
    proof {
        if p == v.len() {
            assert(v@.take(p as int) =~= v@);
        }
    }
    if p == 0 {
        assert(v@.take(0) =~= Seq::<char>::empty());
        return None;
    }
    assert(crate::runs::last_index(v@.take(p as int), '_') == p - 1);
    assert(v@.skip(p as int) =~= v@.subrange(p as int, v@.len() as int));
    match parse_uint(&v, p, v.len(), 0xFFFF_FFFF) {
        Some(n) => {
            assert(v@.take(p - 1) =~= v@.subrange(0, p - 1));
            Some((string_of(&v, 0, p - 1), n as u32))
        },
        None => None,
    }
}

// ─── the manual ─────────────────────────────────────────────────────────────

/// The terse interface, self-describing — an agent reads this once to drive the
/// tool. Emitted by `usage` / `help`.
pub const USAGE: &'static str = r#"arte-tui — a design-truth board. Be CONSCIOUS of what you change and why.
The board is your externalized reasoning: every element links up a chain to the
intent it serves. Don't edit blind — map first, then act.

PROTOCOL (always)
  1. observe + coverage — read the map before doing anything.
  2. Comprehend first. Existing code: reconstruct the WHOLE map — the INTENTS
     (the why) AND impl→control→validation realizing them, all linked — before
     editing. Empty project: define the intents with the user first, then plan
     and implement.
  3. Link every element up the chain (serves) and leave a note with your
     reasoning. No orphan element (no intent), no intent without realization.
  4. coverage is your completeness meter; status asserts truth (the tool judges
     structure, never substance — it won't guess correctness for you).
Identity = the visible title string (deduped). Links are by title.

READ
  observe [addr]   state digest; addr narrows depth (page → cols → items → one item)
  coverage         audit: per-intent gap matrix + counts + orphans (intent←impl←ctrl←val)
  trace  <addr|id>  reverse trace: what this item ultimately satisfies (walks up)
  snapshot         full state as one JSON document (incl. the audit block)
  gate             PreToolUse check: is the `work` focus backed by impl+control?
                   (exit 0 = allow code change; exit 2 = block with guidance)
  init [--agent X [--enforce]]   seed the 4-layer board; wire an agent's hook/convention
  autoid           assign stable lvl_area_NNN ids to id-less items (area from the chain)
  verify [--sync]  reconcile @trace <id> tags in code vs board; --sync writes `at`
  merge <O> <A> <B>  git merge driver: 3-way semantic merge of the board → A

ADDRESS  page/col/item   — OR a bare id / "title" (most efficient: no observe round-trip)
  page = surface id (e.g. impl)   col = index or key (e.g. fe)
  item = index | + (add slot) | h (header)
  bare = a stable id (tsts_sco_001) or a single-word/"quoted" title resolves the
         item globally — edit by what you named it, robust to reordering. e.g.
         status tsts_sco_001 ko   ·   comment tsts_sco_001 "flaky"

DRIVE
  add  <col> "text" ["link"…] [status ok|ko|pending|na]
                   add an element; links + status inline
  set  <addr> "text" ["link"…] [status …]
                   edit text (+links/status); set <col>/h "name" renames the header
  link   <addr> "title"…   set `serves` = title(s) one layer up; bare clears
  status <addr> ok|ko|pending|justified|na   (justified = failed but accepted)
  note   <addr> "line"…    the how/what description (a list); bare clears
  attach <addr> "ref"…     attachment paths/URLs (pointers, not bytes); bare clears
  at     <addr> "loc"…     realization locator(s) file#unit (where it's built); bare clears
  cat    <addr> "category"  free category tag / control method; bare clears
  id     <addr> "tsts_sco_001"  stable ref, shape lvl_area_NNN: innt|impl|ctrl|tsts
                   _ functional-area trigram _ 3 digits (trigram = high-level
                   functionality, reuse existing ones); bare clears
  comment <addr> "text"    remark on the RESULT (pairs with status); bare clears
  derive <addr> [off]      mark a parentless item as a derived requirement (not an
                   orphan) — the justified-twin on the trace axis; rationale in note
  sha    <addr> "abc1234"   the commit the item was tested/verified against; bare clears

CONTROL.SPEC governs the build — each row is a rule a component must satisfy
(and a testable contract). Rows read "<component> [method] <detail>":
  link → the component it constrains · cat → the method · text → the detail
  (comma detail renders as chips). Methods are free strings; software suggests:
  take emits limit connect requires authz guards on-error retains idempotent
  e.g.  add control/rules "pdf, png"; link control/rules/0 "Document ingestion"; cat control/rules/0 take
  A control is a TESTABLE CONTRACT: derive validation.rep cases from it — a proof
  item that `serves` the control ([take] pdf → "accepts pdf" / "rejects bmp").
  A validation case = id + name(text) + status + comment(on the result); note =
  what the test does, attach = a link to the test code. status = ok|ko|pending|
  justified; a JUSTIFIED fail is accepted — say why in `comment`. coverage flags
  any control with no test, and a justified test never reads as a failure.
  work   "title"…          highlight an intent across layers; bare clears
                   (auto-clears a title once its chain is fully done — covered + green)
  mv <addr> <±n>          reorder      del <addr>      delcol = del <col>/h
  addcol <page> "header" [key]        setcol = set <col>/h "header"
  addpage <id> "title" [list|cards|panel|sheet]   build a layer    delpage <id>
  setstyle <page> list|cards|panel|sheet          renamepage <id> "title"
  sel <addr>    page <id>    undo    redo

Status is producer-set; the tool judges structure (coverage), never substance."#;

// ─── merging links and scalars ──────────────────────────────────────────────

/// `a`, then each element of `b` not already present, in order.
pub open spec fn spec_union(a: Seq<Seq<char>>, b: Seq<Seq<char>>) -> Seq<Seq<char>>
    decreases b.len(),
{
    if b.len() == 0 {
        a
    } else {
        let v = spec_union(a, b.drop_last());
        if v.contains(b.last()) {
            v
        } else {
            v.push(b.last())
        }
    }
}

fn contains_str_in(v: &Vec<String>, s: &String) -> (r: bool)
    ensures
        r == svec(v@).contains(s@),
{
    crate::graph::contains_string(v, s.as_str())
}

/// Additive union of two link lists: `a`, then what `b` adds.
pub fn union(a: &[String], b: &[String]) -> (r: Vec<String>)
    ensures
        svec(r@) == spec_union(svec(a@), svec(b@)),
{
    let mut v: Vec<String> = Vec::new();
    let mut i: usize = 0;
    while i < a.len()
        invariant
            i <= a@.len(),
            svec(v@) == svec(a@).take(i as int),
        decreases a.len() - i,
    {
        let ghost before = v@;
        v.push(a[i].clone());
        assert(svec(v@) =~= svec(before).push(a@[i as int]@));
        assert(svec(v@) =~= svec(a@).take(i + 1));
        i += 1;
    }
    assert(svec(a@).take(i as int) =~= svec(a@));
    let mut j: usize = 0;
    while j < b.len()
        invariant
            j <= b@.len(),
            svec(v@) == spec_union(svec(a@), svec(b@).take(j as int)),
        decreases b.len() - j,
    {
        assert(svec(b@).take(j + 1).drop_last() =~= svec(b@).take(j as int));
        assert(svec(b@).take(j + 1).last() == b@[j as int]@);
        if !contains_str_in(&v, &b[j]) {
            let ghost before = v@;
            v.push(b[j].clone());
            assert(svec(v@) =~= svec(before).push(b@[j as int]@));
        }
        j += 1;
    }
    assert(svec(b@).take(j as int) =~= svec(b@));
    v
}

/// Three-way scalar merge: the side that changed from `base`; when both
/// changed differently, ours, flagged as a conflict.
pub open spec fn spec_pick3<T>(base: Option<T>, ours: Option<T>, theirs: Option<T>) -> (Option<T>, bool) {
    if ours == theirs {
        (ours, false)
    } else if ours == base {
        (theirs, false)
    } else if theirs == base {
        (ours, false)
    } else {
        (ours, true)
    }
}

pub(crate) fn opt_eq(a: &Option<String>, b: &Option<String>) -> (r: bool)
    ensures
        r == (sopt(*a) == sopt(*b)),
{
    match (a, b) {
        (Some(x), Some(y)) => str_eq(x.as_str(), y.as_str()),
        (None, None) => true,
        _ => false,
    }
}

pub(crate) fn opt_clone(a: &Option<String>) -> (r: Option<String>)
    ensures
        sopt(r) == sopt(*a),
{
    match a {
        Some(x) => Some(x.clone()),
        None => None,
    }
}

/// 3-way scalar: take the side that changed from base; both changed → keep
/// ours + conflict.
pub fn pick3(base: &Option<String>, ours: &Option<String>, theirs: &Option<String>) -> (r: (
    Option<String>,
    bool,
))
    ensures
        (sopt(r.0), r.1) == spec_pick3(sopt(*base), sopt(*ours), sopt(*theirs)),
{
    if opt_eq(ours, theirs) {
        (opt_clone(ours), false)
    } else if opt_eq(ours, base) {
        (opt_clone(theirs), false)
    } else if opt_eq(theirs, base) {
        (opt_clone(ours), false)
    } else {
        (opt_clone(ours), true)
    }
}

/// 3-way merge of a status, as `pick3`.
pub fn pick3_status(base: Option<Status>, ours: Option<Status>, theirs: Option<Status>) -> (r: (
    Option<Status>,
    bool,
))
    ensures
        r == spec_pick3(base, ours, theirs),
{
    if ours == theirs {
        (ours, false)
    } else if ours == base {
        (theirs, false)
    } else if theirs == base {
        (ours, false)
    } else {
        (ours, true)
    }
}

/// A merge takes no side when both sides agree, and takes the one side that
/// changed; a conflict needs both sides to have changed differently.
pub proof fn law_pick3<T>(base: Option<T>, ours: Option<T>, theirs: Option<T>)
    ensures
        ours == theirs ==> spec_pick3(base, ours, theirs) == (ours, false),
        ours == base ==> spec_pick3(base, ours, theirs).0 == theirs,
        theirs == base ==> spec_pick3(base, ours, theirs).0 == ours,
        spec_pick3(base, ours, theirs).1 <==> (ours != theirs && ours != base && theirs != base),
{
}

// ─── item digests ───────────────────────────────────────────────────────────

/// The strings of `v` joined by `sep`.
pub open spec fn join(v: Seq<Seq<char>>, sep: Seq<char>) -> Seq<char>
    decreases v.len(),
{
    if v.len() == 0 {
        Seq::empty()
    } else if v.len() == 1 {
        v[0]
    } else {
        join(v.drop_last(), sep) + sep + v.last()
    }
}

/// Appends the strings of `v` joined by `sep`.
pub fn push_joined(out: &mut String, v: &Vec<String>, sep: &str)
    ensures
        final(out)@ == old(out)@ + join(svec(v@), sep@),
{
    let mut i: usize = 0;
    while i < v.len()
        invariant
            i <= v@.len(),
            out@ == old(out)@ + join(svec(v@).take(i as int), sep@),
        decreases v.len() - i,
    {
        let ghost t = svec(v@).take(i + 1);
        assert(t.drop_last() =~= svec(v@).take(i as int));
        assert(t.last() == v@[i as int]@);
        if i > 0 {
            push_str(out, sep);
        }
        push_str(out, v[i].as_str());
        proof {
            if i == 0 {
                assert(svec(v@).take(0) =~= Seq::<Seq<char>>::empty());
            }
        }
        assert(out@ =~= old(out)@ + join(t, sep@));
        i += 1;
    }
    assert(svec(v@).take(i as int) =~= svec(v@));
}

pub open spec fn opt_part(prefix: Seq<char>, o: Option<Seq<char>>) -> Seq<char> {
    match o {
        Some(v) => prefix + v,
        None => Seq::empty(),
    }
}

pub open spec fn serves_part(it: ItemModel) -> Seq<char> {
    if it.serves.len() > 0 {
        "  ⇒ "@ + join(it.serves, ", "@)
    } else {
        Seq::empty()
    }
}

pub open spec fn status_part(it: ItemModel) -> Seq<char> {
    match it.status {
        Some(st) => "  ["@ + spec_status_word(st) + "]"@,
        None => Seq::empty(),
    }
}

pub open spec fn marks_part(it: ItemModel) -> Seq<char> {
    (if it.note.len() > 0 {
        " *"@
    } else {
        Seq::empty()
    }) + (if it.attachments.len() > 0 {
        " @"@ + decimal(it.attachments.len())
    } else {
        Seq::empty()
    })
}

/// How many characters of a commit sha are shown; the sha is recorded whole,
/// and every surface shows this one width.
pub const SHA_DISPLAY_LEN: usize = 7;

pub open spec fn tail_part(it: ItemModel) -> Seq<char> {
    opt_part("  ~"@, it.comment) + (if it.derived {
        "  (derived)"@
    } else {
        Seq::empty()
    }) + match it.sha {
        Some(h) => "  @"@ + h.take(if h.len() < SHA_DISPLAY_LEN { h.len() as int } else { SHA_DISPLAY_LEN as int }),
        None => Seq::empty(),
    }
}

/// The trailing digest of an item for `observe`: id, category, links, status,
/// note and attachment marks, result comment, derived mark, short sha.
pub open spec fn spec_item_suffix(it: ItemModel) -> Seq<char> {
    opt_part("  #"@, it.id) + opt_part("  ·"@, it.category) + serves_part(it) + status_part(it)
        + marks_part(it) + tail_part(it)
}

fn push_opt(out: &mut String, prefix: &str, o: &Option<String>)
    ensures
        final(out)@ == old(out)@ + opt_part(prefix@, sopt(*o)),
{
    match o {
        Some(v) => {
            push_str(out, prefix);
            push_str(out, v.as_str());
        },
        None => {},
    }
}

fn push_serves_part(out: &mut String, item: &Item)
    ensures
        final(out)@ == old(out)@ + serves_part(item@),
{
    proof {
        reveal_strlit("  ⇒ ");
        reveal_strlit(", ");
    }
    if item.serves.len() > 0 {
        push_str(out, "  ⇒ ");
        push_joined(out, &item.serves, ", ");
    }
}

fn push_status_part(out: &mut String, item: &Item)
    ensures
        final(out)@ == old(out)@ + status_part(item@),
{
    proof {
        reveal_strlit("  [");
        reveal_strlit("]");
    }
    match item.status {
        Some(st) => {
            push_str(out, "  [");
            push_str(out, status_word(st));
            push_str(out, "]");
        },
        None => {},
    }
}

fn push_marks_part(out: &mut String, item: &Item)
    ensures
        final(out)@ == old(out)@ + marks_part(item@),
{
    proof {
        reveal_strlit(" *");
        reveal_strlit(" @");
    }
    if item.note.len() > 0 {
        push_str(out, " *");
    }
    let ghost mid = out@;
    if item.attachments.len() > 0 {
        push_str(out, " @");
        push_decimal(out, item.attachments.len() as u64);
    }
    assert(out@ =~= old(out)@ + marks_part(item@));
}

fn push_tail_part(out: &mut String, item: &Item)
    ensures
        final(out)@ == old(out)@ + tail_part(item@),
{
    proof {
        reveal_strlit("  ~");
        reveal_strlit("  (derived)");
        reveal_strlit("  @");
    }
    push_opt(out, "  ~", &item.comment);
    if item.derived {
        push_str(out, "  (derived)");
    }
    match &item.sha {
        Some(h) => {
            push_str(out, "  @");
            let hv = chars_of(h.as_str());
            let n = if hv.len() < SHA_DISPLAY_LEN { hv.len() } else { SHA_DISPLAY_LEN };
            let head = string_of(&hv, 0, n);
            push_str(out, head.as_str());
            assert(hv@.subrange(0, n as int) =~= hv@.take(n as int));
        },
        None => {},
    }
    assert(out@ =~= old(out)@ + tail_part(item@));
}

/// Trailing link/status info for observe: "  ⇒ a, b  [pending]".
pub fn item_suffix(item: &Item) -> (r: String)
    ensures
        r@ == spec_item_suffix(item@),
{
    proof {
        reveal_strlit("  #");
        reveal_strlit("  ·");
    }
    let mut s = String::new();
    push_opt(&mut s, "  #", &item.id);
    push_opt(&mut s, "  ·", &item.category);
    push_serves_part(&mut s, item);
    push_status_part(&mut s, item);
    push_marks_part(&mut s, item);
    push_tail_part(&mut s, item);
    assert(s@ =~= spec_item_suffix(item@));
    s
}

/// "  (serves: a, b)" for the footer when an item is linked, else empty.
pub fn serves_hint(item: &Item) -> (r: String)
    ensures
        r@ == if item@.serves.len() > 0 {
            "  (serves: "@ + join(item@.serves, ", "@) + ")"@
        } else {
            Seq::empty()
        },
{
    proof {
        reveal_strlit("  (serves: ");
        reveal_strlit(", ");
        reveal_strlit(")");
    }
    let mut s = String::new();
    if item.serves.len() > 0 {
        push_str(&mut s, "  (serves: ");
        push_joined(&mut s, &item.serves, ", ");
        push_str(&mut s, ")");
        assert(s@ =~= "  (serves: "@ + join(item@.serves, ", "@) + ")"@);
    }
    s
}

/// Compact has-detail marks for a board element: `*` note, `@` attachment.
pub fn detail_marks(item: &Item) -> (r: String)
    ensures
        r@ == (if item@.note.len() > 0 {
            seq!['*']
        } else {
            Seq::empty()
        }) + (if item@.attachments.len() > 0 {
            seq!['@']
        } else {
            Seq::empty()
        }),
{
    let mut s = String::new();
    if item.note.len() > 0 {
        push_char(&mut s, '*');
    }
    if item.attachments.len() > 0 {
        push_char(&mut s, '@');
    }
    assert(s@ =~= (if item@.note.len() > 0 {
        seq!['*']
    } else {
        Seq::empty()
    }) + (if item@.attachments.len() > 0 {
        seq!['@']
    } else {
        Seq::empty()
    }));
    s
}

// ─── addressing: page[/col[/item]] ──────────────────────────────────────────

/// A parsed address: page, then optional column and item tokens.
pub struct Addr {
    pub page: String,
    pub col: Option<String>,
    pub item: Option<String>,
}

/// The `i`-th `/` piece of an address, when present and not empty.
pub open spec fn addr_piece(s: Seq<char>, i: int) -> Option<Seq<char>> {
    let p = split_on(s, '/');
    if i < p.len() && p[i].len() > 0 {
        Some(p[i])
    } else {
        None
    }
}

/// Split `page/col/item`; empty column or item pieces read as absent.
pub fn parse_addr(s: &str) -> (r: Addr)
    ensures
        r.page@ == split_on(s@, '/')[0],
        sopt(r.col) == addr_piece(s@, 1),
        sopt(r.item) == addr_piece(s@, 2),
{
    let v = chars_of(s);
    let p = split_bounds(&v, '/', 0, v.len());
    assert(v@.subrange(0, v@.len() as int) =~= s@);
    proof {
        crate::conf::lemma_split_nonempty(s@, '/');
    }
    let (a0, b0) = p[0];
    let page = string_of(&v, a0, b0);
    let col = if p.len() > 1 && p[1].1 > p[1].0 {
        Some(string_of(&v, p[1].0, p[1].1))
    } else {
        None
    };
    let item = if p.len() > 2 && p[2].1 > p[2].0 {
        Some(string_of(&v, p[2].0, p[2].1))
    } else {
        None
    };
    Addr { page, col, item }
}

/// Why an address did not resolve.
#[derive(Debug, Clone, Copy, PartialEq, Eq, Structural)]
pub enum AddrError {
    /// No column has that index or key.
    NoColumn,
    /// The item token is neither an index nor `+`.
    BadItem,
}

pub open spec fn key_is(c: BoardColumn, tok: Seq<char>) -> bool {
    sopt(c.key) == Some(tok)
}

/// The first column keyed `tok`.
pub open spec fn key_pos_col(cols: Seq<BoardColumn>, tok: Seq<char>) -> Option<int>
    decreases cols.len(),
{
    if cols.len() == 0 {
        None
    } else if key_is(cols[0], tok) {
        Some(0)
    } else {
        match key_pos_col(cols.drop_first(), tok) {
            Some(i) => Some(i + 1),
            None => None,
        }
    }
}

/// A column token: an index in range, else the first column keyed so.
pub open spec fn spec_resolve_col(cols: Seq<BoardColumn>, tok: Seq<char>) -> Result<usize, AddrError> {
    match spec_parse_uint(tok, usize::MAX as nat) {
        Some(i) if i < cols.len() => Ok(i as usize),
        _ => match key_pos_col(cols, tok) {
            Some(j) => Ok(j as usize),
            None => Err(AddrError::NoColumn),
        },
    }
}

/// Resolve a column token (index or key) to an index.
pub fn resolve_col(cols: &[BoardColumn], tok: &str) -> (r: Result<usize, AddrError>)
    ensures
        r == spec_resolve_col(cols@, tok@),
{
    let t = chars_of(tok);
    assert(t@.subrange(0, t@.len() as int) =~= tok@);
    match parse_uint(&t, 0, t.len(), usize::MAX as u64) {
        Some(i) => {
            if (i as usize) < cols.len() {
                return Ok(i as usize);
            }
        },
        None => {},
    }
    let mut j: usize = 0;
    assert(cols@.skip(0) =~= cols@);
    while j < cols.len()
        invariant
            j <= cols@.len(),
            !(spec_parse_uint(tok@, usize::MAX as nat) matches Some(i) && i < cols@.len()),
            key_pos_col(cols@, tok@) == match key_pos_col(cols@.skip(j as int), tok@) {
                Some(k) => Some(k + j),
                None => None,
            },
        decreases cols.len() - j,
    {
        assert(cols@.skip(j as int)[0] == cols@[j as int]);
        let hit = match &cols[j].key {
            Some(k) => str_eq(k.as_str(), tok),
            None => false,
        };
        if hit {
            return Ok(j);
        }
        assert(cols@.skip(j as int).drop_first() =~= cols@.skip(j + 1));
        j += 1;
    }
    assert(cols@.skip(j as int) =~= Seq::<BoardColumn>::empty());
    Err(AddrError::NoColumn)
}

/// An item token: `+` is the add slot past the last item, else an index.
pub open spec fn spec_resolve_item(n: nat, tok: Seq<char>) -> Result<usize, AddrError> {
    if tok == "+"@ {
        Ok(n as usize)
    } else {
        match spec_parse_uint(tok, usize::MAX as nat) {
            Some(i) => Ok(i as usize),
            None => Err(AddrError::BadItem),
        }
    }
}

/// Resolve an item token: index, or `+` = the trailing add slot.
pub fn resolve_item(col: &BoardColumn, tok: &str) -> (r: Result<usize, AddrError>)
    ensures
        r == spec_resolve_item(col.items@.len(), tok@),
{
    proof {
        reveal_strlit("+");
    }
    if str_eq(tok, "+") {
        return Ok(col.items.len());
    }
    let t = chars_of(tok);
    assert(t@.subrange(0, t@.len() as int) =~= tok@);
    match parse_uint(&t, 0, t.len(), usize::MAX as u64) {
        Some(i) => Ok(i as usize),
        None => Err(AddrError::BadItem),
    }
}

} // verus!
