//! The viewer's state helpers: unique item titles within a column, header
//! parts, grid lanes, ages, byte offsets and the stable scroll window.
use vstd::prelude::*;

use crate::agent::{utf8_len, utf8_width};
use crate::ident::{decimal, lemma_decimal_injective, lemma_pigeonhole, push_decimal};
use crate::protocol::{svec, BoardColumn, Item, ItemModel};
use crate::runs::{parse_uint, spec_parse_uint};
use crate::text::{chars_of, push_char, str_eq, string_of, to_owned, trim, trim_range};

verus! {

// ─── unique titles ──────────────────────────────────────────────────────────

/// The `n`th renaming of a colliding name: `"<t><sep><n>"`.
pub open spec fn tagged(t: Seq<char>, sep: char, n: nat) -> Seq<char> {
    t + seq![sep] + decimal(n)
}

/// `out` is what name `t` becomes after the names `prev`: itself when free,
/// else `"<t><sep><n>"` for the least `n >= 2` that is free.
pub open spec fn fresh_step(prev: Seq<Seq<char>>, t: Seq<char>, sep: char, out: Seq<char>) -> bool {
    if !prev.contains(t) {
        out == t
    } else {
        exists|n: nat|
            #![trigger tagged(t, sep, n)]
            n >= 2 && out == tagged(t, sep, n) && !prev.contains(out) && forall|j: nat|
                2 <= j < n ==> prev.contains(#[trigger] tagged(t, sep, j))
    }
}

/// The `n`th renaming of a colliding title: `"<t> <n>"`.
pub open spec fn numbered(t: Seq<char>, n: nat) -> Seq<char> {
    tagged(t, ' ', n)
}

/// `out` is what title `t` becomes after the titles `prev`: itself when free,
/// else `"<t> <n>"` for the least `n >= 2` that is free.
pub open spec fn dedup_step(prev: Seq<Seq<char>>, t: Seq<char>, out: Seq<char>) -> bool {
    fresh_step(prev, t, ' ', out)
}

/// `out` renames the titles `orig` in order, each against the titles before it.
pub open spec fn deduped(orig: Seq<Seq<char>>, out: Seq<Seq<char>>) -> bool {
    &&& out.len() == orig.len()
    &&& forall|k: int| 0 <= k < orig.len() ==> dedup_step(out.take(k), #[trigger] orig[k], out[k])
}

pub open spec fn texts(items: Seq<ItemModel>) -> Seq<Seq<char>> {
    items.map_values(|i: ItemModel| i.text)
}

/// After renaming, no title occurs twice.
pub proof fn law_deduped_titles_are_unique(orig: Seq<Seq<char>>, out: Seq<Seq<char>>)
    requires
        deduped(orig, out),
    ensures
        out.no_duplicates(),
{
    assert forall|i: int, j: int| 0 <= i < out.len() && 0 <= j < out.len() && i != j implies out[i] != out[j] by {
        let (a, b) = if i < j { (i, j) } else { (j, i) };
        assert(dedup_step(out.take(b), orig[b], out[b]));
        assert(out.take(b)[a] == out[a]);
        assert(out.take(b).contains(out[a]));
    }
}

fn contains_text(v: &Vec<String>, s: &String) -> (r: bool)
    ensures
        r == svec(v@).contains(s@),
{
    crate::graph::contains_string(v, s.as_str())
}

/// The name `t` gets after the names `seen`, renamed with `sep` and a
/// number on a collision.
pub(crate) fn free_name(seen: &Vec<String>, t: &String, sep: char) -> (r: String)
    requires
        seen@.len() < usize::MAX - 2,
    ensures
        fresh_step(svec(seen@), t@, sep, r@),
{
    if !contains_text(seen, t) {
        return t.clone();
    }
    let ghost ex = svec(seen@);
    let mut n: usize = 2;
    loop
        invariant
            2 <= n <= seen@.len() + 2,
            seen@.len() < usize::MAX - 2,
            ex == svec(seen@),
            ex.contains(t@),
            forall|j: nat| 2 <= j < n ==> ex.contains(#[trigger] tagged(t@, sep, j)),
        decreases seen@.len() + 2 - n,
    {
        let mut id = t.clone();
        push_char(&mut id, sep);
        push_decimal(&mut id, n as u64);
        assert(id@ =~= tagged(t@, sep, n as nat));
        if !contains_text(seen, &id) {
            return id;
        }
        proof {
            let m: int = n - 1;
            let b = t@;
            let f = |i: int| choose|k: int| 0 <= k < ex.len() && ex[k] == tagged(b, sep, (i + 2) as nat);
            assert forall|i: int| 0 <= i < m implies 0 <= #[trigger] f(i) < seen@.len() by {
                assert(ex.contains(tagged(b, sep, (i + 2) as nat)));
            }
            assert forall|i: int, j: int| 0 <= i < m && 0 <= j < m && i != j implies #[trigger] f(i) != #[trigger] f(
                j,
            ) by {
                assert(ex.contains(tagged(b, sep, (i + 2) as nat)));
                assert(ex.contains(tagged(b, sep, (j + 2) as nat)));
                if f(i) == f(j) {
                    let ci = tagged(b, sep, (i + 2) as nat);
                    let cj = tagged(b, sep, (j + 2) as nat);
                    assert(ci.skip(b.len() as int + 1) =~= decimal((i + 2) as nat));
                    assert(cj.skip(b.len() as int + 1) =~= decimal((j + 2) as nat));
                    lemma_decimal_injective((i + 2) as nat, (j + 2) as nat);
                }
            }
            lemma_pigeonhole(f, m, seen@.len() as int);
        }
        n += 1;
    }
}

/// Make item texts unique within a column (text is identity) by appending
/// " 2", " 3", … to collisions; nothing else about the column changes.
pub fn dedupe_items(col: &mut BoardColumn)
    requires
        old(col).items@.len() < usize::MAX - 2,
    ensures
        final(col).header == old(col).header,
        final(col).key == old(col).key,
        final(col).items@.len() == old(col).items@.len(),
        forall|k: int|
            0 <= k < old(col).items@.len() ==> (#[trigger] final(col).items@[k])@ == (ItemModel {
                text: final(col).items@[k]@.text,
                ..old(col).items@[k]@
            }),
        deduped(
            texts(old(col).items@.map_values(|i: Item| i@)),
            texts(final(col).items@.map_values(|i: Item| i@)),
        ),
{
    let ghost orig = texts(old(col).items@.map_values(|i: Item| i@));
    let ghost before = old(col).items@;
    let mut seen: Vec<String> = Vec::new();
    let mut i: usize = 0;
    while i < col.items.len()
        invariant
            col.items@.len() == before.len(),
            before.len() < usize::MAX - 2,
            orig == texts(before.map_values(|i: Item| i@)),
            col.header == old(col).header,
            col.key == old(col).key,
            i <= col.items@.len(),
            seen@.len() == i,
            forall|k: int| 0 <= k < i ==> (#[trigger] seen@[k])@ == col.items@[k]@.text,
            forall|k: int| 0 <= k < i ==> dedup_step(svec(seen@).take(k), orig[k], #[trigger] svec(seen@)[k]),
            forall|k: int|
                0 <= k < col.items@.len() ==> (#[trigger] col.items@[k])@ == (ItemModel {
                    text: col.items@[k]@.text,
                    ..before[k]@
                }),
            forall|k: int| i <= k < col.items@.len() ==> #[trigger] col.items@[k]@.text == before[k]@.text,
        decreases before.len() - i,
    {
        let t = free_name(&seen, &col.items[i].text, ' ');
        let ghost prev = svec(seen@);
        assert(col.items@[i as int]@.text == orig[i as int]);
        let ghost tv = t@;
        let ghost old_seen = seen@;
        col.items[i].text = t.clone();
        seen.push(t);
        proof {
            assert(svec(seen@).take(i as int) =~= prev);
            assert(svec(seen@)[i as int] == tv);
            assert forall|k: int| 0 <= k < i + 1 implies dedup_step(svec(seen@).take(k), orig[k], #[trigger] svec(seen@)[k]) by {
                if k < i {
                    assert(svec(seen@).take(k) =~= svec(old_seen).take(k));
                    assert(svec(seen@)[k] == svec(old_seen)[k]);
                }
            }
        }
        i += 1;
    }
    proof {
        let outv = texts(col.items@.map_values(|i: Item| i@));
        assert(outv =~= svec(seen@));
    }
}

// ─── headers, lanes, ages ───────────────────────────────────────────────────

/// Index of the first `" — "` in `s`, or `s.len()`.
pub open spec fn dash_at(s: Seq<char>) -> int
    decreases s.len(),
{
    if s.len() < 3 {
        s.len() as int
    } else if s.take(3) == seq![' ', '—', ' '] {
        0
    } else {
        1 + dash_at(s.drop_first())
    }
}

/// A header split into (name, prompt) on the first `" — "`; no separator
/// means it is all name.
pub open spec fn spec_split_header(h: Seq<char>) -> (Seq<char>, Seq<char>) {
    let i = dash_at(h);
    if i < h.len() {
        (h.take(i), h.skip(i + 3))
    } else {
        (h, Seq::empty())
    }
}

/// The separator `" — "` starts at `j`.
pub open spec fn sep_at(s: Seq<char>, j: int) -> bool {
    0 <= j && j + 3 <= s.len() && s.subrange(j, j + 3) == seq![' ', '—', ' ']
}

proof fn lemma_dash_at(s: Seq<char>, k: int)
    requires
        0 <= k <= s.len(),
        forall|j: int| 0 <= j < k ==> !#[trigger] sep_at(s, j),
        k + 3 <= s.len() ==> sep_at(s, k),
        k + 3 > s.len() ==> k == s.len(),
    ensures
        dash_at(s) == k,
    decreases s.len(),
{
    if s.len() >= 3 {
        assert(s.take(3) =~= s.subrange(0, 3));
        if k > 0 {
            assert(!sep_at(s, 0));
            assert forall|j: int| 0 <= j < k - 1 implies !#[trigger] sep_at(s.drop_first(), j) by {
                assert(!sep_at(s, j + 1));
                if j + 3 <= s.drop_first().len() {
                    assert(s.drop_first().subrange(j, j + 3) =~= s.subrange(j + 1, j + 4));
                }
            }
            if k - 1 + 3 <= s.drop_first().len() {
                assert(s.drop_first().subrange(k - 1, k + 2) =~= s.subrange(k, k + 3));
            }
            lemma_dash_at(s.drop_first(), k - 1);
        }
    }
}

/// Split a header into (name, prompt) on the first `" — "`. No separator → all name.
pub fn split_header(h: &str) -> (r: (String, String))
    ensures
        (r.0@, r.1@) == spec_split_header(h@),
{
    let v = chars_of(h);
    let n = v.len();
    let mut i: usize = 0;
    while i < n && n - i >= 3 && !(v[i] == ' ' && v[i + 1] == '—' && v[i + 2] == ' ')
        invariant
            n == v@.len(),
            v@ == h@,
            i <= n,
            forall|j: int| 0 <= j < i ==> !#[trigger] sep_at(v@, j),
        decreases n - i,
    {
        assert(v@.subrange(i as int, i + 3)[0] == v@[i as int]);
        assert(v@.subrange(i as int, i + 3)[1] == v@[i + 1]);
        assert(v@.subrange(i as int, i + 3)[2] == v@[i + 2]);
        i += 1;
    }
    if i < n && n - i >= 3 {
        assert(v@.subrange(i as int, i + 3) =~= seq![' ', '—', ' ']);
        proof {
            lemma_dash_at(v@, i as int);
        }
        let a = string_of(&v, 0, i);
        let b = string_of(&v, i + 3, n);
        assert(v@.subrange(0, i as int) =~= v@.take(i as int));
        assert(v@.subrange(i + 3, n as int) =~= v@.skip(i + 3));
        (a, b)
    } else {
        proof {
            assert forall|j: int| 0 <= j < n implies !#[trigger] sep_at(v@, j) by {
                if j >= i {
                    assert(j + 3 > n);
                }
            }
            lemma_dash_at(v@, n as int);
        }
        (to_owned(h), String::new())
    }
}

/// The bottom-most pillar in `lane` of a grid of `n` cells in `k` lanes: the
/// largest index below `n` that is `lane` modulo `k`.
pub fn last_in_lane(lane: usize, n: usize, k: usize) -> (r: usize)
    requires
        k > 0,
        lane < n,
    ensures
        r == lane + k * ((n - 1 - lane) as int / k as int),
        r < n,
        r % k == lane % k,
        r + k >= n,
{
    let q = (n - 1 - lane) / k;
    assert(k * q <= n - 1 - lane) by (nonlinear_arith)
        requires
            q == (n - 1 - lane) as int / k as int,
            k > 0,
            n - 1 - lane >= 0,
    ;
    assert(k * q + k > n - 1 - lane) by (nonlinear_arith)
        requires
            q == (n - 1 - lane) as int / k as int,
            k > 0,
            n - 1 - lane >= 0,
    ;
    let r = lane + k * q;
    assert(r % k == lane % k) by (nonlinear_arith)
        requires
            r == lane + k * q,
            k > 0,
            q >= 0,
            lane >= 0,
    {
        vstd::arithmetic::div_mod::lemma_mod_multiples_vanish(q as int, lane as int, k as int);
    }
    r
}

/// An age like `7d`, `24h`, `30m` or bare seconds, in seconds: the number
/// (a `u64` numeral, else 0) times the unit, saturating.
pub open spec fn spec_parse_age(s: Seq<char>) -> nat {
    let t = trim(s);
    let (num, mult) = if t.len() > 0 && t.last() == 'd' {
        (t.drop_last(), 86400nat)
    } else if t.len() > 0 && t.last() == 'h' {
        (t.drop_last(), 3600nat)
    } else if t.len() > 0 && t.last() == 'm' {
        (t.drop_last(), 60nat)
    } else {
        (t, 1nat)
    };
    let v = match spec_parse_uint(num, 0xFFFF_FFFF_FFFF_FFFFnat) {
        Some(x) => x,
        None => 0,
    };
    if v * mult > 0xFFFF_FFFF_FFFF_FFFFnat {
        0xFFFF_FFFF_FFFF_FFFFnat
    } else {
        v * mult
    }
}

/// Parse a `since:` age like `7d` / `24h` / `30m` (bare = seconds) into seconds.
pub fn parse_age(s: &str) -> (r: u64)
    ensures
        r as nat == spec_parse_age(s@),
{
    let v = chars_of(s);
    let (a, b) = trim_range(&v, 0, v.len());
    assert(v@.subrange(0, v@.len() as int) =~= s@);
    let (hi, mult): (usize, u64) = if b > a && v[b - 1] == 'd' {
        (b - 1, 86400)
    } else if b > a && v[b - 1] == 'h' {
        (b - 1, 3600)
    } else if b > a && v[b - 1] == 'm' {
        (b - 1, 60)
    } else {
        (b, 1)
    };
    assert(v@.subrange(a as int, hi as int) =~= if b > a && (v@[b - 1] == 'd' || v@[b - 1] == 'h' || v@[b
        - 1] == 'm') {
        v@.subrange(a as int, b as int).drop_last()
    } else {
        v@.subrange(a as int, b as int)
    });
    let n = match parse_uint(&v, a, hi, 0xFFFF_FFFF_FFFF_FFFF) {
        Some(x) => x,
        None => 0,
    };
    match n.checked_mul(mult) {
        Some(x) => x,
        None => 0xFFFF_FFFF_FFFF_FFFF,
    }
}

/// Byte offset of character position `pos` in a string of characters `s`:
/// its length when `pos` is at or past the end.
pub open spec fn spec_byte_idx(s: Seq<char>, pos: nat) -> nat {
    if pos < s.len() {
        utf8_len(s.take(pos as int))
    } else {
        utf8_len(s)
    }
}

/// Byte offset of char position `char_pos` in `s` (its byte length if at/after end).
pub fn byte_idx(s: &str, char_pos: usize) -> (r: usize)
    requires
        utf8_len(s@) <= usize::MAX,
    ensures
        r as nat == spec_byte_idx(s@, char_pos as nat),
{
    let v = chars_of(s);
    let end = if char_pos < v.len() { char_pos } else { v.len() };
    let mut b: usize = 0;
    let mut i: usize = 0;
    while i < end
        invariant
            end <= v@.len(),
            v@ == s@,
            utf8_len(s@) <= usize::MAX,
            i <= end,
            b == utf8_len(v@.take(i as int)),
        decreases end - i,
    {
        let u = v[i] as u32;
        let w: usize = if u < 0x80 {
            1
        } else if u < 0x800 {
            2
        } else if u < 0x10000 {
            3
        } else {
            4
        };
        assert(v@.take(i + 1).drop_last() =~= v@.take(i as int));
        proof {
            lemma_utf8_prefix(v@, i + 1);
        }
        b = b + w;
        i += 1;
    }
    proof {
        if char_pos >= v.len() {
            assert(v@.take(end as int) =~= v@);
        }
    }
    b
}

proof fn lemma_utf8_prefix(s: Seq<char>, k: int)
    requires
        0 <= k <= s.len(),
    ensures
        utf8_len(s.take(k)) <= utf8_len(s),
    decreases s.len(),
{
    if k < s.len() {
        assert(s.drop_last().take(k) =~= s.take(k));
        lemma_utf8_prefix(s.drop_last(), k);
    } else {
        assert(s.take(k) =~= s);
    }
}

// ─── the stable scroll window ───────────────────────────────────────────────

/// The total height of rows `lo..=hi`.
pub open spec fn span(h: Seq<u16>, lo: int, hi: int) -> int
    decreases hi - lo + 1,
{
    if hi < lo {
        0
    } else {
        span(h, lo, hi - 1) + h[hi] as int
    }
}

/// The scroll offset that keeps `focus` visible while moving as little as
/// possible: back up to the focus when it is above the window, else the
/// first start from which rows up to the focus fit in `body_h`.
pub open spec fn spec_stable_scroll(scroll: nat, focus: nat, h: Seq<u16>, body_h: nat) -> nat {
    let s = if h.len() == 0 {
        0
    } else if scroll < h.len() - 1 {
        scroll
    } else {
        (h.len() - 1) as nat
    };
    if focus < s {
        focus
    } else {
        scroll_from(s, focus, h, body_h)
    }
}

/// From start `s`, the first start from which rows up to `focus` fit.
pub open spec fn scroll_from(s: nat, focus: nat, h: Seq<u16>, body_h: nat) -> nat
    decreases focus - s,
{
    if s >= focus || span(h, s as int, focus as int) <= body_h {
        s
    } else {
        scroll_from(s + 1, focus, h, body_h)
    }
}

proof fn lemma_span_step(h: Seq<u16>, lo: int, hi: int)
    requires
        lo <= hi,
    ensures
        span(h, lo, hi) == h[lo] as int + span(h, lo + 1, hi),
    decreases hi - lo,
{
    if lo < hi {
        lemma_span_step(h, lo, hi - 1);
        assert(span(h, lo + 1, hi) == span(h, lo + 1, hi - 1) + h[hi] as int);
    } else {
        assert(span(h, lo, hi) == span(h, lo, hi - 1) + h[hi] as int);
        assert(span(h, lo + 1, hi) == 0);
    }
}

proof fn lemma_span_mono(h: Seq<u16>, lo: int, a: int, b: int)
    requires
        lo <= a <= b,
    ensures
        span(h, lo, a) <= span(h, lo, b),
    decreases b - a,
{
    if a < b {
        lemma_span_mono(h, lo, a, b - 1);
    }
}

proof fn lemma_span_suffix(h: Seq<u16>, lo: int, mid: int, hi: int)
    requires
        lo <= mid,
    ensures
        span(h, mid, hi) <= span(h, lo, hi),
    decreases mid - lo,
{
    if lo < mid {
        if lo <= hi {
            lemma_span_step(h, lo, hi);
        }
        lemma_span_suffix(h, lo + 1, mid, hi);
    }
}

/// Keep the board scroll stable: move it only when `focus` would fall
/// outside the window of rows from `scroll` that fits `body_h`.
pub fn stable_scroll(scroll: usize, focus: usize, heights: &[u16], body_h: u16) -> (r: usize)
    requires
        focus < heights@.len(),
        span(heights@, 0, focus as int) <= u16::MAX,
    ensures
        r as nat == spec_stable_scroll(scroll as nat, focus as nat, heights@, body_h as nat),
{
    let last = if heights.len() == 0 { 0 } else { heights.len() - 1 };
    let mut s = if scroll < last { scroll } else { last };
    if focus < s {
        return focus;
    }
    while s < focus
        invariant
            focus < heights@.len(),
            span(heights@, 0, focus as int) <= u16::MAX,
            s <= focus,
            s <= heights@.len() - 1,
            spec_stable_scroll(scroll as nat, focus as nat, heights@, body_h as nat) == scroll_from(
                s as nat,
                focus as nat,
                heights@,
                body_h as nat,
            ),
        decreases focus - s,
    {
        let mut used: u16 = 0;
        let mut j: usize = s;
        proof {
            lemma_span_suffix(heights@, 0, s as int, focus as int);
        }
        while j <= focus
            invariant
                s <= j <= focus + 1,
                focus < heights@.len(),
                used as int == span(heights@, s as int, j - 1),
                span(heights@, s as int, focus as int) <= u16::MAX,
            decreases focus + 1 - j,
        {
            proof {
                lemma_span_mono(heights@, s as int, j as int, focus as int);
            }
            used = used + heights[j];
            j += 1;
        }
        if used <= body_h {
            return s;
        }
        s += 1;
    }
    s
}

} // verus!
