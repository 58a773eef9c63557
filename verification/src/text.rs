//! Character-level text helpers shared by every parser of the library: the
//! Unicode white-space class, trimming, searching, and building strings.
use vstd::prelude::*;

verus! {

/// The Unicode `White_Space` property: the characters `char::is_whitespace`
/// accepts (tab through carriage return, space, NEL, NBSP, OGHAM SPACE MARK,
/// the U+2000 block, the line/paragraph separators, NNBSP, MMSP, ideographic space).
pub open spec fn is_ws(c: char) -> bool {
    let u = c as u32;
    ||| 9 <= u <= 13
    ||| u == 32
    ||| u == 0x85
    ||| u == 0xA0
    ||| u == 0x1680
    ||| 0x2000 <= u <= 0x200A
    ||| u == 0x2028
    ||| u == 0x2029
    ||| u == 0x202F
    ||| u == 0x205F
    ||| u == 0x3000
}

/// `s` with its leading white space removed.
pub open spec fn trim_start(s: Seq<char>) -> Seq<char>
    decreases s.len(),
{
    if s.len() > 0 && is_ws(s[0]) {
        trim_start(s.drop_first())
    } else {
        s
    }
}

/// `s` with its trailing white space removed.
pub open spec fn trim_end(s: Seq<char>) -> Seq<char>
    decreases s.len(),
{
    if s.len() > 0 && is_ws(s.last()) {
        trim_end(s.drop_last())
    } else {
        s
    }
}

/// `s` with white space removed at both ends (what `str::trim` gives).
pub open spec fn trim(s: Seq<char>) -> Seq<char> {
    trim_end(trim_start(s))
}

/// Neither end of `s` is white space.
pub open spec fn is_trimmed(s: Seq<char>) -> bool {
    s.len() == 0 || (!is_ws(s[0]) && !is_ws(s.last()))
}

/// Index of the first `c` in `s`, or `s.len()` when `s` holds none.
pub open spec fn first_index(s: Seq<char>, c: char) -> int
    decreases s.len(),
{
    if s.len() == 0 {
        0
    } else if s[0] == c {
        0
    } else {
        1 + first_index(s.drop_first(), c)
    }
}

/// `s` holds no `c`.
pub open spec fn lacks(s: Seq<char>, c: char) -> bool {
    forall|i: int| 0 <= i < s.len() ==> s[i] != c
}

pub proof fn lemma_first_index(s: Seq<char>, c: char)
    ensures
        0 <= first_index(s, c) <= s.len(),
        forall|j: int| 0 <= j < first_index(s, c) ==> s[j] != c,
        first_index(s, c) < s.len() ==> s[first_index(s, c)] == c,
    decreases s.len(),
{
    if s.len() > 0 && s[0] != c {
        lemma_first_index(s.drop_first(), c);
        assert forall|j: int| 0 <= j < first_index(s, c) implies s[j] != c by {
            if j > 0 {
                assert(s[j] == s.drop_first()[j - 1]);
            }
        }
    }
}

/// The first index is characterised by the position of the first `c`.
pub proof fn lemma_first_index_at(s: Seq<char>, c: char, k: int)
    requires
        0 <= k <= s.len(),
        forall|j: int| 0 <= j < k ==> s[j] != c,
        k < s.len() ==> s[k] == c,
    ensures
        first_index(s, c) == k,
    decreases s.len(),
{
    if s.len() > 0 && k > 0 {
        assert forall|j: int| 0 <= j < k - 1 implies s.drop_first()[j] != c by {
            assert(s.drop_first()[j] == s[j + 1]);
        }
        lemma_first_index_at(s.drop_first(), c, k - 1);
    }
}

/// `trim_start(s)` is a suffix of `s`.
pub proof fn lemma_trim_start_suffix(s: Seq<char>)
    ensures
        trim_start(s).len() <= s.len(),
        trim_start(s) == s.skip(s.len() - trim_start(s).len()),
        trim_start(s).len() > 0 ==> !is_ws(trim_start(s)[0]),
        forall|j: int| 0 <= j < s.len() - trim_start(s).len() ==> is_ws(#[trigger] s[j]),
    decreases s.len(),
{
    if s.len() > 0 && is_ws(s[0]) {
        lemma_trim_start_suffix(s.drop_first());
        assert(s.drop_first().skip(s.drop_first().len() - trim_start(s).len()) =~= s.skip(
            s.len() - trim_start(s).len(),
        ));
        assert forall|j: int| 0 <= j < s.len() - trim_start(s).len() implies is_ws(#[trigger] s[j]) by {
            if j > 0 {
                assert(s[j] == s.drop_first()[j - 1]);
            }
        }
    } else {
        assert(s.skip(0) =~= s);
    }
}

/// `trim_end(s)` is a prefix of `s`.
pub proof fn lemma_trim_end_prefix(s: Seq<char>)
    ensures
        trim_end(s).len() <= s.len(),
        trim_end(s) == s.take(trim_end(s).len() as int),
        trim_end(s).len() > 0 ==> !is_ws(trim_end(s).last()),
        forall|j: int| trim_end(s).len() <= j < s.len() ==> is_ws(#[trigger] s[j]),
    decreases s.len(),
{
    if s.len() > 0 && is_ws(s.last()) {
        lemma_trim_end_prefix(s.drop_last());
        assert(s.drop_last().take(trim_end(s).len() as int) =~= s.take(trim_end(s).len() as int));
        assert forall|j: int| trim_end(s).len() <= j < s.len() implies is_ws(#[trigger] s[j]) by {
            if j < s.len() - 1 {
                assert(s[j] == s.drop_last()[j]);
            }
        }
    } else {
        assert(s.take(s.len() as int) =~= s);
    }
}

/// `trim(s)` is a contiguous piece of `s` with no white space at either end.
pub proof fn lemma_trim_piece(s: Seq<char>)
    ensures
        is_trimmed(trim(s)),
        exists|a: int|
            0 <= a && a + trim(s).len() <= s.len() && #[trigger] s.subrange(a, a + trim(s).len())
                == trim(s),
{
    lemma_trim_start_suffix(s);
    let ts = trim_start(s);
    lemma_trim_end_prefix(ts);
    let a = s.len() - ts.len();
    let t = trim(s);
    assert(s.subrange(a, a + t.len()) =~= t);
    if t.len() > 0 {
        assert(t[0] == ts[0]);
    }
}

/// Every character of `trim(s)` is one of `s`.
pub proof fn lemma_trim_keeps_lacks(s: Seq<char>, c: char)
    requires
        lacks(s, c),
    ensures
        lacks(trim(s), c),
{
    lemma_trim_piece(s);
    let t = trim(s);
    let a = choose|a: int|
        0 <= a && a + t.len() <= s.len() && #[trigger] s.subrange(a, a + t.len()) == t;
    assert forall|i: int| 0 <= i < t.len() implies t[i] != c by {
        assert(t[i] == s.subrange(a, a + t.len())[i]);
    }
}

/// A trimmed piece is its own trim.
pub proof fn lemma_trim_trimmed(s: Seq<char>)
    requires
        is_trimmed(s),
    ensures
        trim_start(s) == s,
        trim_end(s) == s,
        trim(s) == s,
{
}

/// Leading white space does not change `trim_start`.
pub proof fn lemma_trim_start_ws_prefix(w: Seq<char>, s: Seq<char>)
    requires
        forall|i: int| 0 <= i < w.len() ==> is_ws(#[trigger] w[i]),
    ensures
        trim_start(w + s) == trim_start(s),
    decreases w.len(),
{
    if w.len() > 0 {
        assert((w + s).drop_first() =~= w.drop_first() + s);
        assert forall|i: int| 0 <= i < w.drop_first().len() implies is_ws(
            #[trigger] w.drop_first()[i],
        ) by {
            assert(w.drop_first()[i] == w[i + 1]);
        }
        lemma_trim_start_ws_prefix(w.drop_first(), s);
    } else {
        assert(w + s =~= s);
    }
}

/// The first character of a non-empty `trim_start(s.take(p))` is the first
/// character of `trim_start(s)`.
pub proof fn lemma_trim_start_take(s: Seq<char>, p: int)
    requires
        0 <= p <= s.len(),
        trim_start(s.take(p)).len() > 0,
    ensures
        trim_start(s).len() > 0,
        trim_start(s.take(p))[0] == trim_start(s)[0],
    decreases s.len(),
{
    if s.len() > 0 && is_ws(s[0]) {
        assert(p > 0);
        assert(s.take(p).drop_first() =~= s.drop_first().take(p - 1));
        lemma_trim_start_take(s.drop_first(), p - 1);
    } else {
        assert(p > 0);
    }
}

/// `char::is_whitespace`, over the same class as `is_ws`.
pub fn is_whitespace(c: char) -> (r: bool)
    ensures
        r == is_ws(c),
{
    let u = c as u32;
    (9 <= u && u <= 13) || u == 32 || u == 0x85 || u == 0xA0 || u == 0x1680 || (0x2000 <= u && u
        <= 0x200A) || u == 0x2028 || u == 0x2029 || u == 0x202F || u == 0x205F || u == 0x3000
}

/// The characters of a string slice, in order.
pub fn chars_of(s: &str) -> (r: Vec<char>)
    ensures
        r@ == s@,
{
    let mut v: Vec<char> = Vec::new();
    for c in it: s.chars()
        invariant
            v@ == it.seq().take(it.index() as int),
    {
        v.push(c);
    }
    v
}

/// Appends one character to a string (`String::push`).
#[verifier::external_body]
pub(crate) fn push_char(s: &mut String, c: char)
    ensures
        final(s)@ == old(s)@.push(c),
{
    s.push(c);
}

/// Appends a string slice to a string.
pub fn push_str(s: &mut String, t: &str)
    ensures
        final(s)@ == old(s)@ + t@,
{
    s.append(t);
}

/// A new string holding `s`.
pub fn to_owned(s: &str) -> (r: String)
    ensures
        r@ == s@,
{
    s.to_owned()
}

/// Whether two string slices hold the same characters.
pub(crate) fn str_eq(a: &str, b: &str) -> (r: bool)
    ensures
        r == (a@ == b@),
{
    let x = chars_of(a);
    let y = chars_of(b);
    if x.len() != y.len() {
        return false;
    }
    let mut i: usize = 0;
    while i < x.len()
        invariant
            x@ == a@,
            y@ == b@,
            x.len() == y.len(),
            i <= x.len(),
            forall|j: int| 0 <= j < i ==> x@[j] == y@[j],
        decreases x.len() - i,
    {
        if x[i] != y[i] {
            return false;
        }
        i += 1;
    }
    assert(a@ =~= b@);
    true
}

/// The characters `v[lo..hi]` as a string.
pub fn string_of(v: &Vec<char>, lo: usize, hi: usize) -> (r: String)
    requires
        lo <= hi <= v.len(),
    ensures
        r@ == v@.subrange(lo as int, hi as int),
{
    let mut s = String::new();
    let mut i: usize = lo;
    while i < hi
        invariant
            lo <= i <= hi <= v.len(),
            s@ == v@.subrange(lo as int, i as int),
        decreases hi - i,
    {
        push_char(&mut s, v[i]);
        assert(v@.subrange(lo as int, i + 1) =~= v@.subrange(lo as int, i as int).push(v@[i as int]));
        i += 1;
    }
    s
}

/// The string holding the characters of `v`.
pub fn string_from(v: &Vec<char>) -> (r: String)
    ensures
        r@ == v@,
{
    let r = string_of(v, 0, v.len());
    assert(v@.subrange(0, v@.len() as int) =~= v@);
    r
}

/// Bounds `[a, b)` of `trim(v[lo..hi])`.
pub fn trim_range(v: &Vec<char>, lo: usize, hi: usize) -> (r: (usize, usize))
    requires
        lo <= hi <= v.len(),
    ensures
        lo <= r.0 <= r.1 <= hi,
        v@.subrange(r.0 as int, r.1 as int) == trim(v@.subrange(lo as int, hi as int)),
        trim_start(v@.subrange(lo as int, hi as int)) == v@.subrange(r.0 as int, hi as int),
{
    let mut a: usize = lo;
    while a < hi && is_whitespace(v[a])
        invariant
            lo <= a <= hi <= v.len(),
            trim_start(v@.subrange(lo as int, hi as int)) == trim_start(
                v@.subrange(a as int, hi as int),
            ),
        decreases hi - a,
    {
        assert(v@.subrange(a as int, hi as int).drop_first() =~= v@.subrange(a + 1, hi as int));
        a += 1;
    }
    let mut b: usize = hi;
    while b > a && is_whitespace(v[b - 1])
        invariant
            lo <= a <= b <= hi <= v.len(),
            trim_end(v@.subrange(a as int, hi as int)) == trim_end(v@.subrange(a as int, b as int)),
        decreases b - a,
    {
        assert(v@.subrange(a as int, b as int).drop_last() =~= v@.subrange(a as int, b - 1));
        b -= 1;
    }
    (a, b)
}

/// Position of the first `c` in `v[from..hi]`, or `hi` when there is none.
pub fn find_char(v: &Vec<char>, c: char, from: usize, hi: usize) -> (r: usize)
    requires
        from <= hi <= v.len(),
    ensures
        from <= r <= hi,
        forall|j: int| from <= j < r ==> v@[j] != c,
        r < hi ==> v@[r as int] == c,
        r - from == first_index(v@.subrange(from as int, hi as int), c),
{
    let mut i: usize = from;
    while i < hi && v[i] != c
        invariant
            from <= i <= hi <= v.len(),
            forall|j: int| from <= j < i ==> v@[j] != c,
        decreases hi - i,
    {
        i += 1;
    }
    let ghost sub = v@.subrange(from as int, hi as int);
    proof {
        assert forall|j: int| 0 <= j < i - from implies sub[j] != c by {
            assert(sub[j] == v@[from + j]);
        }
        lemma_first_index_at(sub, c, i - from);
    }
    i
}

/// `p` begins `s`.
pub open spec fn has_prefix(s: Seq<char>, p: Seq<char>) -> bool {
    p.len() <= s.len() && s.take(p.len() as int) == p
}

/// `p` occurs somewhere inside `s`.
pub open spec fn has_infix(s: Seq<char>, p: Seq<char>) -> bool {
    exists|i: int| 0 <= i && i + p.len() <= s.len() && #[trigger] s.subrange(i, i + p.len()) == p
}

/// Whether `p` occurs in `v` starting at `i`.
pub fn matches_at(v: &Vec<char>, i: usize, p: &Vec<char>) -> (r: bool)
    ensures
        r == (i + p.len() <= v.len() && v@.subrange(i as int, i + p.len()) == p@),
{
    if i > v.len() || p.len() > v.len() - i {
        return false;
    }
    let mut k: usize = 0;
    while k < p.len()
        invariant
            i + p.len() <= v.len(),
            k <= p.len(),
            forall|j: int| 0 <= j < k ==> v@[i + j] == p@[j],
        decreases p.len() - k,
    {
        if v[i + k] != p[k] {
            assert(v@.subrange(i as int, i + p.len())[k as int] != p@[k as int]);
            return false;
        }
        k += 1;
    }
    assert(v@.subrange(i as int, i + p.len()) =~= p@);
    true
}

/// `str::starts_with` for a string pattern.
pub fn starts_with(s: &str, p: &str) -> (r: bool)
    ensures
        r == has_prefix(s@, p@),
{
    let v = chars_of(s);
    let q = chars_of(p);
    let r = matches_at(&v, 0, &q);
    assert(v@.subrange(0, q@.len() as int) =~= v@.take(q@.len() as int));
    r
}

/// `str::contains` for a string pattern.
pub fn contains_str(s: &str, p: &str) -> (r: bool)
    ensures
        r == has_infix(s@, p@),
{
    let v = chars_of(s);
    let q = chars_of(p);
    if q.len() > v.len() {
        return false;
    }
    let mut i: usize = 0;
    let last: usize = v.len() - q.len();
    while i <= last
        invariant
            q@.len() <= v@.len(),
            last == v@.len() - q@.len(),
            i <= last + 1,
            v@ == s@,
            q@ == p@,
            forall|j: int| 0 <= j < i ==> #[trigger] v@.subrange(j, j + q@.len()) != q@,
        decreases last + 1 - i,
    {
        if matches_at(&v, i, &q) {
            return true;
        }
        if i == last {
            return false;
        }
        i += 1;
    }
    false
}

/// What `str::to_lowercase` gives for a string: the Unicode lowercase mapping,
/// context-sensitive for some letters. A function of the string alone.
pub uninterp spec fn lower_text(s: Seq<char>) -> Seq<char>;

/// `s` in lowercase (`str::to_lowercase`). Nothing is stated of the mapping
/// itself beyond that it depends on `s` alone.
#[verifier::external_body]
pub(crate) fn lowercase(s: &str) -> (r: String)
    ensures
        r@ == lower_text(s@),
{
    s.to_lowercase()
}

/// Whether `char::is_alphanumeric` holds of `c`: the Unicode Alphabetic or
/// Numeric property. A function of the character alone.
pub uninterp spec fn alphanumeric(c: char) -> bool;

/// `char::is_alphanumeric`. Nothing is stated of the Unicode tables beyond
/// that the answer depends on `c` alone.
#[verifier::external_body]
pub(crate) fn is_alphanumeric(c: char) -> (r: bool)
    ensures
        r == alphanumeric(c),
{
    c.is_alphanumeric()
}

/// What `str::to_uppercase` makes of `s`: Unicode full case mapping, which
/// can change lengths. A function of the string alone.
pub uninterp spec fn upper_text(s: Seq<char>) -> Seq<char>;

/// `s` in uppercase (`str::to_uppercase`). Nothing is stated of the mapping
/// itself beyond that it depends on `s` alone.
#[verifier::external_body]
pub(crate) fn uppercase(s: &str) -> (r: String)
    ensures
        r@ == upper_text(s@),
{
    s.to_uppercase()
}

/// `p` occurs in `s` at `j`.
pub open spec fn occurs_at(s: Seq<char>, p: Seq<char>, j: int) -> bool {
    0 <= j && j + p.len() <= s.len() && s.subrange(j, j + p.len()) == p
}

/// Index of the first occurrence of `p` in `s`, or `s.len()`.
pub open spec fn first_occ(s: Seq<char>, p: Seq<char>) -> int
    decreases s.len(),
{
    if s.len() < p.len() {
        s.len() as int
    } else if s.take(p.len() as int) == p {
        0
    } else if s.len() == 0 {
        0
    } else {
        1 + first_occ(s.drop_first(), p)
    }
}

pub proof fn lemma_first_occ(s: Seq<char>, p: Seq<char>, k: int)
    requires
        0 <= k <= s.len(),
        forall|j: int| 0 <= j < k ==> !#[trigger] occurs_at(s, p, j),
        k + p.len() <= s.len() ==> occurs_at(s, p, k),
        k + p.len() > s.len() ==> k == s.len(),
    ensures
        first_occ(s, p) == k,
    decreases s.len(),
{
    if s.len() >= p.len() {
        assert(s.take(p.len() as int) =~= s.subrange(0, p.len() as int));
        if k > 0 {
            assert(!occurs_at(s, p, 0));
            assert forall|j: int| 0 <= j < k - 1 implies !#[trigger] occurs_at(s.drop_first(), p, j) by {
                assert(!occurs_at(s, p, j + 1));
                if j + p.len() <= s.drop_first().len() {
                    assert(s.drop_first().subrange(j, j + p.len()) =~= s.subrange(j + 1, j + 1 + p.len()));
                }
            }
            if k - 1 + p.len() <= s.drop_first().len() {
                assert(s.drop_first().subrange(k - 1, k - 1 + p.len()) =~= s.subrange(k, k + p.len()));
            }
            lemma_first_occ(s.drop_first(), p, k - 1);
        }
    }
}

/// Position of the first occurrence of `p` in `v[from..]`, or `v.len()`.
pub fn find_seq(v: &Vec<char>, p: &Vec<char>, from: usize) -> (r: usize)
    requires
        from <= v.len(),
    ensures
        from <= r <= v.len(),
        r - from == first_occ(v@.skip(from as int), p@),
{
    let ghost t = v@.skip(from as int);
    let mut i: usize = from;
    while i < v.len() && v.len() - i >= p.len() && !matches_at(v, i, p)
        invariant
            from <= i <= v@.len(),
            t == v@.skip(from as int),
            forall|j: int| 0 <= j < i - from ==> !#[trigger] occurs_at(t, p@, j),
        decreases v.len() - i,
    {
        proof {
            if occurs_at(t, p@, i - from) {
                assert(t.subrange(i - from, i - from + p@.len()) =~= v@.subrange(i as int, i + p@.len()));
            }
        }
        i += 1;
    }
    if i < v.len() && v.len() - i >= p.len() {
        proof {
            assert(t.subrange(i - from, i - from + p@.len()) =~= v@.subrange(i as int, i + p@.len()));
            lemma_first_occ(t, p@, i - from);
        }
        i
    } else {
        proof {
            if p@.len() == 0 && i == v.len() {
                assert(t.subrange(i - from, i - from) =~= p@);
            }
            assert forall|j: int| 0 <= j < t.len() implies !#[trigger] occurs_at(t, p@, j) by {
                if j >= i - from {
                    assert(j + p@.len() > t.len() || p@.len() == 0);
                    if p@.len() == 0 {
                        assert(t.subrange(j, j) =~= p@);
                    }
                }
            }
            if p@.len() > 0 || i == v.len() {
                lemma_first_occ(t, p@, t.len() as int);
            }
        }
        v.len()
    }
}

/// `s` without leading and trailing whitespace (`str::trim`), owned.
pub fn trim_str(s: &str) -> (r: String)
    ensures
        r@ == trim(s@),
{
    let v = chars_of(s);
    let (a, b) = trim_range(&v, 0, v.len());
    assert(v@.subrange(0, v@.len() as int) =~= s@);
    string_of(&v, a, b)
}

/// The end of the run of non-whitespace characters that starts at `i`.
pub open spec fn run_end(s: Seq<char>, i: int) -> int
    decreases s.len() - i,
{
    if i < 0 || i >= s.len() || is_ws(s[i]) {
        i
    } else {
        run_end(s, i + 1)
    }
}

pub proof fn lemma_run_end(s: Seq<char>, i: int)
    requires
        0 <= i <= s.len(),
    ensures
        i <= run_end(s, i) <= s.len(),
        i < s.len() && !is_ws(s[i]) ==> run_end(s, i) > i,
        forall|j: int| i <= j < run_end(s, i) ==> !is_ws(#[trigger] s[j]),
        run_end(s, i) < s.len() ==> is_ws(s[run_end(s, i)]),
    decreases s.len() - i,
{
    if i < s.len() && !is_ws(s[i]) {
        lemma_run_end(s, i + 1);
    }
}

/// The whitespace-separated words of `s` from position `i` on.
pub open spec fn words_from(s: Seq<char>, i: int) -> Seq<Seq<char>>
    decreases s.len() - i,
{
    if i < 0 || i >= s.len() {
        Seq::empty()
    } else if is_ws(s[i]) {
        words_from(s, i + 1)
    } else {
        proof {
            lemma_run_end(s, i);
        }
        seq![s.subrange(i, run_end(s, i))] + words_from(s, run_end(s, i))
    }
}

/// The whitespace-separated words of `s` (`str::split_whitespace`).
pub open spec fn words(s: Seq<char>) -> Seq<Seq<char>> {
    words_from(s, 0)
}

/// The whitespace-separated words of `s`, in order.
pub fn split_ws(s: &str) -> (r: Vec<String>)
    ensures
        crate::graph::strs(r@) == words(s@),
{
    let v = chars_of(s);
    let n = v.len();
    let mut out: Vec<String> = Vec::new();
    let mut i: usize = 0;
    while i < n
        invariant
            i <= n == s@.len(),
            v@ == s@,
            words(s@) == crate::graph::strs(out@) + words_from(s@, i as int),
        decreases n - i,
    {
        if is_whitespace(v[i]) {
            i += 1;
        } else {
            let mut e: usize = i;
            while e < n && !is_whitespace(v[e])
                invariant
                    i <= e <= n == s@.len(),
                    v@ == s@,
                    forall|j: int| i <= j < e ==> !is_ws(#[trigger] s@[j]),
                    run_end(s@, i as int) == run_end(s@, e as int),
                decreases n - e,
            {
                e += 1;
            }
            let ghost po = crate::graph::strs(out@);
            let w = string_of(&v, i, e);
            out.push(w);
            proof {
                lemma_run_end(s@, i as int);
                assert(run_end(s@, i as int) == e);
                assert(crate::graph::strs(out@) =~= po.push(s@.subrange(i as int, e as int)));
                assert(words_from(s@, i as int) =~= seq![s@.subrange(i as int, e as int)] + words_from(s@, e as int));
                assert(po + words_from(s@, i as int) =~= crate::graph::strs(out@) + words_from(s@, e as int));
            }
            i = e;
        }
    }
    proof {
        assert(words_from(s@, n as int) =~= Seq::<Seq<char>>::empty());
        assert(crate::graph::strs(out@) + Seq::<Seq<char>>::empty() =~= crate::graph::strs(out@));
    }
    out
}

} // verus!
