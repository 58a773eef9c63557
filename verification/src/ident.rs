//! Identity: decimal numerals, slugs, and readable node ids `<role-initial>-<slug>`.
use vstd::prelude::*;

use crate::text::{push_char, str_eq, string_from};

verus! {

// ─── decimal numerals ───────────────────────────────────────────────────────

pub open spec fn digit_char(d: nat) -> char {
    ((48 + d) as u32) as char
}

/// The decimal numeral of `n` (no sign, no leading zeros).
pub open spec fn decimal(n: nat) -> Seq<char>
    decreases n,
{
    if n < 10 {
        seq![digit_char(n)]
    } else {
        decimal(n / 10).push(digit_char(n % 10))
    }
}

/// The number a string of decimal digits denotes.
pub open spec fn value_of(s: Seq<char>) -> nat
    decreases s.len(),
{
    if s.len() == 0 {
        0
    } else {
        value_of(s.drop_last()) * 10 + ((s.last() as u32) - 48) as nat
    }
}

pub proof fn lemma_decimal_value(n: nat)
    ensures
        value_of(decimal(n)) == n,
        decimal(n).len() > 0,
    decreases n,
{
    if n < 10 {
        assert((digit_char(n) as u32) == 48 + n);
        assert(decimal(n).drop_last() =~= Seq::<char>::empty());
        assert(value_of(Seq::<char>::empty()) == 0);
        assert(value_of(decimal(n)) == value_of(decimal(n).drop_last()) * 10 + n);
    } else {
        lemma_decimal_value(n / 10);
        let d = decimal(n / 10).push(digit_char(n % 10));
        assert(d.drop_last() =~= decimal(n / 10));
        assert(d.last() == digit_char(n % 10));
        assert((digit_char(n % 10) as u32) == 48 + n % 10);
        assert((n / 10) * 10 + n % 10 == n) by (nonlinear_arith);
        assert(value_of(d) == value_of(decimal(n / 10)) * 10 + n % 10);
    }
}

pub proof fn lemma_decimal_injective(a: nat, b: nat)
    requires
        decimal(a) == decimal(b),
    ensures
        a == b,
{
    lemma_decimal_value(a);
    lemma_decimal_value(b);
}

fn digit(d: u64) -> (c: char)
    requires
        d < 10,
    ensures
        c == digit_char(d as nat),
{
    if d == 0 {
        '0'
    } else if d == 1 {
        '1'
    } else if d == 2 {
        '2'
    } else if d == 3 {
        '3'
    } else if d == 4 {
        '4'
    } else if d == 5 {
        '5'
    } else if d == 6 {
        '6'
    } else if d == 7 {
        '7'
    } else if d == 8 {
        '8'
    } else {
        '9'
    }
}

/// Appends the decimal numeral of `n`.
pub fn push_decimal(s: &mut String, n: u64)
    ensures
        final(s)@ == old(s)@ + decimal(n as nat),
    decreases n,
{
    if n >= 10 {
        push_decimal(s, n / 10);
    }
    push_char(s, digit(n % 10));
    assert(decimal(n as nat) =~= if n < 10 {
        seq![digit_char(n as nat)]
    } else {
        decimal((n / 10) as nat).push(digit_char((n % 10) as nat))
    });
}

/// Appends the decimal numeral of a wide `n`.
pub fn push_decimal_wide(s: &mut String, n: u128)
    ensures
        final(s)@ == old(s)@ + decimal(n as nat),
    decreases n,
{
    if n >= 10 {
        push_decimal_wide(s, n / 10);
    }
    push_char(s, digit((n % 10) as u64));
    assert(decimal(n as nat) =~= if n < 10 {
        seq![digit_char(n as nat)]
    } else {
        decimal((n / 10) as nat).push(digit_char((n % 10) as nat))
    });
}

// ─── slugs ──────────────────────────────────────────────────────────────────

pub open spec fn is_alnum(c: char) -> bool {
    ('0' <= c && c <= '9') || ('a' <= c && c <= 'z') || ('A' <= c && c <= 'Z')
}

pub open spec fn lower(c: char) -> char {
    if 'A' <= c && c <= 'Z' {
        ((c as u32) + 32) as char
    } else {
        c
    }
}

/// Alphanumerics lower-cased, every other run of characters after the first
/// alphanumeric collapsed to one `-`.
pub open spec fn slug_raw(s: Seq<char>) -> Seq<char>
    decreases s.len(),
{
    if s.len() == 0 {
        Seq::empty()
    } else {
        let o = slug_raw(s.drop_last());
        let c = s.last();
        if is_alnum(c) {
            o.push(lower(c))
        } else if o.len() > 0 && o.last() != '-' {
            o.push('-')
        } else {
            o
        }
    }
}

pub open spec fn trim_char_start(s: Seq<char>, c: char) -> Seq<char>
    decreases s.len(),
{
    if s.len() > 0 && s[0] == c {
        trim_char_start(s.drop_first(), c)
    } else {
        s
    }
}

pub open spec fn trim_char_end(s: Seq<char>, c: char) -> Seq<char>
    decreases s.len(),
{
    if s.len() > 0 && s.last() == c {
        trim_char_end(s.drop_last(), c)
    } else {
        s
    }
}

/// `str::trim_matches('-')`.
pub open spec fn trim_dashes(s: Seq<char>) -> Seq<char> {
    trim_char_end(trim_char_start(s, '-'), '-')
}

/// The first `n` characters, or all of them.
pub open spec fn take_upto(s: Seq<char>, n: nat) -> Seq<char> {
    if s.len() <= n {
        s
    } else {
        s.take(n as int)
    }
}

/// The slug of a title: lower-case ASCII alphanumerics joined by single dashes,
/// at most 62 characters, no dash at either end.
pub open spec fn spec_slugify(s: Seq<char>) -> Seq<char> {
    trim_dashes(take_upto(trim_dashes(slug_raw(s)), 62))
}

pub(crate) fn is_ascii_alnum(c: char) -> (r: bool)
    ensures
        r == is_alnum(c),
{
    ('0' <= c && c <= '9') || ('a' <= c && c <= 'z') || ('A' <= c && c <= 'Z')
}

pub(crate) fn to_lower(c: char) -> (r: char)
    ensures
        r == lower(c),
{
    if 'A' <= c && c <= 'Z' {
        let u = (c as u32) + 32;
        assert(u < 128);
        (u as u8) as char
    } else {
        c
    }
}

/// Bounds `[a, b)` of `trim_dashes(v[lo..hi])`.
pub(crate) fn trim_dash_range(v: &Vec<char>, lo: usize, hi: usize) -> (r: (usize, usize))
    requires
        lo <= hi <= v.len(),
    ensures
        lo <= r.0 <= r.1 <= hi,
        v@.subrange(r.0 as int, r.1 as int) == trim_dashes(v@.subrange(lo as int, hi as int)),
{
    let mut a: usize = lo;
    while a < hi && v[a] == '-'
        invariant
            lo <= a <= hi <= v.len(),
            trim_char_start(v@.subrange(lo as int, hi as int), '-') == trim_char_start(
                v@.subrange(a as int, hi as int),
                '-',
            ),
        decreases hi - a,
    {
        assert(v@.subrange(a as int, hi as int).drop_first() =~= v@.subrange(a + 1, hi as int));
        a += 1;
    }
    let mut b: usize = hi;
    while b > a && v[b - 1] == '-'
        invariant
            lo <= a <= b <= hi <= v.len(),
            trim_char_end(v@.subrange(a as int, hi as int), '-') == trim_char_end(
                v@.subrange(a as int, b as int),
                '-',
            ),
        decreases b - a,
    {
        assert(v@.subrange(a as int, b as int).drop_last() =~= v@.subrange(a as int, b - 1));
        b -= 1;
    }
    (a, b)
}

/// Slug of a title: lower-case ASCII alphanumerics, other runs become one `-`,
/// at most 62 characters, no dash at either end.
pub fn slugify(s: &str) -> (r: String)
    ensures
        r@ == spec_slugify(s@),
{
    let cs = crate::text::chars_of(s);
    let mut o: Vec<char> = Vec::new();
    let mut dash = false;
    let mut k: usize = 0;
    while k < cs.len()
        invariant
            k <= cs.len(),
            cs@ == s@,
            o@ == slug_raw(cs@.take(k as int)),
            dash == (o@.len() > 0 && o@.last() == '-'),
        decreases cs.len() - k,
    {
        let ch = cs[k];
        proof {
            assert(cs@.take(k + 1).drop_last() =~= cs@.take(k as int));
        }
        k += 1;
        if is_ascii_alnum(ch) {
            o.push(to_lower(ch));
            dash = false;
        } else if !dash && o.len() > 0 {
            o.push('-');
            dash = true;
        }
    }
    let (a, b) = trim_dash_range(&o, 0, o.len());
    assert(o@.subrange(0, o@.len() as int) =~= o@);
    let hi = if b - a <= 62 {
        b
    } else {
        a + 62
    };
    assert(o@.subrange(a as int, hi as int) =~= take_upto(o@.subrange(a as int, b as int), 62));
    assert(cs@.take(k as int) =~= s@);
    assert(o@ == slug_raw(s@));
    let (c, d) = trim_dash_range(&o, a, hi);
    let mut out: Vec<char> = Vec::new();
    let mut i: usize = c;
    while i < d
        invariant
            c <= i <= d <= o.len(),
            out@ == o@.subrange(c as int, i as int),
        decreases d - i,
    {
        out.push(o[i]);
        assert(o@.subrange(c as int, i + 1) =~= o@.subrange(c as int, i as int).push(o@[i as int]));
        i += 1;
    }
    string_from(&out)
}

// ─── ids ────────────────────────────────────────────────────────────────────

/// The one-character role prefix of an id.
pub open spec fn id_prefix(role: Seq<char>) -> Seq<char> {
    if role == "intent"@ {
        seq!['i']
    } else if role == "impl"@ {
        seq!['m']
    } else if role == "control"@ {
        seq!['c']
    } else if role == "validation"@ {
        seq!['v']
    } else if role.len() > 0 && (role[0] as u32) < 128 {
        seq![role[0]]
    } else {
        seq!['n']
    }
}

/// `<prefix>-<slug>`.
pub open spec fn id_base(role: Seq<char>, title: Seq<char>) -> Seq<char> {
    id_prefix(role) + seq!['-'] + spec_slugify(title)
}

/// The four roles of the chain take their fixed initials — intent `i`,
/// impl `m`, control `c`, validation `v` — so each role's ids start with a
/// prefix no other of them uses: `<initial>-<slug of the title>`.
pub proof fn law_chain_role_prefixes(title: Seq<char>)
    ensures
        id_base("intent"@, title) == seq!['i', '-'] + spec_slugify(title),
        id_base("impl"@, title) == seq!['m', '-'] + spec_slugify(title),
        id_base("control"@, title) == seq!['c', '-'] + spec_slugify(title),
        id_base("validation"@, title) == seq!['v', '-'] + spec_slugify(title),
{
    reveal_strlit("intent");
    reveal_strlit("impl");
    reveal_strlit("control");
    reveal_strlit("validation");
    assert("impl"@ != "intent"@) by {
        assert("impl"@.len() != "intent"@.len());
    }
    assert("control"@ != "intent"@) by {
        assert("control"@.len() != "intent"@.len());
    }
    assert("control"@ != "impl"@) by {
        assert("control"@.len() != "impl"@.len());
    }
    assert("validation"@ != "intent"@) by {
        assert("validation"@.len() != "intent"@.len());
    }
    assert("validation"@ != "impl"@) by {
        assert("validation"@.len() != "impl"@.len());
    }
    assert("validation"@ != "control"@) by {
        assert("validation"@.len() != "control"@.len());
    }
    assert(seq!['i'] + seq!['-'] + spec_slugify(title) =~= seq!['i', '-'] + spec_slugify(title));
    assert(seq!['m'] + seq!['-'] + spec_slugify(title) =~= seq!['m', '-'] + spec_slugify(title));
    assert(seq!['c'] + seq!['-'] + spec_slugify(title) =~= seq!['c', '-'] + spec_slugify(title));
    assert(seq!['v'] + seq!['-'] + spec_slugify(title) =~= seq!['v', '-'] + spec_slugify(title));
}


/// The `n`th fallback id when the base is taken: `<base>-<n>`.
pub open spec fn id_candidate(base: Seq<char>, n: nat) -> Seq<char> {
    base + seq!['-'] + decimal(n)
}

pub open spec fn strings_view(v: Seq<String>) -> Seq<Seq<char>> {
    v.map_values(|s: String| s@)
}

/// Pigeonhole: an injective map of `[0, m)` into `[0, len)` needs `m <= len`.
pub proof fn lemma_pigeonhole(f: spec_fn(int) -> int, m: int, len: int)
    requires
        0 <= m,
        0 <= len,
        forall|i: int| 0 <= i < m ==> 0 <= #[trigger] f(i) < len,
        forall|i: int, j: int| 0 <= i < m && 0 <= j < m && i != j ==> #[trigger] f(i) != #[trigger] f(j),
    ensures
        m <= len,
    decreases m,
{
    if m > 0 {
        let top = f(m - 1);
        let g = |i: int|
            if f(i) > top {
                f(i) - 1
            } else {
                f(i)
            };
        assert forall|i: int| 0 <= i < m - 1 implies 0 <= #[trigger] g(i) < len - 1 by {
            assert(f(i) != f(m - 1));
            assert(0 <= f(i) < len);
        }
        assert forall|i: int, j: int| 0 <= i < m - 1 && 0 <= j < m - 1 && i != j implies #[trigger] g(i)
            != #[trigger] g(j) by {
            assert(f(i) != f(j));
            assert(f(i) != f(m - 1) && f(j) != f(m - 1));
        }
        lemma_pigeonhole(g, m - 1, len - 1);
    }
}

fn contains_str(v: &Vec<String>, s: &String) -> (r: bool)
    ensures
        r == strings_view(v@).contains(s@),
{
    let mut i: usize = 0;
    while i < v.len()
        invariant
            i <= v.len(),
            forall|j: int| 0 <= j < i ==> v@[j]@ != s@,
        decreases v.len() - i,
    {
        if str_eq(v[i].as_str(), s.as_str()) {
            assert(strings_view(v@)[i as int] == s@);
            return true;
        }
        i += 1;
    }
    proof {
        if strings_view(v@).contains(s@) {
            let j = choose|j: int| 0 <= j < strings_view(v@).len() && strings_view(v@)[j] == s@;
            assert(v@[j]@ == s@);
        }
    }
    false
}

fn role_prefix(role: &str) -> (r: Vec<char>)
    ensures
        r@ == id_prefix(role@),
{
    proof {
        reveal_strlit("intent");
        reveal_strlit("impl");
        reveal_strlit("control");
        reveal_strlit("validation");
    }
    if str_eq(role, "intent") {
        vec!['i']
    } else if str_eq(role, "impl") {
        vec!['m']
    } else if str_eq(role, "control") {
        vec!['c']
    } else if str_eq(role, "validation") {
        vec!['v']
    } else {
        let cs = crate::text::chars_of(role);
        if cs.len() > 0 && (cs[0] as u32) < 128 {
            vec![cs[0]]
        } else {
            vec!['n']
        }
    }
}

/// Stable, readable id `<role-initial>-<slug>`, made unique against `existing`
/// (the ids already on the board) by the first free `-2`, `-3`, … suffix.
pub fn gen_id(role: &str, title: &str, existing: &Vec<String>) -> (r: String)
    requires
        existing.len() < usize::MAX - 2,
    ensures
        !strings_view(existing@).contains(id_base(role@, title@)) ==> r@ == id_base(role@, title@),
        strings_view(existing@).contains(id_base(role@, title@)) ==> exists|n: nat|
            #![trigger id_candidate(id_base(role@, title@), n)]
            n >= 2 && r@ == id_candidate(id_base(role@, title@), n) && !strings_view(
                existing@,
            ).contains(id_candidate(id_base(role@, title@), n)) && forall|j: nat|
                2 <= j < n ==> strings_view(existing@).contains(
                    #[trigger] id_candidate(id_base(role@, title@), j),
                ),
{
    let pre = role_prefix(role);
    let slug = slugify(title);
    let mut base = string_from(&pre);
    push_char(&mut base, '-');
    crate::text::push_str(&mut base, slug.as_str());
    let ghost b = base@;
    assert(b =~= id_base(role@, title@));
    if !contains_str(existing, &base) {
        return base;
    }
    let mut n: usize = 2;
    let ghost ex = strings_view(existing@);
    loop
        invariant
            2 <= n <= existing.len() + 2,
            existing.len() < usize::MAX - 2,
            b == id_base(role@, title@),
            base@ == b,
            ex.contains(b),
            ex == strings_view(existing@),
            forall|j: nat| 2 <= j < n ==> ex.contains(#[trigger] id_candidate(b, j)),
        decreases existing.len() + 2 - n,
    {
        let mut id = crate::text::to_owned(base.as_str());
        assert(id@ == b);
        push_char(&mut id, '-');
        push_decimal(&mut id, n as u64);
        assert(id@ =~= id_candidate(b, n as nat));
        if !contains_str(existing, &id) {
            return id;
        }
        proof {
            // n - 1 distinct taken candidates need n - 1 distinct slots of `existing`.
            let m: int = n - 1;
            let f = |i: int|
                choose|k: int| 0 <= k < ex.len() && ex[k] == id_candidate(b, (i + 2) as nat);
            assert forall|i: int| 0 <= i < m implies 0 <= #[trigger] f(i) < existing.len() by {
                assert(ex.contains(id_candidate(b, (i + 2) as nat)));
            }
            assert forall|i: int, j: int| 0 <= i < m && 0 <= j < m && i != j implies #[trigger] f(i) != #[trigger] f(
                j,
            ) by {
                assert(ex.contains(id_candidate(b, (i + 2) as nat)));
                assert(ex.contains(id_candidate(b, (j + 2) as nat)));
                if f(i) == f(j) {
                    let ci = id_candidate(b, (i + 2) as nat);
                    let cj = id_candidate(b, (j + 2) as nat);
                    assert(ci == cj);
                    assert(ci.skip(b.len() as int + 1) =~= decimal((i + 2) as nat));
                    assert(cj.skip(b.len() as int + 1) =~= decimal((j + 2) as nat));
                    lemma_decimal_injective((i + 2) as nat, (j + 2) as nat);
                }
            }
            lemma_pigeonhole(f, m, existing.len() as int);
        }
        n += 1;
    }
}

} // verus!
