//! Display helpers: fixed-width truncation, zero-padded numerals, civil dates
//! and timestamps, and human ages.
use vstd::prelude::*;

use crate::ident::{decimal, push_decimal};
use crate::text::{chars_of, push_char, push_str, string_from};

verus! {

/// `n` copies of `c`.
pub open spec fn repeat(c: char, n: nat) -> Seq<char> {
    Seq::new(n, |i: int| c)
}

/// Display-width truncation with padding: `n == 0` gives the empty string, a
/// string of at most `n` characters is padded with spaces to `n`, a longer one
/// keeps its first `n - 1` characters and ends in `…`.
pub open spec fn spec_trunc(s: Seq<char>, n: nat) -> Seq<char> {
    if n == 0 {
        Seq::empty()
    } else if s.len() <= n {
        s + repeat(' ', (n - s.len()) as nat)
    } else {
        s.take(n - 1).push('…')
    }
}

/// Truncation without padding: a string of at most `n` characters is kept as is.
pub open spec fn spec_trunc_plain(s: Seq<char>, n: nat) -> Seq<char> {
    if s.len() <= n {
        s
    } else if n == 0 {
        Seq::empty()
    } else {
        s.take(n - 1).push('…')
    }
}

fn push_repeat(s: &mut String, c: char, n: usize)
    ensures
        final(s)@ == old(s)@ + repeat(c, n as nat),
{
    let mut i: usize = 0;
    while i < n
        invariant
            i <= n,
            s@ == old(s)@ + repeat(c, i as nat),
        decreases n - i,
    {
        push_char(s, c);
        assert(old(s)@ + repeat(c, (i + 1) as nat) =~= (old(s)@ + repeat(c, i as nat)).push(c));
        i += 1;
    }
}

/// Display-time truncator: `n == 0` yields the empty string, short input is
/// padded to `n` characters, long input is cut to `n - 1` characters plus `…`.
pub fn trunc(s: &str, n: usize) -> (r: String)
    ensures
        r@ == spec_trunc(s@, n as nat),
{
    if n == 0 {
        return String::new();
    }
    let cs = chars_of(s);
    if cs.len() <= n {
        let mut r = string_from(&cs);
        push_repeat(&mut r, ' ', n - cs.len());
        r
    } else {
        let mut r = crate::text::string_of(&cs, 0, n - 1);
        push_char(&mut r, '…');
        assert(cs@.subrange(0, n - 1) =~= s@.take(n - 1));
        r
    }
}

/// Truncate to `n` characters with an ellipsis; no padding.
pub fn trunc_plain(s: &str, n: usize) -> (r: String)
    ensures
        r@ == spec_trunc_plain(s@, n as nat),
{
    let cs = chars_of(s);
    if cs.len() <= n {
        string_from(&cs)
    } else if n == 0 {
        String::new()
    } else {
        let mut r = crate::text::string_of(&cs, 0, n - 1);
        push_char(&mut r, '…');
        assert(cs@.subrange(0, n - 1) =~= s@.take(n - 1));
        r
    }
}

// ─── zero-padded numerals ───────────────────────────────────────────────────

/// `s` left-padded with `0` to at least `w` characters.
pub open spec fn pad0(s: Seq<char>, w: nat) -> Seq<char> {
    if s.len() >= w {
        s
    } else {
        repeat('0', (w - s.len()) as nat) + s
    }
}

/// `format!("{n:0w}")` for a signed integer: the sign counts toward the width
/// and the zeros go after it.
pub open spec fn fmt_signed(n: int, w: nat) -> Seq<char> {
    if n < 0 {
        seq!['-'] + pad0(decimal((-n) as nat), if w >= 1 {
            (w - 1) as nat
        } else {
            0
        })
    } else {
        pad0(decimal(n as nat), w)
    }
}

/// Appends `format!("{n:0w}")`.
pub fn push_signed(s: &mut String, n: i64, w: usize)
    ensures
        final(s)@ == old(s)@ + fmt_signed(n as int, w as nat),
{
    let mut d = String::new();
    let ww: usize;
    if n < 0 {
        push_char(s, '-');
        let m: u64 = if n == i64::MIN {
            9223372036854775808u64
        } else {
            (-n) as u64
        };
        push_decimal(&mut d, m);
        ww = if w >= 1 {
            w - 1
        } else {
            0
        };
    } else {
        push_decimal(&mut d, n as u64);
        ww = w;
    }
    let dl = chars_of(d.as_str()).len();
    if dl < ww {
        push_repeat(s, '0', ww - dl);
    }
    push_str(s, d.as_str());
    proof {
        let ds = d@;
        if n < 0 {
            assert(fmt_signed(n as int, w as nat) =~= seq!['-'] + pad0(ds, ww as nat));
        } else {
            assert(fmt_signed(n as int, w as nat) =~= pad0(ds, ww as nat));
        }
        if dl < ww {
            assert(pad0(ds, ww as nat) == repeat('0', (ww - dl) as nat) + ds);
        } else {
            assert(pad0(ds, ww as nat) == ds);
        }
    }
}

// ─── civil dates ────────────────────────────────────────────────────────────

/// Civil `(year, month, day)` from days since 1970-01-01 (Howard Hinnant's
/// `civil_from_days`).
pub open spec fn civil(days: int) -> (int, int, int) {
    let z = days + 719468;
    let era = (if z >= 0 {
        z
    } else {
        z - 146096
    }) / 146097;
    let doe = z - era * 146097;
    let yoe = (doe - doe / 1460 + doe / 36524 - doe / 146096) / 365;
    let doy = doe - (365 * yoe + yoe / 4 - yoe / 100);
    let mp = (5 * doy + 2) / 153;
    let d = doy - (153 * mp + 2) / 5 + 1;
    let m = if mp < 10 {
        mp + 3
    } else {
        mp - 9
    };
    let y = yoe + era * 400 + if m <= 2 {
        1int
    } else {
        0int
    };
    (y, m, d)
}

/// `YYYY-MM-DD`.
pub open spec fn date_text(c: (int, int, int)) -> Seq<char> {
    fmt_signed(c.0, 4) + seq!['-'] + fmt_signed(c.1, 2) + seq!['-'] + fmt_signed(c.2, 2)
}

/// The civil date of a day count, computed with machine integers.
#[verifier::spinoff_prover]
#[verifier::rlimit(40)]
fn civil_of(days: u64) -> (r: (i64, i64, i64))
    requires
        days <= 213503982334601u64,
    ensures
        (r.0 as int, r.1 as int, r.2 as int) == civil(days as int),
{
    let z: i64 = days as i64 + 719468;
    let era: i64 = z / 146097;
    let doe: i64 = z - era * 146097;
    assert(0 <= doe < 146097);
    let yoe: i64 = (doe - doe / 1460 + doe / 36524 - doe / 146096) / 365;
    assert(0 <= doe / 1460 <= 101) by (nonlinear_arith)
        requires
            0 <= doe < 146097,
    ;
    assert(0 <= yoe <= 401);
    let doy: i64 = doe - (365 * yoe + yoe / 4 - yoe / 100);
    let mp: i64 = (5 * doy + 2) / 153;
    let d: i64 = doy - (153 * mp + 2) / 5 + 1;
    let m: i64 = if mp < 10 {
        mp + 3
    } else {
        mp - 9
    };
    let y: i64 = yoe + era * 400 + if m <= 2 {
        1
    } else {
        0
    };
    (y, m, d)
}

fn push_date(s: &mut String, c: (i64, i64, i64))
    ensures
        final(s)@ == old(s)@ + date_text((c.0 as int, c.1 as int, c.2 as int)),
{
    let ghost s0 = s@;
    push_signed(s, c.0, 4);
    push_char(s, '-');
    push_signed(s, c.1, 2);
    push_char(s, '-');
    push_signed(s, c.2, 2);
    assert(s@ =~= s0 + date_text((c.0 as int, c.1 as int, c.2 as int)));
}

/// Civil date `YYYY-MM-DD` (UTC) from unix seconds.
pub fn ymd_iso(secs: u64) -> (r: String)
    ensures
        r@ == date_text(civil((secs / 86400) as int)),
{
    let mut s = String::new();
    push_date(&mut s, civil_of(secs / 86400));
    s
}

/// `YYYY-MM-DDTHH:MM:SSZ` for unix seconds.
pub open spec fn rfc3339_text(secs: nat) -> Seq<char> {
    date_text(civil((secs / 86400) as int)) + seq!['T'] + pad0(decimal((secs / 3600) % 24), 2)
        + seq![':'] + pad0(decimal((secs / 60) % 60), 2) + seq![':'] + pad0(decimal(secs % 60), 2)
        + seq!['Z']
}

/// RFC 3339 timestamp `YYYY-MM-DDTHH:MM:SSZ` of unix seconds.
pub fn rfc3339(secs: u64) -> (r: String)
    ensures
        r@ == rfc3339_text(secs as nat),
{
    let mut s = String::new();
    push_date(&mut s, civil_of(secs / 86400));
    push_char(&mut s, 'T');
    push_signed(&mut s, ((secs / 3600) % 24) as i64, 2);
    push_char(&mut s, ':');
    push_signed(&mut s, ((secs / 60) % 60) as i64, 2);
    push_char(&mut s, ':');
    push_signed(&mut s, (secs % 60) as i64, 2);
    push_char(&mut s, 'Z');
    assert(s@ =~= rfc3339_text(secs as nat));
    s
}

/// Whole seconds elapsed since the Unix epoch on the wall clock
/// (`SystemTime::elapsed` of `UNIX_EPOCH`), none when the clock reads before
/// the epoch. Nothing is stated of the value: it is the time.
#[verifier::external_body]
pub(crate) fn unix_now() -> (r: Option<u64>) {
    std::time::UNIX_EPOCH.elapsed().map(|d| d.as_secs()).ok()
}

/// Seconds since the Unix epoch on the wall clock; 0 when the clock reads
/// before the epoch.
pub fn now_secs() -> (r: u64) {
    match unix_now() {
        Some(t) => t,
        None => 0,
    }
}

/// Current time as an RFC 3339 timestamp `YYYY-MM-DDTHH:MM:SSZ`.
pub fn now_rfc3339() -> (r: String)
    ensures
        exists|t: u64| r@ == rfc3339_text(t as nat),
{
    let t = now_secs();
    rfc3339(t)
}

// ─── human ages ─────────────────────────────────────────────────────────────

/// Relative age of timestamp `t` seen at `now`, within a week; `date` past that.
pub open spec fn spec_rel_age(now: nat, t: nat, date: Seq<char>) -> Seq<char> {
    let d: nat = if now >= t {
        (now - t) as nat
    } else {
        0
    };
    if d < 60 {
        "just now"@
    } else if d < 3600 {
        decimal(d / 60) + "m ago"@
    } else if d < 86400 {
        decimal(d / 3600) + "h ago"@
    } else if d < 7 * 86400 {
        decimal(d / 86400) + if d / 86400 == 1 {
            " day ago"@
        } else {
            " days ago"@
        }
    } else {
        date
    }
}

/// Human age of unix-seconds `t` at `now`: "just now", "5m ago", "3h ago",
/// "2 days ago" within a week; past a week, `date` (the date of `t`).
pub fn rel_age(now: u64, t: u64, date: &str) -> (r: String)
    ensures
        r@ == spec_rel_age(now as nat, t as nat, date@),
{
    let d = now.saturating_sub(t);
    let mut s = String::new();
    if d < 60 {
        push_str(&mut s, "just now");
    } else if d < 3600 {
        push_decimal(&mut s, d / 60);
        push_str(&mut s, "m ago");
    } else if d < 86400 {
        push_decimal(&mut s, d / 3600);
        push_str(&mut s, "h ago");
    } else if d < 7 * 86400 {
        let days = d / 86400;
        push_decimal(&mut s, days);
        if days == 1 {
            push_str(&mut s, " day ago");
        } else {
            push_str(&mut s, " days ago");
        }
    } else {
        push_str(&mut s, date);
    }
    proof {
        assert(d as nat == if now >= t {
            (now - t) as nat
        } else {
            0nat
        });
    }
    s
}

} // verus!
