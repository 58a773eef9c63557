//! The board agent's command language: one line, a verb, an address and
//! quoted payloads. Parsing decides which command a line is; running it
//! against the board is a separate step.
use vstd::prelude::*;

use crate::agent::{join, push_joined};
use crate::conf::{split_bounds, split_on};
use crate::graph::strs;
use crate::ident::value_of;
use crate::protocol::{parse_status, parse_style, spec_parse_status, spec_parse_style, svec, sopt, BoardStyle, Status, StatusWordError};
use crate::runs::{all_digits, parse_uint, spec_parse_uint};
use crate::text::{
    chars_of, first_index, is_whitespace, is_ws, lemma_run_end, push_str, run_end, split_ws, str_eq, string_of,
    to_owned, trim, trim_range, trim_str, words,
};

verus! {

// ─── the pieces of a line ──────────────────────────────────────────────────

/// The verb: the trimmed line up to its first whitespace.
pub open spec fn verb_of(line: Seq<char>) -> Seq<char> {
    let l = trim(line);
    l.take(run_end(l, 0))
}

/// What follows the verb and one whitespace character, trimmed.
pub open spec fn rest_of(line: Seq<char>) -> Seq<char> {
    let l = trim(line);
    let k = run_end(l, 0);
    if k < l.len() { trim(l.skip(k + 1)) } else { Seq::empty() }
}

/// The index of the last `c` in `s`, or -1.
pub open spec fn last_index(s: Seq<char>, c: char) -> int
    decreases s.len(),
{
    if s.len() == 0 {
        -1
    } else if s.last() == c {
        s.len() - 1
    } else {
        last_index(s.drop_last(), c)
    }
}

/// The payload: what lies between the first and the last double quote.
pub open spec fn quote_text(rest: Seq<char>) -> Option<Seq<char>> {
    let a = first_index(rest, '"');
    let b = last_index(rest, '"');
    if a < rest.len() && b > a { Some(rest.subrange(a + 1, b)) } else { None }
}

/// The address: the trimmed text before the first double quote.
pub open spec fn addr_part(rest: Seq<char>) -> Seq<char> {
    trim(split_on(rest, '"')[0])
}

/// The quoted spans: the pieces between double quotes at odd positions.
pub open spec fn odd_pieces(p: Seq<Seq<char>>) -> Seq<Seq<char>> {
    Seq::new((p.len() / 2) as nat, |i: int| p[2 * i + 1])
}

/// The unquoted spans: the pieces at even positions.
pub open spec fn even_pieces(p: Seq<Seq<char>>) -> Seq<Seq<char>> {
    Seq::new(((p.len() + 1) / 2) as nat, |i: int| p[2 * i])
}

/// The non-empty values of `p`, in order.
pub open spec fn nonempty(p: Seq<Seq<char>>) -> Seq<Seq<char>>
    decreases p.len(),
{
    if p.len() == 0 {
        p
    } else if p.last().len() > 0 {
        nonempty(p.drop_last()).push(p.last())
    } else {
        nonempty(p.drop_last())
    }
}

/// The `i`-th value of `p`, or empty past its end.
pub open spec fn nth_or_empty(p: Seq<Seq<char>>, i: int) -> Seq<char> {
    if 0 <= i < p.len() { p[i] } else { Seq::empty() }
}

/// The `i`-th value of `p` when present and not empty.
pub open spec fn nth_nonempty(p: Seq<Seq<char>>, i: int) -> Option<Seq<char>> {
    if 0 <= i < p.len() && p[i].len() > 0 { Some(p[i]) } else { None }
}

/// The index of the first `w` in `p`, if any.
pub open spec fn position_of(p: Seq<Seq<char>>, w: Seq<char>) -> Option<int>
    decreases p.len(),
{
    if p.len() == 0 {
        None
    } else if p[0] == w {
        Some(0)
    } else {
        match position_of(p.drop_first(), w) {
            Some(i) => Some(i + 1),
            None => None,
        }
    }
}

/// `str::parse::<isize>`: an optional sign, then at least one digit and
/// nothing else, within the range of `isize`.
pub open spec fn spec_parse_isize(s: Seq<char>) -> Option<int> {
    if s.len() > 0 && s[0] == '-' {
        let d = s.drop_first();
        if d.len() > 0 && all_digits(d) && value_of(d) <= isize::MAX + 1 {
            Some(-value_of(d))
        } else {
            None
        }
    } else {
        match spec_parse_uint(s, isize::MAX as nat) {
            Some(n) => Some(n as int),
            None => None,
        }
    }
}

// ─── commands ──────────────────────────────────────────────────────────────

/// A parsed agent command. Addresses stay as written (`page/col/item`, an id
/// or a title); they are resolved against the board when the command runs.
#[derive(Debug)]
pub enum Command {
    Usage,
    Observe(Option<String>),
    Coverage,
    Trace(String),
    Page(String),
    AddPage { id: String, title: String, style: BoardStyle },
    SetStyle { page: String, style: BoardStyle },
    RenamePage { id: String, title: String },
    DelPage(String),
    Undo,
    Redo,
    AddCol { addr: String, header: String },
    Work(Vec<String>),
    Link { addr: String, titles: Vec<String> },
    SetStatus { addr: String, status: Option<Status> },
    Note { addr: String, lines: Vec<String> },
    Attach { addr: String, refs: Vec<String> },
    At { addr: String, locs: Vec<String> },
    Category { addr: String, value: Option<String> },
    Id { addr: String, value: Option<String> },
    Comment { addr: String, value: Option<String> },
    Derive { addr: String, on: bool },
    Sha { addr: String, value: Option<String> },
    Move { addr: String, delta: isize },
    Add { addr: String, text: String, serves: Vec<String>, status: Option<Status> },
    SetItem { addr: String, text: String, serves: Option<Vec<String>>, status: Option<Option<Status>> },
    Sel(String),
    Del(String),
    DelCol(String),
    SetCol { addr: String, header: Option<String> },
}

/// Why a line is not a command.
#[derive(Debug, Clone, PartialEq, Eq)]
pub enum CommandError {
    /// A style word other than list|cards|panel|sheet.
    BadStyle(String),
    /// `renamepage` without a quoted title.
    RenamePageNeedsTitle,
    /// `addcol` without a quoted header.
    AddColNeedsHeader,
    /// A status with no word.
    StatusNeedsValue,
    /// A status word that names no status.
    BadStatus(String),
    /// `add` / `set` without quoted text (the verb).
    NeedsText(String),
    /// A verb the agent does not know.
    Unknown(String),
}

/// A command as pure data.
pub enum CommandModel {
    Usage,
    Observe(Option<Seq<char>>),
    Coverage,
    Trace(Seq<char>),
    Page(Seq<char>),
    AddPage { id: Seq<char>, title: Seq<char>, style: BoardStyle },
    SetStyle { page: Seq<char>, style: BoardStyle },
    RenamePage { id: Seq<char>, title: Seq<char> },
    DelPage(Seq<char>),
    Undo,
    Redo,
    AddCol { addr: Seq<char>, header: Seq<char> },
    Work(Seq<Seq<char>>),
    Link { addr: Seq<char>, titles: Seq<Seq<char>> },
    SetStatus { addr: Seq<char>, status: Option<Status> },
    Note { addr: Seq<char>, lines: Seq<Seq<char>> },
    Attach { addr: Seq<char>, refs: Seq<Seq<char>> },
    At { addr: Seq<char>, locs: Seq<Seq<char>> },
    Category { addr: Seq<char>, value: Option<Seq<char>> },
    Id { addr: Seq<char>, value: Option<Seq<char>> },
    Comment { addr: Seq<char>, value: Option<Seq<char>> },
    Derive { addr: Seq<char>, on: bool },
    Sha { addr: Seq<char>, value: Option<Seq<char>> },
    Move { addr: Seq<char>, delta: int },
    Add { addr: Seq<char>, text: Seq<char>, serves: Seq<Seq<char>>, status: Option<Status> },
    SetItem {
        addr: Seq<char>,
        text: Seq<char>,
        serves: Option<Seq<Seq<char>>>,
        status: Option<Option<Status>>,
    },
    Sel(Seq<char>),
    Del(Seq<char>),
    DelCol(Seq<char>),
    SetCol { addr: Seq<char>, header: Option<Seq<char>> },
}

/// A command error as pure data.
pub enum CommandErrorModel {
    BadStyle(Seq<char>),
    RenamePageNeedsTitle,
    AddColNeedsHeader,
    StatusNeedsValue,
    BadStatus(Seq<char>),
    NeedsText(Seq<char>),
    Unknown(Seq<char>),
}

impl View for Command {
    type V = CommandModel;

    open spec fn view(&self) -> CommandModel {
        match self {
            Command::Usage => CommandModel::Usage,
            Command::Observe(a) => CommandModel::Observe(sopt(*a)),
            Command::Coverage => CommandModel::Coverage,
            Command::Trace(a) => CommandModel::Trace(a@),
            Command::Page(a) => CommandModel::Page(a@),
            Command::AddPage { id, title, style } => CommandModel::AddPage {
                id: id@,
                title: title@,
                style: *style,
            },
            Command::SetStyle { page, style } => CommandModel::SetStyle { page: page@, style: *style },
            Command::RenamePage { id, title } => CommandModel::RenamePage { id: id@, title: title@ },
            Command::DelPage(a) => CommandModel::DelPage(a@),
            Command::Undo => CommandModel::Undo,
            Command::Redo => CommandModel::Redo,
            Command::AddCol { addr, header } => CommandModel::AddCol { addr: addr@, header: header@ },
            Command::Work(t) => CommandModel::Work(svec(t@)),
            Command::Link { addr, titles } => CommandModel::Link { addr: addr@, titles: svec(titles@) },
            Command::SetStatus { addr, status } => CommandModel::SetStatus { addr: addr@, status: *status },
            Command::Note { addr, lines } => CommandModel::Note { addr: addr@, lines: svec(lines@) },
            Command::Attach { addr, refs } => CommandModel::Attach { addr: addr@, refs: svec(refs@) },
            Command::At { addr, locs } => CommandModel::At { addr: addr@, locs: svec(locs@) },
            Command::Category { addr, value } => CommandModel::Category { addr: addr@, value: sopt(*value) },
            Command::Id { addr, value } => CommandModel::Id { addr: addr@, value: sopt(*value) },
            Command::Comment { addr, value } => CommandModel::Comment { addr: addr@, value: sopt(*value) },
            Command::Derive { addr, on } => CommandModel::Derive { addr: addr@, on: *on },
            Command::Sha { addr, value } => CommandModel::Sha { addr: addr@, value: sopt(*value) },
            Command::Move { addr, delta } => CommandModel::Move { addr: addr@, delta: *delta as int },
            Command::Add { addr, text, serves, status } => CommandModel::Add {
                addr: addr@,
                text: text@,
                serves: svec(serves@),
                status: *status,
            },
            Command::SetItem { addr, text, serves, status } => CommandModel::SetItem {
                addr: addr@,
                text: text@,
                serves: match serves {
                    Some(v) => Some(svec(v@)),
                    None => None,
                },
                status: *status,
            },
            Command::Sel(a) => CommandModel::Sel(a@),
            Command::Del(a) => CommandModel::Del(a@),
            Command::DelCol(a) => CommandModel::DelCol(a@),
            Command::SetCol { addr, header } => CommandModel::SetCol { addr: addr@, header: sopt(*header) },
        }
    }
}

impl View for CommandError {
    type V = CommandErrorModel;

    open spec fn view(&self) -> CommandErrorModel {
        match self {
            CommandError::BadStyle(s) => CommandErrorModel::BadStyle(s@),
            CommandError::RenamePageNeedsTitle => CommandErrorModel::RenamePageNeedsTitle,
            CommandError::AddColNeedsHeader => CommandErrorModel::AddColNeedsHeader,
            CommandError::StatusNeedsValue => CommandErrorModel::StatusNeedsValue,
            CommandError::BadStatus(s) => CommandErrorModel::BadStatus(s@),
            CommandError::NeedsText(s) => CommandErrorModel::NeedsText(s@),
            CommandError::Unknown(s) => CommandErrorModel::Unknown(s@),
        }
    }
}

// ─── the parse ─────────────────────────────────────────────────────────────

/// A status word's error as a command error.
pub open spec fn status_error(e: StatusWordError, word: Seq<char>) -> CommandErrorModel {
    match e {
        StatusWordError::Empty => CommandErrorModel::StatusNeedsValue,
        StatusWordError::Unknown => CommandErrorModel::BadStatus(word),
    }
}

/// Whether a `derive` switch word turns the flag off.
pub open spec fn is_off_word(w: Seq<char>) -> bool {
    w == "off"@ || w == "no"@ || w == "false"@ || w == "clear"@
}

/// The status of an `add` / `set` line: the bare word after `status` in
/// its unquoted text (`na` if the line ends there), when `status` is given.
pub open spec fn inline_status(parts: Seq<Seq<char>>) -> Option<Result<Option<Status>, CommandErrorModel>> {
    let stoks = words(join(even_pieces(parts), " "@));
    match position_of(stoks, "status"@) {
        Some(p) => {
            let w = if p + 1 < stoks.len() { stoks[p + 1] } else { "na"@ };
            Some(
                match spec_parse_status(w) {
                    Ok(st) => Ok(st),
                    Err(e) => Err(status_error(e, w)),
                },
            )
        },
        None => None,
    }
}

/// The command a line states, or why it states none.
pub open spec fn spec_command(line: Seq<char>) -> Result<CommandModel, CommandErrorModel> {
    let verb = verb_of(line);
    let rest = rest_of(line);
    let addr = addr_part(rest);
    let parts = split_on(rest, '"');
    let quoted = odd_pieces(parts);
    let toks = words(rest);
    if verb == "usage"@ || verb == "help"@ {
        Ok(CommandModel::Usage)
    } else if verb == "observe"@ {
        Ok(CommandModel::Observe(if addr.len() == 0 { None } else { Some(addr) }))
    } else if verb == "coverage"@ {
        Ok(CommandModel::Coverage)
    } else if verb == "trace"@ || verb == "depends"@ {
        Ok(CommandModel::Trace(addr))
    } else if verb == "page"@ {
        Ok(CommandModel::Page(addr))
    } else if verb == "addpage"@ {
        let w = trim(nth_or_empty(parts, 2));
        match spec_parse_style(w) {
            Some(st) => Ok(CommandModel::AddPage { id: trim(parts[0]), title: trim(nth_or_empty(parts, 1)), style: st }),
            None => Err(CommandErrorModel::BadStyle(w)),
        }
    } else if verb == "setstyle"@ {
        match spec_parse_style(nth_or_empty(toks, 1)) {
            Some(st) => Ok(CommandModel::SetStyle { page: nth_or_empty(toks, 0), style: st }),
            None => Err(CommandErrorModel::BadStyle(nth_or_empty(toks, 1))),
        }
    } else if verb == "renamepage"@ {
        match nth_nonempty(parts, 1) {
            Some(t) => Ok(CommandModel::RenamePage { id: trim(parts[0]), title: t }),
            None => Err(CommandErrorModel::RenamePageNeedsTitle),
        }
    } else if verb == "delpage"@ {
        Ok(CommandModel::DelPage(rest))
    } else if verb == "undo"@ {
        Ok(CommandModel::Undo)
    } else if verb == "redo"@ {
        Ok(CommandModel::Redo)
    } else if verb == "addcol"@ {
        match quote_text(rest) {
            Some(h) => Ok(CommandModel::AddCol { addr, header: h }),
            None => Err(CommandErrorModel::AddColNeedsHeader),
        }
    } else if verb == "work"@ {
        Ok(CommandModel::Work(nonempty(quoted)))
    } else if verb == "link"@ {
        Ok(CommandModel::Link { addr, titles: nonempty(quoted) })
    } else if verb == "status"@ {
        match spec_parse_status(nth_or_empty(toks, 1)) {
            Ok(st) => Ok(CommandModel::SetStatus { addr: nth_or_empty(toks, 0), status: st }),
            Err(e) => Err(status_error(e, nth_or_empty(toks, 1))),
        }
    } else if verb == "note"@ {
        Ok(CommandModel::Note { addr, lines: nonempty(quoted) })
    } else if verb == "attach"@ {
        Ok(CommandModel::Attach { addr, refs: nonempty(quoted) })
    } else if verb == "at"@ {
        Ok(CommandModel::At { addr, locs: nonempty(quoted) })
    } else if verb == "cat"@ || verb == "category"@ {
        Ok(CommandModel::Category { addr, value: nth_nonempty(parts, 1) })
    } else if verb == "id"@ {
        Ok(CommandModel::Id { addr, value: nth_nonempty(parts, 1) })
    } else if verb == "comment"@ {
        Ok(CommandModel::Comment { addr, value: nth_nonempty(parts, 1) })
    } else if verb == "derive"@ {
        Ok(CommandModel::Derive { addr: nth_or_empty(toks, 0), on: !is_off_word(nth_or_empty(toks, 1)) })
    } else if verb == "sha"@ {
        Ok(CommandModel::Sha { addr, value: nth_nonempty(parts, 1) })
    } else if verb == "mv"@ {
        Ok(
            CommandModel::Move {
                addr: nth_or_empty(toks, 0),
                delta: match spec_parse_isize(nth_or_empty(toks, 1)) {
                    Some(d) => d,
                    None => 0,
                },
            },
        )
    } else if verb == "add"@ || verb == "set"@ {
        if quoted.len() == 0 {
            Err(CommandErrorModel::NeedsText(verb))
        } else {
            match inline_status(parts) {
                Some(Err(e)) => Err(e),
                st => {
                    let status = match st {
                        Some(Ok(v)) => Some(v),
                        _ => None,
                    };
                    if verb == "add"@ {
                        Ok(
                            CommandModel::Add {
                                addr,
                                text: quoted[0],
                                serves: quoted.drop_first(),
                                status: match status {
                                    Some(v) => v,
                                    None => None,
                                },
                            },
                        )
                    } else {
                        Ok(
                            CommandModel::SetItem {
                                addr,
                                text: quoted[0],
                                serves: if quoted.len() > 1 { Some(quoted.drop_first()) } else { None },
                                status,
                            },
                        )
                    }
                },
            }
        }
    } else if verb == "sel"@ {
        Ok(CommandModel::Sel(addr))
    } else if verb == "del"@ {
        Ok(CommandModel::Del(addr))
    } else if verb == "delcol"@ {
        Ok(CommandModel::DelCol(addr))
    } else if verb == "setcol"@ {
        Ok(CommandModel::SetCol { addr, header: quote_text(rest) })
    } else {
        Err(CommandErrorModel::Unknown(verb))
    }
}

/// The verb and what follows it.
fn verb_and_rest(line: &str) -> (r: (String, String))
    ensures
        r.0@ == verb_of(line@),
        r.1@ == rest_of(line@),
{
    let l = trim_str(line);
    let v = chars_of(l.as_str());
    let n = v.len();
    let mut k: usize = 0;
    while k < n && !is_whitespace(v[k])
        invariant
            k <= n == l@.len(),
            v@ == l@,
            run_end(l@, 0) == run_end(l@, k as int),
        decreases n - k,
    {
        k += 1;
    }
    proof {
        lemma_run_end(l@, k as int);
    }
    let verb = string_of(&v, 0, k);
    assert(v@.subrange(0, k as int) =~= l@.take(k as int));
    let rest = if k < n {
        let tail = string_of(&v, k + 1, n);
        assert(v@.subrange(k + 1, n as int) =~= l@.skip(k + 1));
        trim_str(tail.as_str())
    } else {
        String::new()
    };
    (verb, rest)
}

/// The payload between the first and last double quote.
fn quoted_text(rest: &str) -> (r: Option<String>)
    ensures
        sopt(r) == quote_text(rest@),
{
    let v = chars_of(rest);
    let n = v.len();
    let a = crate::text::find_char(&v, '"', 0, n);
    assert(v@.subrange(0, n as int) =~= rest@);
    let mut b: usize = n;
    while b > 0 && v[b - 1] != '"'
        invariant
            b <= n == rest@.len(),
            v@ == rest@,
            last_index(rest@, '"') == last_index(rest@.take(b as int), '"'),
        decreases b,
    {
        assert(rest@.take(b as int).drop_last() =~= rest@.take(b - 1));
        b -= 1;
    }
    proof {
        if b > 0 {
            assert(rest@.take(b as int).last() == '"');
        } else {
            assert(rest@.take(0).len() == 0);
        }
    }
    assert(rest@.take(n as int) =~= rest@);
    if a < n && b > 0 && b - 1 > a {
        Some(string_of(&v, a + 1, b - 1))
    } else {
        None
    }
}

/// The pieces of `rest` between double quotes.
fn quote_pieces(rest: &str) -> (r: Vec<String>)
    ensures
        strs(r@) == split_on(rest@, '"'),
{
    let v = chars_of(rest);
    let b = split_bounds(&v, '"', 0, v.len());
    assert(v@.subrange(0, v@.len() as int) =~= rest@);
    let mut out: Vec<String> = Vec::new();
    let mut i: usize = 0;
    while i < b.len()
        invariant
            i <= b@.len(),
            v@ == rest@,
            b@.len() == split_on(rest@, '"').len(),
            forall|k: int|
                0 <= k < b@.len() ==> (#[trigger] b@[k]).0 <= b@[k].1 <= v@.len() && v@.subrange(
                    b@[k].0 as int,
                    b@[k].1 as int,
                ) == split_on(rest@, '"')[k],
            strs(out@) == split_on(rest@, '"').take(i as int),
        decreases b.len() - i,
    {
        let (x, y) = b[i];
        let ghost po = strs(out@);
        out.push(string_of(&v, x, y));
        assert(strs(out@) =~= po.push(split_on(rest@, '"')[i as int]));
        assert(split_on(rest@, '"').take(i + 1) =~= split_on(rest@, '"').take(i as int).push(
            split_on(rest@, '"')[i as int],
        ));
        i += 1;
    }
    assert(split_on(rest@, '"').take(b@.len() as int) =~= split_on(rest@, '"'));
    out
}

/// The pieces at odd (`odd`) or even positions.
fn every_other(p: &Vec<String>, odd: bool) -> (r: Vec<String>)
    ensures
        strs(r@) == (if odd { odd_pieces(strs(p@)) } else { even_pieces(strs(p@)) }),
{
    let ghost want = if odd { odd_pieces(strs(p@)) } else { even_pieces(strs(p@)) };
    let start: usize = if odd { 1 } else { 0 };
    let count: usize = if odd { p.len() / 2 } else { p.len() / 2 + p.len() % 2 };
    assert(count == want.len());
    let mut out: Vec<String> = Vec::new();
    let mut j: usize = 0;
    while j < count
        invariant
            want == (if odd { odd_pieces(strs(p@)) } else { even_pieces(strs(p@)) }),
            count == want.len(),
            start == (if odd { 1usize } else { 0usize }),
            2 * count + start <= p@.len() + 1,
            p@.len() <= usize::MAX,
            j <= count,
            strs(out@) == want.take(j as int),
        decreases count - j,
    {
        assert(2 * j + start < p@.len());
        let i = 2 * j + start;
        let ghost po = strs(out@);
        out.push(to_owned(p[i].as_str()));
        assert(want[j as int] == strs(p@)[i as int]);
        assert(strs(out@) =~= po.push(strs(p@)[i as int]));
        assert(strs(out@) =~= want.take(j + 1));
        j += 1;
    }
    assert(want.take(count as int) =~= want);
    out
}

/// The non-empty values of `v`.
fn keep_nonempty(v: &Vec<String>) -> (r: Vec<String>)
    ensures
        strs(r@) == nonempty(strs(v@)),
{
    let mut out: Vec<String> = Vec::new();
    let mut i: usize = 0;
    while i < v.len()
        invariant
            i <= v@.len(),
            strs(out@) == nonempty(strs(v@).take(i as int)),
        decreases v.len() - i,
    {
        assert(strs(v@).take(i + 1).drop_last() =~= strs(v@).take(i as int));
        if chars_of(v[i].as_str()).len() > 0 {
            let ghost po = strs(out@);
            out.push(to_owned(v[i].as_str()));
            assert(strs(out@) =~= po.push(v@[i as int]@));
        }
        i += 1;
    }
    assert(strs(v@).take(v@.len() as int) =~= strs(v@));
    out
}

/// The `i`-th value of `p`, or empty.
fn nth_str(p: &Vec<String>, i: usize) -> (r: String)
    ensures
        r@ == nth_or_empty(strs(p@), i as int),
{
    if i < p.len() { to_owned(p[i].as_str()) } else { String::new() }
}

/// The `i`-th value of `p` when present and not empty.
fn nth_given(p: &Vec<String>, i: usize) -> (r: Option<String>)
    ensures
        sopt(r) == nth_nonempty(strs(p@), i as int),
{
    if i < p.len() && chars_of(p[i].as_str()).len() > 0 { Some(to_owned(p[i].as_str())) } else { None }
}

/// The index of the first `w` in `p`.
fn position_in(p: &Vec<String>, w: &str) -> (r: Option<usize>)
    ensures
        match r {
            Some(i) => position_of(strs(p@), w@) == Some(i as int) && i < p@.len(),
            None => position_of(strs(p@), w@) is None,
        },
{
    let mut i: usize = 0;
    assert(strs(p@).skip(0) =~= strs(p@));
    while i < p.len()
        invariant
            i <= p@.len(),
            position_of(strs(p@), w@) == (match position_of(strs(p@).skip(i as int), w@) {
                Some(j) => Some(j + i),
                None => None::<int>,
            }),
        decreases p.len() - i,
    {
        assert(strs(p@).skip(i as int)[0] == p@[i as int]@);
        assert(strs(p@).skip(i as int).drop_first() =~= strs(p@).skip(i + 1));
        if str_eq(p[i].as_str(), w) {
            return Some(i);
        }
        i += 1;
    }
    None
}

/// `str::parse::<isize>`.
pub fn parse_isize(s: &str) -> (r: Option<isize>)
    ensures
        match r {
            Some(d) => spec_parse_isize(s@) == Some(d as int),
            None => spec_parse_isize(s@) is None,
        },
{
    let v = chars_of(s);
    let n = v.len();
    assert(v@.subrange(0, n as int) =~= s@);
    if n > 0 && v[0] == '-' {
        assert(v@.subrange(1, n as int) =~= s@.drop_first());
        if n > 1 && v[1] == '+' {
            assert(!crate::runs::is_digit(s@.drop_first()[0]));
            return None;
        }
        let m = (isize::MAX as u64) + 1;
        match parse_uint(&v, 1, n, m) {
            Some(x) => {
                proof {
                    let d = s@.drop_first();
                    assert(d.len() == 0 || d[0] != '+');
                }
                if x == m {
                    Some(isize::MIN)
                } else {
                    Some(0 - (x as isize))
                }
            },
            None => {
                proof {
                    let d = s@.drop_first();
                    assert(d.len() == 0 || d[0] != '+');
                }
                None
            },
        }
    } else {
        match parse_uint(&v, 0, n, isize::MAX as u64) {
            Some(x) => Some(x as isize),
            None => None,
        }
    }
}

fn status_err(e: StatusWordError, word: String) -> (r: CommandError)
    ensures
        r@ == status_error(e, word@),
{
    match e {
        StatusWordError::Empty => CommandError::StatusNeedsValue,
        StatusWordError::Unknown => CommandError::BadStatus(word),
    }
}

/// The status given inline on an `add` / `set` line, if any.
fn status_of_parts(parts: &Vec<String>) -> (r: Option<Result<Option<Status>, CommandError>>)
    ensures
        match r {
            None => inline_status(strs(parts@)) is None,
            Some(Ok(st)) => inline_status(strs(parts@)) == Some(Ok::<Option<Status>, CommandErrorModel>(st)),
            Some(Err(e)) => inline_status(strs(parts@)) == Some(Err::<Option<Status>, CommandErrorModel>(e@)),
        },
{
    let evens = every_other(parts, false);
    let mut joined = String::new();
    proof {
        reveal_strlit(" ");
    }
    push_joined(&mut joined, &evens, " ");
    assert(joined@ =~= join(even_pieces(strs(parts@)), " "@));
    let stoks = split_ws(joined.as_str());
    proof {
        reveal_strlit("status");
        reveal_strlit("na");
    }
    match position_in(&stoks, "status") {
        Some(p) => {
            assert(p < stoks@.len());
            let w = if p < stoks.len() - 1 { to_owned(stoks[p + 1].as_str()) } else { to_owned("na") };
            match parse_status(w.as_str()) {
                Ok(st) => Some(Ok(st)),
                Err(e) => Some(Err(status_err(e, w))),
            }
        },
        None => None,
    }
}

/// Parses one agent command line into the command it names.
pub fn parse_command(line: &str) -> (r: Result<Command, CommandError>)
    ensures
        match r {
            Ok(c) => spec_command(line@) == Ok::<CommandModel, CommandErrorModel>(c@),
            Err(e) => spec_command(line@) == Err::<CommandModel, CommandErrorModel>(e@),
        },
{
    proof {
        reveal_strlit("usage");
        reveal_strlit("help");
        reveal_strlit("observe");
        reveal_strlit("coverage");
        reveal_strlit("trace");
        reveal_strlit("depends");
        reveal_strlit("page");
        reveal_strlit("addpage");
        reveal_strlit("setstyle");
        reveal_strlit("renamepage");
        reveal_strlit("delpage");
        reveal_strlit("undo");
        reveal_strlit("redo");
        reveal_strlit("addcol");
        reveal_strlit("work");
        reveal_strlit("link");
        reveal_strlit("status");
        reveal_strlit("note");
        reveal_strlit("attach");
        reveal_strlit("at");
        reveal_strlit("cat");
        reveal_strlit("category");
        reveal_strlit("id");
        reveal_strlit("comment");
        reveal_strlit("derive");
        reveal_strlit("sha");
        reveal_strlit("mv");
        reveal_strlit("add");
        reveal_strlit("set");
        reveal_strlit("sel");
        reveal_strlit("del");
        reveal_strlit("delcol");
        reveal_strlit("setcol");
        reveal_strlit("off");
        reveal_strlit("no");
        reveal_strlit("false");
        reveal_strlit("clear");
    }
    let (verb, rest) = verb_and_rest(line);
    let vb = verb.as_str();
    let parts = quote_pieces(rest.as_str());
    proof {
        crate::conf::lemma_split_nonempty(rest@, '"');
    }
    let addr = trim_str(parts[0].as_str());
    let ghost addr_v = addr_part(rest@);
    assert(addr@ == addr_v);
    if str_eq(vb, "usage") || str_eq(vb, "help") {
        return Ok(Command::Usage);
    }
    if str_eq(vb, "observe") {
        let a = if chars_of(addr.as_str()).len() == 0 { None } else { Some(addr) };
        return Ok(Command::Observe(a));
    }
    if str_eq(vb, "coverage") {
        return Ok(Command::Coverage);
    }
    if str_eq(vb, "trace") || str_eq(vb, "depends") {
        return Ok(Command::Trace(addr));
    }
    if str_eq(vb, "page") {
        return Ok(Command::Page(addr));
    }
    if str_eq(vb, "addpage") {
        let w = trim_str(nth_str(&parts, 2).as_str());
        return match parse_style(w.as_str()) {
            Some(style) => Ok(Command::AddPage { id: addr, title: trim_str(nth_str(&parts, 1).as_str()), style }),
            None => Err(CommandError::BadStyle(w)),
        };
    }
    let toks = split_ws(rest.as_str());
    if str_eq(vb, "setstyle") {
        let w = nth_str(&toks, 1);
        return match parse_style(w.as_str()) {
            Some(style) => Ok(Command::SetStyle { page: nth_str(&toks, 0), style }),
            None => Err(CommandError::BadStyle(w)),
        };
    }
    if str_eq(vb, "renamepage") {
        return match nth_given(&parts, 1) {
            Some(title) => Ok(Command::RenamePage { id: addr, title }),
            None => Err(CommandError::RenamePageNeedsTitle),
        };
    }
    if str_eq(vb, "delpage") {
        return Ok(Command::DelPage(rest));
    }
    if str_eq(vb, "undo") {
        return Ok(Command::Undo);
    }
    if str_eq(vb, "redo") {
        return Ok(Command::Redo);
    }
    if str_eq(vb, "addcol") {
        return match quoted_text(rest.as_str()) {
            Some(header) => Ok(Command::AddCol { addr, header }),
            None => Err(CommandError::AddColNeedsHeader),
        };
    }
    let quoted = every_other(&parts, true);
    if str_eq(vb, "work") {
        return Ok(Command::Work(keep_nonempty(&quoted)));
    }
    if str_eq(vb, "link") {
        return Ok(Command::Link { addr, titles: keep_nonempty(&quoted) });
    }
    if str_eq(vb, "status") {
        let w = nth_str(&toks, 1);
        return match parse_status(w.as_str()) {
            Ok(status) => Ok(Command::SetStatus { addr: nth_str(&toks, 0), status }),
            Err(e) => Err(status_err(e, w)),
        };
    }
    if str_eq(vb, "note") {
        return Ok(Command::Note { addr, lines: keep_nonempty(&quoted) });
    }
    if str_eq(vb, "attach") {
        return Ok(Command::Attach { addr, refs: keep_nonempty(&quoted) });
    }
    if str_eq(vb, "at") {
        return Ok(Command::At { addr, locs: keep_nonempty(&quoted) });
    }
    if str_eq(vb, "cat") || str_eq(vb, "category") {
        return Ok(Command::Category { addr, value: nth_given(&parts, 1) });
    }
    if str_eq(vb, "id") {
        return Ok(Command::Id { addr, value: nth_given(&parts, 1) });
    }
    if str_eq(vb, "comment") {
        return Ok(Command::Comment { addr, value: nth_given(&parts, 1) });
    }
    if str_eq(vb, "derive") {
        let w = nth_str(&toks, 1);
        let off = str_eq(w.as_str(), "off") || str_eq(w.as_str(), "no") || str_eq(w.as_str(), "false")
            || str_eq(w.as_str(), "clear");
        return Ok(Command::Derive { addr: nth_str(&toks, 0), on: !off });
    }
    if str_eq(vb, "sha") {
        return Ok(Command::Sha { addr, value: nth_given(&parts, 1) });
    }
    if str_eq(vb, "mv") {
        let delta = match parse_isize(nth_str(&toks, 1).as_str()) {
            Some(d) => d,
            None => 0,
        };
        return Ok(Command::Move { addr: nth_str(&toks, 0), delta });
    }
    let is_add = str_eq(vb, "add");
    if is_add || str_eq(vb, "set") {
        if quoted.len() == 0 {
            return Err(CommandError::NeedsText(verb));
        }
        let st = status_of_parts(&parts);
        let given = match st {
            Some(Err(e)) => {
                return Err(e);
            },
            Some(Ok(v)) => Some(v),
            None => None,
        };
        let text = to_owned(quoted[0].as_str());
        let mut serves: Vec<String> = Vec::new();
        let mut i: usize = 1;
        while i < quoted.len()
            invariant
                1 <= i <= quoted@.len(),
                strs(serves@) == strs(quoted@).subrange(1, i as int),
            decreases quoted.len() - i,
        {
            let ghost po = strs(serves@);
            serves.push(to_owned(quoted[i].as_str()));
            assert(strs(serves@) =~= po.push(strs(quoted@)[i as int]));
            assert(strs(quoted@).subrange(1, i + 1) =~= strs(quoted@).subrange(1, i as int).push(
                strs(quoted@)[i as int],
            ));
            i += 1;
        }
        assert(strs(quoted@).subrange(1, quoted@.len() as int) =~= strs(quoted@).drop_first());
        if is_add {
            let status = match given {
                Some(v) => v,
                None => None,
            };
            return Ok(Command::Add { addr, text, serves, status });
        }
        let serves = if quoted.len() > 1 { Some(serves) } else { None };
        return Ok(Command::SetItem { addr, text, serves, status: given });
    }
    if str_eq(vb, "sel") {
        return Ok(Command::Sel(addr));
    }
    if str_eq(vb, "del") {
        return Ok(Command::Del(addr));
    }
    if str_eq(vb, "delcol") {
        return Ok(Command::DelCol(addr));
    }
    if str_eq(vb, "setcol") {
        return Ok(Command::SetCol { addr, header: quoted_text(rest.as_str()) });
    }
    Err(CommandError::Unknown(verb))
}

} // verus!
