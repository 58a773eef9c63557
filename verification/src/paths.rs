//! Board paths. `ARTE_TRUTH_DIR`, `ARTE_RUNS_DIR` and `ARTE_DISPATCH_PATH` name
//! the concrete truth directory, runs directory and dispatch file; unset or empty
//! they fall back to the defaults below. The caller reads the environment.
use vstd::prelude::*;

use crate::text::{push_str, to_owned};

verus! {

pub const DEFAULT_TRUTH_DIR: &'static str = ".truth";

pub const DEFAULT_RUNS_DIR: &'static str = "qa/runs";

pub const DEFAULT_DISPATCH_PATH: &'static str = ".loop-dispatch";

/// An environment value when set and not empty, else the default.
pub open spec fn spec_resolve(env: Option<Seq<char>>, default: Seq<char>) -> Seq<char> {
    match env {
        Some(v) => if v.len() > 0 {
            v
        } else {
            default
        },
        None => default,
    }
}

pub open spec fn opt_view(o: Option<&str>) -> Option<Seq<char>> {
    match o {
        Some(s) => Some(s@),
        None => None,
    }
}

fn resolve(env: Option<&str>, default: &str) -> (r: String)
    ensures
        r@ == spec_resolve(opt_view(env), default@),
{
    match env {
        Some(v) => if !v.is_empty() {
            to_owned(v)
        } else {
            to_owned(default)
        },
        None => to_owned(default),
    }
}

/// The truth directory, given the value of `ARTE_TRUTH_DIR`.
pub fn truth_dir(env: Option<&str>) -> (r: String)
    ensures
        r@ == spec_resolve(opt_view(env), DEFAULT_TRUTH_DIR@),
{
    resolve(env, DEFAULT_TRUTH_DIR)
}

/// The runs directory, given the value of `ARTE_RUNS_DIR`.
pub fn runs_dir(env: Option<&str>) -> (r: String)
    ensures
        r@ == spec_resolve(opt_view(env), DEFAULT_RUNS_DIR@),
{
    resolve(env, DEFAULT_RUNS_DIR)
}

/// The dispatch file, given the value of `ARTE_DISPATCH_PATH`.
pub fn dispatch_path(env: Option<&str>) -> (r: String)
    ensures
        r@ == spec_resolve(opt_view(env), DEFAULT_DISPATCH_PATH@),
{
    resolve(env, DEFAULT_DISPATCH_PATH)
}

/// `<truth>/<id>.node`.
pub fn node_path(truth: &str, id: &str) -> (r: String)
    ensures
        r@ == truth@ + "/"@ + id@ + ".node"@,
{
    let mut s = to_owned(truth);
    push_str(&mut s, "/");
    push_str(&mut s, id);
    push_str(&mut s, ".node");
    s
}

/// `<truth>/.focus`: the working set, one node id per line.
pub fn focus_path(truth: &str) -> (r: String)
    ensures
        r@ == truth@ + "/.focus"@,
{
    let mut s = to_owned(truth);
    push_str(&mut s, "/.focus");
    s
}

/// The working set a focus file holds: each line trimmed, blank lines dropped.
pub fn focus_ids(text: &str) -> (r: Vec<String>)
    ensures
        crate::conf::strs(r@) == nonblank(crate::conf::split_on(text@, '\n')),
{
    let t = crate::text::chars_of(text);
    let ls = crate::conf::split_bounds(&t, '\n', 0, t.len());
    let ghost lines = crate::conf::split_on(t@.subrange(0, t@.len() as int), '\n');
    assert(t@.subrange(0, t@.len() as int) =~= text@);
    let mut out: Vec<String> = Vec::new();
    let mut i: usize = 0;
    while i < ls.len()
        invariant
            i <= ls.len(),
            ls@.len() == lines.len(),
            lines == crate::conf::split_on(text@, '\n'),
            forall|k: int|
                0 <= k < ls@.len() ==> (#[trigger] ls@[k]).0 <= ls@[k].1 <= t.len() && t@.subrange(
                    ls@[k].0 as int,
                    ls@[k].1 as int,
                ) == lines[k],
            crate::conf::strs(out@) == nonblank(lines.take(i as int)),
        decreases ls.len() - i,
    {
        let (lo, hi) = ls[i];
        let (a, b) = crate::text::trim_range(&t, lo, hi);
        proof {
            assert(lines.take(i + 1).drop_last() =~= lines.take(i as int));
            assert(lines.take(i + 1).last() == lines[i as int]);
        }
        if a < b {
            let s = crate::text::string_of(&t, a, b);
            out.push(s);
            assert(crate::conf::strs(out@) =~= nonblank(lines.take(i as int)).push(s@));
        }
        i += 1;
    }
    assert(lines.take(i as int) =~= lines);
    out
}

/// The trimmed non-blank lines.
pub open spec fn nonblank(ls: Seq<Seq<char>>) -> Seq<Seq<char>>
    decreases ls.len(),
{
    if ls.len() == 0 {
        Seq::empty()
    } else if crate::text::trim(ls.last()).len() > 0 {
        nonblank(ls.drop_last()).push(crate::text::trim(ls.last()))
    } else {
        nonblank(ls.drop_last())
    }
}

/// Live-sync sidecar: the agent → viewer command inbox of a store.
pub fn inbox_path(store: &str) -> (r: String)
    ensures
        r@ == store@ + ".in"@,
{
    let mut s = to_owned(store);
    push_str(&mut s, ".in");
    s
}

/// Live-sync sidecar: the viewer → agent state digest of a store.
pub fn state_path(store: &str) -> (r: String)
    ensures
        r@ == store@ + ".state"@,
{
    let mut s = to_owned(store);
    push_str(&mut s, ".state");
    s
}

/// Live-sync sidecar: present while a viewer is live on a store.
pub fn lock_path(store: &str) -> (r: String)
    ensures
        r@ == store@ + ".lock"@,
{
    let mut s = to_owned(store);
    push_str(&mut s, ".lock");
    s
}

/// The durable working-focus titles of a store.
pub fn store_focus_path(store: &str) -> (r: String)
    ensures
        r@ == store@ + ".work"@,
{
    let mut s = to_owned(store);
    push_str(&mut s, ".work");
    s
}

} // verus!
