//! Command-line flags: `--key value` and boolean `--flag`.
use vstd::prelude::*;

use crate::text::str_eq;

verus! {

pub open spec fn args_view(v: Seq<String>) -> Seq<Seq<char>> {
    v.map_values(|s: String| s@)
}

/// Index of the first argument equal to `name`, or `args.len()`.
pub open spec fn arg_pos(args: Seq<Seq<char>>, name: Seq<char>) -> int
    decreases args.len(),
{
    if args.len() == 0 {
        0
    } else if args[0] == name {
        0
    } else {
        1 + arg_pos(args.drop_first(), name)
    }
}

proof fn lemma_arg_pos_at(args: Seq<Seq<char>>, name: Seq<char>, i: int)
    requires
        0 <= i <= args.len(),
        forall|j: int| 0 <= j < i ==> args[j] != name,
        i < args.len() ==> args[i] == name,
    ensures
        arg_pos(args, name) == i,
    decreases args.len(),
{
    if args.len() > 0 && i > 0 {
        assert forall|j: int| 0 <= j < i - 1 implies args.drop_first()[j] != name by {
            assert(args.drop_first()[j] == args[j + 1]);
        }
        lemma_arg_pos_at(args.drop_first(), name, i - 1);
    }
}

/// The argument after the first `name`, if `name` is there and not last.
pub open spec fn spec_flag_value(args: Seq<Seq<char>>, name: Seq<char>) -> Option<Seq<char>> {
    let i = arg_pos(args, name);
    if i + 1 < args.len() {
        Some(args[i + 1])
    } else {
        None
    }
}

fn position(args: &[String], name: &str) -> (r: usize)
    ensures
        r as int == arg_pos(args_view(args@), name@),
        r <= args@.len(),
{
    let mut i: usize = 0;
    while i < args.len()
        invariant
            i <= args@.len(),
            forall|j: int| 0 <= j < i ==> args@[j]@ != name@,
        decreases args.len() - i,
    {
        if str_eq(args[i].as_str(), name) {
            proof {
                lemma_arg_pos_at(args_view(args@), name@, i as int);
            }
            return i;
        }
        i += 1;
    }
    proof {
        lemma_arg_pos_at(args_view(args@), name@, i as int);
    }
    i
}

/// The value following `--name value`; `None` when absent or last.
pub fn flag_value(args: &[String], name: &str) -> (r: Option<String>)
    ensures
        match r {
            Some(v) => spec_flag_value(args_view(args@), name@) == Some(v@),
            None => spec_flag_value(args_view(args@), name@) is None,
        },
{
    let i = position(args, name);
    if i < args.len() && i + 1 < args.len() {
        Some(args[i + 1].clone())
    } else {
        None
    }
}

/// True if `name` appears anywhere in `args`.
pub fn has_flag(args: &[String], name: &str) -> (r: bool)
    ensures
        r == args_view(args@).contains(name@),
{
    let i = position(args, name);
    proof {
        lemma_arg_pos(args_view(args@), name@);
        if args_view(args@).contains(name@) {
            let j = choose|j: int| 0 <= j < args@.len() && args_view(args@)[j] == name@;
            lemma_arg_pos_bound(args_view(args@), name@, j);
        }
    }
    i < args.len()
}

proof fn lemma_arg_pos(args: Seq<Seq<char>>, name: Seq<char>)
    ensures
        0 <= arg_pos(args, name) <= args.len(),
        arg_pos(args, name) < args.len() ==> args[arg_pos(args, name)] == name,
    decreases args.len(),
{
    if args.len() > 0 && args[0] != name {
        lemma_arg_pos(args.drop_first(), name);
    }
}

proof fn lemma_arg_pos_bound(args: Seq<Seq<char>>, name: Seq<char>, j: int)
    requires
        0 <= j < args.len(),
        args[j] == name,
    ensures
        arg_pos(args, name) <= j,
    decreases args.len(),
{
    if j > 0 && args[0] != name {
        assert(args.drop_first()[j - 1] == args[j]);
        lemma_arg_pos_bound(args.drop_first(), name, j - 1);
    }
}

} // verus!
