//! Lists of strings kept sorted and free of duplicates (what `sort` then
//! `dedup` leave behind).
use vstd::prelude::*;

use crate::graph::strs;
use crate::runs::{lemma_lex_total, lemma_lex_trans, lex_less, lex_lt};

verus! {

/// Strictly increasing: sorted, with no value twice.
pub open spec fn strictly_sorted(s: Seq<Seq<char>>) -> bool {
    forall|i: int, j: int| 0 <= i < j < s.len() ==> lex_lt(#[trigger] s[i], #[trigger] s[j])
}

/// Adds `x` to a strictly sorted list at its place, unless it is there.
pub fn insert_sorted(v: &mut Vec<String>, x: String)
    requires
        strictly_sorted(strs(old(v)@)),
    ensures
        strictly_sorted(strs(final(v)@)),
        strs(final(v)@).to_set() == strs(old(v)@).to_set().insert(x@),
{
    let ghost before = strs(v@);
    let mut k: usize = 0;
    while k < v.len() && lex_less(&v[k], &x)
        invariant
            k <= v.len(),
            before == strs(v@),
            forall|j: int| 0 <= j < k ==> lex_lt(#[trigger] strs(v@)[j], x@),
        decreases v.len() - k,
    {
        k += 1;
    }
    if k < v.len() {
        let same = !lex_less(&x, &v[k]);
        proof {
            lemma_lex_total(x@, v@[k as int]@);
        }
        if same {
            proof {
                assert(before[k as int] == x@);
                assert(before.to_set().insert(x@) =~= before.to_set());
            }
            return;
        }
    }
    let ghost xv = x@;
    v.insert(k, x);
    proof {
        let after = strs(v@);
        assert(after =~= before.insert(k as int, xv));
        assert forall|i: int, j: int| 0 <= i < j < after.len() implies lex_lt(
            #[trigger] after[i],
            #[trigger] after[j],
        ) by {
            if j == k {
                assert(after[i] == before[i]);
            } else if i == k {
                assert(after[j] == before[j - 1]);
                lemma_lex_total(xv, before[j - 1]);
                if j - 1 > k {
                    assert(lex_lt(before[k as int], before[j - 1]));
                    lemma_lex_total(xv, before[k as int]);
                    if lex_lt(before[k as int], xv) {
                    } else {
                        lemma_lex_trans(xv, before[k as int], before[j - 1]);
                    }
                }
            } else if i < k && j > k {
                assert(after[i] == before[i]);
                assert(after[j] == before[j - 1]);
            } else if j < k {
            } else {
                assert(after[i] == before[i - 1]);
                assert(after[j] == before[j - 1]);
            }
        }
        assert forall|y: Seq<char>| after.to_set().contains(y) <==> before.to_set().insert(xv).contains(y) by {
            if after.contains(y) {
                let i = choose|i: int| 0 <= i < after.len() && after[i] == y;
                if i < k {
                    assert(before[i] == y);
                } else if i > k {
                    assert(before[i - 1] == y);
                }
            }
            if before.contains(y) {
                let i = choose|i: int| 0 <= i < before.len() && before[i] == y;
                if i < k {
                    assert(after[i] == y);
                } else {
                    assert(after[i + 1] == y);
                }
            }
            if y == xv {
                assert(after[k as int] == y);
            }
        }
        assert(after.to_set() =~= before.to_set().insert(xv));
    }
}

/// The distinct values of `v` in increasing order (`sort` then `dedup`).
pub fn sorted_set(v: Vec<String>) -> (r: Vec<String>)
    ensures
        strictly_sorted(strs(r@)),
        strs(r@).to_set() == strs(v@).to_set(),
{
    let ghost orig = strs(v@);
    let mut rest = v;
    let mut out: Vec<String> = Vec::new();
    let mut i: usize = 0;
    let n = rest.len();
    proof {
        assert(strs(out@).to_set() =~= orig.take(0).to_set());
    }
    while i < n
        invariant
            i <= n == orig.len(),
            strs(rest@) == orig.skip(i as int),
            strictly_sorted(strs(out@)),
            strs(out@).to_set() == orig.take(i as int).to_set(),
        decreases n - i,
    {
        assert(strs(rest@).len() > 0);
        let ghost r0 = rest@;
        let x = rest.remove(0);
        proof {
            assert(strs(r0)[0] == orig.skip(i as int)[0]);
            assert(x@ == orig[i as int]);
            assert(rest@ =~= r0.skip(1));
            assert forall|j: int| 0 <= j < strs(rest@).len() implies strs(rest@)[j] == orig.skip(i + 1)[j] by {
                assert(strs(rest@)[j] == strs(r0)[j + 1]);
                assert(strs(r0)[j + 1] == orig.skip(i as int)[j + 1]);
            }
            assert(strs(rest@) =~= orig.skip(i + 1));
            assert(orig.take(i + 1) =~= orig.take(i as int).push(orig[i as int]));
            crate::graph::lemma_push_contains(orig.take(i as int), orig[i as int]);
        }
        insert_sorted(&mut out, x);
        i += 1;
    }
    assert(orig.take(n as int) =~= orig);
    out
}

} // verus!
