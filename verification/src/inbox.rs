//! The live inbox: a running viewer takes the batch of command lines an
//! agent appended and runs each in turn against its document. Claiming the
//! batch (the file swap) is the caller's work.
use vstd::prelude::*;

use crate::conf::{split_bounds, split_on};
use crate::drive::{dispatched, roomy, DispatchError, Reply};
use crate::text::{chars_of, string_of};
use crate::wire::Doc;

verus! {

/// A line without the `\r` of a `\r\n` ending.
pub open spec fn strip_cr(l: Seq<char>) -> Seq<char> {
    if l.len() > 0 && l.last() == '\r' {
        l.drop_last()
    } else {
        l
    }
}

/// The lines of a text: the pieces between newlines, each line that a
/// newline ends without its `\r`, and no empty piece after a final newline.
pub open spec fn text_lines(s: Seq<char>) -> Seq<Seq<char>> {
    let parts = split_on(s, '\n');
    let n = parts.len() as int;
    let k = if n > 0 && parts[n - 1].len() == 0 {
        n - 1
    } else {
        n
    };
    Seq::new(k as nat, |i: int| if i < n - 1 { strip_cr(parts[i]) } else { parts[i] })
}

/// One inbox line run against `mid`: dispatched, `ok` telling whether the
/// command succeeded, unless the document is too full to take another item,
/// when the line is skipped and nothing is applied.
pub open spec fn drain_step(mid: Doc, new: Doc, line: Seq<char>, ok: bool) -> bool {
    if roomy(mid.pages@) {
        exists|r: Result<Reply, DispatchError>| #[trigger] dispatched(mid, new, line, r) && ok == (r is Ok)
    } else {
        new == mid && !ok
    }
}

/// `docs` runs lines `ls` one after another, `oks` telling which lines were
/// applied: each document is the one before it with the next line run.
pub open spec fn drain_trace(docs: Seq<Doc>, oks: Seq<bool>, ls: Seq<Seq<char>>) -> bool {
    &&& docs.len() == ls.len() + 1
    &&& oks.len() == ls.len()
    &&& forall|i: int| 0 <= i < ls.len() ==> #[trigger] drain_step(docs[i], docs[i + 1], ls[i], oks[i])
}

/// The document after running lines `ls` one after another from `old`, and
/// whether any of them was applied.
pub open spec fn drained(old: Doc, new: Doc, ls: Seq<Seq<char>>, applied: bool) -> bool {
    exists|docs: Seq<Doc>, oks: Seq<bool>|
        #[trigger] drain_trace(docs, oks, ls) && docs[0] == old && docs.last() == new && applied == oks.contains(
            true,
        )
}

impl Doc {
    /// Runs a batch of inbox text, line by line, ignoring lines that fail;
    /// true when some line's command was applied.
    pub fn drain(&mut self, text: &str) -> (r: bool)
        requires
            old(self).wf(),
        ensures
            final(self).wf(),
            drained(*old(self), *final(self), text_lines(text@), r),
    {
        let t = chars_of(text);
        let bs = split_bounds(&t, '\n', 0, t.len());
        assert(t@.subrange(0, t@.len() as int) =~= text@);
        let ghost parts = split_on(text@, '\n');
        let ghost ls = text_lines(text@);
        let ghost start = *self;
        let ghost mut trace: Seq<Doc> = seq![*self];
        let ghost mut oks: Seq<bool> = Seq::empty();
        let n = bs.len();
        if n == 0 {
            assert(ls.len() == 0);
            assert(drain_trace(seq![*self], oks, ls));
            assert(!oks.contains(true));
            return false;
        }
        let k = if bs[n - 1].0 == bs[n - 1].1 {
            n - 1
        } else {
            n
        };
        assert(ls.len() == k);
        assert(ls.take(0) =~= Seq::<Seq<char>>::empty());
        assert(drain_trace(trace, oks, ls.take(0)));
        let mut applied = false;
        let mut i: usize = 0;
        while i < k
            invariant
                k <= n == bs@.len() == parts.len(),
                parts == split_on(text@, '\n'),
                ls == text_lines(text@),
                ls.len() == k,
                t@ == text@,
                forall|j: int|
                    0 <= j < bs@.len() ==> (#[trigger] bs@[j]).0 <= bs@[j].1 <= t@.len() && t@.subrange(
                        bs@[j].0 as int,
                        bs@[j].1 as int,
                    ) == parts[j],
                i <= k,
                self.wf(),
                drain_trace(trace, oks, ls.take(i as int)),
                trace[0] == start,
                trace.last() == *self,
                applied == oks.contains(true),
            decreases k - i,
        {
            let (a, b) = bs[i];
            let mut e = b;
            if i + 1 < n && e > a && t[e - 1] == '\r' {
                e = e - 1;
            }
            let line = string_of(&t, a, e);
            proof {
                let p = parts[i as int];
                assert(t@.subrange(a as int, b as int) == p);
                if i + 1 < n && b > a && t@[b - 1] == '\r' {
                    assert(line@ =~= p.drop_last());
                } else {
                    assert(line@ =~= p);
                }
                assert(line@ == ls[i as int]);
            }
            let ghost mid = *self;
            let ghost l2 = ls.take(i + 1);
            let mut ok = false;
            if self.is_roomy() {
                let res = self.dispatch(line.as_str());
                ok = res.is_ok();
                assert(dispatched(mid, *self, l2[i as int], res) && ok == (res is Ok));
            }
            proof {
                assert(drain_step(mid, *self, l2[i as int], ok));
                let t2 = trace.push(*self);
                let o2 = oks.push(ok);
                assert forall|j: int| 0 <= j < l2.len() implies #[trigger] drain_step(t2[j], t2[j + 1], l2[j], o2[j]) by {
                    if j < i {
                        assert(t2[j] == trace[j] && t2[j + 1] == trace[j + 1] && l2[j] == ls.take(i as int)[j]
                            && o2[j] == oks[j]);
                    } else {
                        assert(t2[j] == mid && t2[j + 1] == *self && o2[j] == ok);
                    }
                }
                assert(o2.contains(true) == (oks.contains(true) || ok)) by {
                    if ok {
                        assert(o2[oks.len() as int] == true);
                    }
                    if oks.contains(true) {
                        let q = choose|q: int| 0 <= q < oks.len() && oks[q] == true;
                        assert(o2[q] == true);
                    }
                    if o2.contains(true) {
                        let q = choose|q: int| 0 <= q < o2.len() && o2[q] == true;
                        if q < oks.len() {
                            assert(oks[q] == o2[q]);
                        }
                    }
                }
                trace = t2;
                oks = o2;
            }
            applied = applied || ok;
            i += 1;
        }
        assert(ls.take(k as int) =~= ls);
        assert(drain_trace(trace, oks, ls));
        applied
    }
}

} // verus!
