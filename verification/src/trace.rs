//! The upward trace from an item: the item, then what it serves,
//! what that serves, and so on, depth first, each title with its page or
//! marked dangling.
use vstd::prelude::*;

use crate::agent::addr_piece;
use crate::audit::{flatten_pages, flat_view, pages_view};
use crate::audit_report::{page_items, tag_items, tagged_view, Tagged};
use crate::conf::split_on;
use crate::drive::{item_addr, resolve3};
use crate::graph::strs;
use crate::history::doc_view;
use crate::protocol::{svec, BoardColumn, Item, ItemModel};
use crate::text::{chars_of, push_str, str_eq, to_owned};
use crate::wire::{has_page, pidx, Pages};

verus! {

/// How far the walk goes: titles met at most, and the deepest level whose
/// links are followed.
pub const TRACE_STEPS: usize = 300;
pub const TRACE_DEPTH: usize = 6;

/// The first item titled `t`: its page and links.
pub open spec fn titled(items: Seq<Tagged>, t: Seq<char>) -> Option<(Seq<char>, Seq<Seq<char>>)>
    decreases items.len(),
{
    if items.len() == 0 {
        None
    } else if items[0].1.text == t {
        Some((items[0].0, items[0].1.serves))
    } else {
        titled(items.drop_first(), t)
    }
}

/// `d` levels of indentation.
pub open spec fn indent(d: nat) -> Seq<char>
    decreases d,
{
    if d == 0 {
        Seq::empty()
    } else {
        indent((d - 1) as nat) + "  "@
    }
}

/// Links to push on the walk's stack: last first, so the first pops first.
pub open spec fn pushed(sv: Seq<Seq<char>>, d: nat) -> Seq<(Seq<char>, nat)> {
    Seq::new(sv.len(), |k: int| (sv[sv.len() - 1 - k], d))
}

/// The lines of the walk from `stack` after `steps` titles: pop a title,
/// write it with its page (following its links one level deeper while under
/// the depth bound) or as dangling; stop when the stack empties or the step
/// bound is reached.
pub open spec fn walk(items: Seq<Tagged>, stack: Seq<(Seq<char>, nat)>, steps: nat) -> Seq<Seq<char>>
    decreases TRACE_STEPS - steps,
{
    if stack.len() == 0 || steps >= TRACE_STEPS {
        Seq::empty()
    } else {
        let (t, d) = stack.last();
        let rest = stack.drop_last();
        match titled(items, t) {
            Some((pg, sv)) => seq![indent(d) + "⇒ "@ + t + " ("@ + pg + ")"@] + walk(
                items,
                if d < TRACE_DEPTH { rest + pushed(sv, d + 1) } else { rest },
                steps + 1,
            ),
            None => seq![indent(d) + "⇒ "@ + t + " (dangling)"@] + walk(items, rest, steps + 1),
        }
    }
}

/// The first item whose id or title is `t`.
pub open spec fn named(items: Seq<Tagged>, t: Seq<char>) -> Option<Tagged>
    decreases items.len(),
{
    if items.len() == 0 {
        None
    } else if items[0].1.id == Some(t) || items[0].1.text == t {
        Some(items[0])
    } else {
        named(items.drop_first(), t)
    }
}

/// Where the trace starts: an address with `/` names an item by position,
/// id or title; a bare token is the first item with that id or title.
pub open spec fn trace_start(pages: Pages, addr: Seq<char>) -> Result<Tagged, Seq<char>> {
    if addr.contains('/') {
        match item_addr(pages, addr) {
            Err(_) => Err("? bad address '"@ + addr + "'"@),
            Ok((p, c, q)) => if has_page(pages, p) && 0 <= c < pages[pidx(pages, p)].1@.len() && 0 <= q
                < pages[pidx(pages, p)].1@[c].items@.len() {
                Ok((p, pages[pidx(pages, p)].1@[c].items@[q]@))
            } else {
                Err("? no item "@ + addr)
            },
        }
    } else {
        match named(page_items(pages_view(pages)), addr) {
            Some(t) => Ok(t),
            None => Err("? no item '"@ + addr + "'"@),
        }
    }
}

/// The trace text: the starting item with its id and page, then either its
/// orphan mark or the walk up its links.
pub open spec fn trace_text(pages: Pages, addr: Seq<char>) -> Seq<char> {
    match trace_start(pages, addr) {
        Err(msg) => msg,
        Ok((pg, it)) => {
            let head = match it.id {
                Some(i) => "#"@ + i + " "@,
                None => Seq::empty(),
            } + it.text + "  ("@ + pg + ")"@;
            crate::digest::lines(
                seq![head] + if it.serves.len() == 0 {
                    seq!["  (links to nothing — orphan)"@]
                } else {
                    walk(page_items(pages_view(pages)), pushed(it.serves, 1), 0)
                },
            )
        },
    }
}


pub open spec fn stack_view(v: Seq<(String, usize)>) -> Seq<(Seq<char>, nat)> {
    v.map_values(|e: (String, usize)| (e.0@, e.1 as nat))
}

fn find_titled<'a>(items: &'a Vec<(String, &'a Item)>, t: &str) -> (r: Option<(&'a String, &'a Vec<String>)>)
    ensures
        match titled(tagged_view(items@), t@) {
            None => r is None,
            Some((pg, sv)) => r matches Some((p, v)) && p@ == pg && svec(v@) == sv,
        },
{
    let ghost iv = tagged_view(items@);
    let mut k: usize = 0;
    assert(iv.skip(0) =~= iv);
    while k < items.len()
        invariant
            k <= items@.len(),
            iv == tagged_view(items@),
            titled(iv, t@) == titled(iv.skip(k as int), t@),
        decreases items.len() - k,
    {
        assert(iv.skip(k as int)[0] == iv[k as int]);
        assert(iv.skip(k as int).drop_first() =~= iv.skip(k + 1));
        if str_eq(items[k].1.text.as_str(), t) {
            return Some((&items[k].0, &items[k].1.serves));
        }
        k += 1;
    }
    assert(iv.skip(k as int) =~= Seq::<Tagged>::empty());
    None
}

fn find_named<'a>(items: &'a Vec<(String, &'a Item)>, t: &str) -> (r: Option<(&'a String, &'a Item)>)
    ensures
        match named(tagged_view(items@), t@) {
            None => r is None,
            Some((pg, it)) => r matches Some((p, x)) && p@ == pg && x@ == it,
        },
{
    let ghost iv = tagged_view(items@);
    let mut k: usize = 0;
    assert(iv.skip(0) =~= iv);
    while k < items.len()
        invariant
            k <= items@.len(),
            iv == tagged_view(items@),
            named(iv, t@) == named(iv.skip(k as int), t@),
        decreases items.len() - k,
    {
        assert(iv.skip(k as int)[0] == iv[k as int]);
        assert(iv.skip(k as int).drop_first() =~= iv.skip(k + 1));
        let hit = match &items[k].1.id {
            Some(x) => str_eq(x.as_str(), t),
            None => false,
        } || str_eq(items[k].1.text.as_str(), t);
        if hit {
            return Some((&items[k].0, items[k].1));
        }
        k += 1;
    }
    assert(iv.skip(k as int) =~= Seq::<Tagged>::empty());
    None
}

fn push_links(stack: &mut Vec<(String, usize)>, sv: &Vec<String>, d: usize)
    ensures
        stack_view(final(stack)@) == stack_view(old(stack)@) + pushed(svec(sv@), d as nat),
{
    let ghost start = stack_view(stack@);
    let mut k: usize = sv.len();
    while k > 0
        invariant
            k <= sv@.len(),
            stack_view(stack@) == start + pushed(svec(sv@), d as nat).take((sv@.len() - k) as int),
        decreases k,
    {
        k -= 1;
        let ghost before = stack_view(stack@);
        stack.push((to_owned(sv[k].as_str()), d));
        assert(stack_view(stack@) =~= before.push((sv@[k as int]@, d as nat)));
        assert(pushed(svec(sv@), d as nat).take((sv@.len() - k) as int) =~= pushed(svec(sv@), d as nat).take(
            (sv@.len() - k - 1) as int,
        ).push((sv@[k as int]@, d as nat)));
    }
    assert(pushed(svec(sv@), d as nat).take(sv@.len() as int) =~= pushed(svec(sv@), d as nat));
}

fn push_indent(s: &mut String, d: usize)
    ensures
        final(s)@ == old(s)@ + indent(d as nat),
{
    proof {
        reveal_strlit("  ");
    }
    let mut k: usize = 0;
    while k < d
        invariant
            k <= d,
            s@ == old(s)@ + indent(k as nat),
        decreases d - k,
    {
        push_str(s, "  ");
        k += 1;
    }
}

/// The trace from an item up its links.
pub fn trace(pages: &Vec<(String, Vec<BoardColumn>)>, addr: &str) -> (r: String)
    ensures
        r@ == trace_text(pages@, addr@),
{
    proof {
        reveal_strlit("? bad address '");
        reveal_strlit("'");
        reveal_strlit("? no item ");
        reveal_strlit("? no item '");
        reveal_strlit("#");
        reveal_strlit(" ");
        reveal_strlit("  (");
        reveal_strlit(")");
        reveal_strlit("  (links to nothing — orphan)");
        reveal_strlit("⇒ ");
        reveal_strlit(" (");
        reveal_strlit(" (dangling)");
        reveal_strlit("\n");
    }
    let flat = flatten_pages(pages);
    let items = tag_items(&flat, 0);
    let ghost iv = tagged_view(items@);
    assert(flat_view(flat@).skip(0) =~= pages_view(pages@));
    let cs = chars_of(addr);
    let mut slash = false;
    let mut k: usize = 0;
    while k < cs.len()
        invariant
            k <= cs@.len(),
            cs@ == addr@,
            slash == cs@.take(k as int).contains('/'),
        decreases cs.len() - k,
    {
        if cs[k] == '/' {
            slash = true;
        }
        proof {
            let t1 = cs@.take(k + 1);
            assert(t1 =~= cs@.take(k as int).push(cs@[k as int]));
            if cs@[k as int] == '/' {
                assert(t1[k as int] == '/');
            }
            if cs@.take(k as int).contains('/') {
                let j = choose|j: int| 0 <= j < cs@.take(k as int).len() && cs@.take(k as int)[j] == '/';
                assert(t1[j] == '/');
            }
            if t1.contains('/') {
                let j = choose|j: int| 0 <= j < t1.len() && t1[j] == '/';
                if j < k {
                    assert(cs@.take(k as int)[j] == '/');
                }
            }
        }
        k += 1;
    }
    assert(cs@.take(k as int) =~= addr@);
    let (pg, it): (String, &Item) = if slash {
        match resolve3(pages, addr) {
            Err(_) => {
                let mut m = to_owned("? bad address '");
                push_str(&mut m, addr);
                push_str(&mut m, "'");
                return m;
            },
            Ok((p, c, q)) => {
                let i = crate::history::find_page(pages, p.as_str());
                if i < pages.len() && c < pages[i].1.len() && q < pages[i].1[c].items.len() {
                    proof {
                        crate::history::lemma_page_index_range(doc_view(pages@), p@);
                    }
                    (p, &pages[i].1[c].items[q])
                } else {
                    proof {
                        crate::history::lemma_page_index_range(doc_view(pages@), p@);
                    }
                    let mut m = to_owned("? no item ");
                    push_str(&mut m, addr);
                    return m;
                }
            },
        }
    } else {
        match find_named(&items, addr) {
            Some((p, x)) => (to_owned(p.as_str()), x),
            None => {
                let mut m = to_owned("? no item '");
                push_str(&mut m, addr);
                push_str(&mut m, "'");
                return m;
            },
        }
    };
    assert(trace_start(pages@, addr@) == Ok::<Tagged, Seq<char>>((pg@, it@)));
    let mut head = String::new();
    match &it.id {
        Some(i) => {
            push_str(&mut head, "#");
            push_str(&mut head, i.as_str());
            push_str(&mut head, " ");
        },
        None => {},
    }
    push_str(&mut head, it.text.as_str());
    push_str(&mut head, "  (");
    push_str(&mut head, pg.as_str());
    push_str(&mut head, ")");
    assert(head@ == match it@.id {
        Some(i) => "#"@ + i + " "@,
        None => Seq::<char>::empty(),
    } + it@.text + "  ("@ + pg@ + ")"@);
    let ghost hv = head@;
    let mut ls: Vec<String> = Vec::new();
    ls.push(head);
    assert(strs(ls@) =~= seq![hv]);
    if it.serves.len() == 0 {
        ls.push(to_owned("  (links to nothing — orphan)"));
        assert(strs(ls@) =~= seq![hv] + seq!["  (links to nothing — orphan)"@]);
    } else {
        let mut stack: Vec<(String, usize)> = Vec::new();
        push_links(&mut stack, &it.serves, 1);
        assert(stack_view(stack@) =~= pushed(it@.serves, 1));
        let ghost top = strs(ls@);
        let ghost goal = top + walk(iv, pushed(it@.serves, 1), 0);
        let mut steps: usize = 0;
        while stack.len() > 0 && steps < TRACE_STEPS
            invariant
                steps <= TRACE_STEPS,
                iv == tagged_view(items@),
                goal == top + walk(iv, pushed(it@.serves, 1), 0),
                strs(ls@) + walk(iv, stack_view(stack@), steps as nat) == goal,
            decreases TRACE_STEPS - steps,
        {
            let ghost sv0 = stack_view(stack@);
            let ghost w0 = walk(iv, sv0, steps as nat);
            let (t, d) = stack.pop().unwrap();
            assert(stack_view(stack@) =~= sv0.drop_last());
            let mut l = String::new();
            push_indent(&mut l, d);
            push_str(&mut l, "⇒ ");
            push_str(&mut l, t.as_str());
            match find_titled(&items, t.as_str()) {
                Some((p, sv)) => {
                    push_str(&mut l, " (");
                    push_str(&mut l, p.as_str());
                    push_str(&mut l, ")");
                    if d < TRACE_DEPTH {
                        push_links(&mut stack, sv, d + 1);
                    }
                },
                None => {
                    push_str(&mut l, " (dangling)");
                },
            }
            let ghost lv = l@;
            let ghost before = strs(ls@);
            ls.push(l);
            steps += 1;
            proof {
                assert(strs(ls@) =~= before.push(lv));
                assert(w0 =~= seq![lv] + walk(iv, stack_view(stack@), steps as nat));
                assert(strs(ls@) + walk(iv, stack_view(stack@), steps as nat) =~= before + w0);
            }
        }
        assert(walk(iv, stack_view(stack@), steps as nat) =~= Seq::<Seq<char>>::empty());
        assert(strs(ls@) =~= goal);
    }
    let mut out = String::new();
    crate::agent::push_joined(&mut out, &ls, "\n");
    proof {
        assert(svec(ls@) =~= strs(ls@));
        let body = if it@.serves.len() == 0 {
            seq!["  (links to nothing — orphan)"@]
        } else {
            walk(page_items(pages_view(pages@)), pushed(it@.serves, 1), 0)
        };
        assert(strs(ls@) =~= seq![hv] + body);
        assert(out@ =~= crate::digest::lines(strs(ls@)));
    }
    out
}

} // verus!
