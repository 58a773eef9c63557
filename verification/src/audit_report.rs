//! The cross-layer audit summary over the viewer's board pages: coverage
//! counts per intent and per layer, the gaps, the orphaned links, and the
//! accepted failures with no rationale.
use vstd::prelude::*;

use crate::agent::join;
use crate::audit::{coverage, flat_view, flatten_pages, pages_view, refs_view, spec_coverage, CoverageModel, IntentCoverage, PageView};
use crate::display::{spec_trunc_plain, trunc_plain};
use crate::graph::strs;
use crate::sorted::{sorted_set, strictly_sorted};
use crate::protocol::{sopt, svec, BoardColumn, Item, ItemModel, Status};
use crate::text::{chars_of, push_str, str_eq, to_owned, trim, trim_str};

verus! {

/// How many coverages satisfy `f`.
pub open spec fn count_cov(cov: Seq<CoverageModel>, f: spec_fn(CoverageModel) -> bool) -> nat
    decreases cov.len(),
{
    if cov.len() == 0 {
        0
    } else {
        count_cov(cov.drop_last(), f) + if f(cov.last()) { 1nat } else { 0nat }
    }
}

/// Served by the first downstream layer.
pub open spec fn first_served(c: CoverageModel) -> bool {
    c.layers.len() > 0 && c.layers[0].1
}

/// Served by the last layer.
pub open spec fn last_served(c: CoverageModel) -> bool {
    c.layers.len() > 0 && c.layers.last().1
}

/// Served by layer `i`.
pub open spec fn served_at(i: int) -> spec_fn(CoverageModel) -> bool {
    |c: CoverageModel| 0 <= i < c.layers.len() && c.layers[i].1
}

/// Per downstream layer (as the first intent lists them): how many intents
/// it serves.
pub open spec fn layer_counts(cov: Seq<CoverageModel>) -> Seq<(Seq<char>, nat)> {
    if cov.len() == 0 {
        Seq::empty()
    } else {
        Seq::new(cov[0].layers.len(), |i: int| (cov[0].layers[i].0, count_cov(cov, served_at(i))))
    }
}

/// A gap line: `"<title> — <layer>✓ <layer>✗ …"`.
pub open spec fn gap_line(c: CoverageModel) -> Seq<char> {
    spec_trunc_plain(c.title, 22) + " — "@ + join(
        c.layers.map_values(|l: (Seq<char>, bool)| l.0 + if l.1 { "✓"@ } else { "✗"@ }),
        " "@,
    )
}

/// The gap lines of the intents not covered in every layer.
pub open spec fn gap_lines(cov: Seq<CoverageModel>) -> Seq<Seq<char>>
    decreases cov.len(),
{
    if cov.len() == 0 {
        Seq::empty()
    } else {
        let before = gap_lines(cov.drop_last());
        if cov.last().whole { before } else { before.push(gap_line(cov.last())) }
    }
}

/// The coverage part of the audit.
pub struct CoverageCounts {
    /// Intents (items of the first page).
    pub total: usize,
    /// Intents served by the first downstream layer.
    pub implemented: usize,
    /// Intents served by the last layer.
    pub verified: usize,
    /// Intents served in every layer.
    pub covered: usize,
    /// Intents whose rolled-up status is ok.
    pub validated: usize,
    /// Per downstream layer: how many intents it serves.
    pub layers: Vec<(String, usize)>,
    /// The intents not covered in every layer.
    pub gaps: Vec<String>,
}

fn count_of(covs: &Vec<IntentCoverage>, which: u8) -> (r: usize)
    requires
        which < 4,
    ensures
        r as nat == count_cov(
            crate::audit::covs_view(covs@),
            if which == 0 {
                |c: CoverageModel| first_served(c)
            } else if which == 1 {
                |c: CoverageModel| last_served(c)
            } else if which == 2 {
                |c: CoverageModel| c.whole
            } else {
                |c: CoverageModel| c.status == Some(Status::Okay)
            },
        ),
{
    let ghost cv = crate::audit::covs_view(covs@);
    let ghost f = if which == 0 {
        |c: CoverageModel| first_served(c)
    } else if which == 1 {
        |c: CoverageModel| last_served(c)
    } else if which == 2 {
        |c: CoverageModel| c.whole
    } else {
        |c: CoverageModel| c.status == Some(Status::Okay)
    };
    let mut n: usize = 0;
    let mut i: usize = 0;
    while i < covs.len()
        invariant
            i <= covs@.len(),
            cv == crate::audit::covs_view(covs@),
            which < 4,
            f == (if which == 0 {
                |c: CoverageModel| first_served(c)
            } else if which == 1 {
                |c: CoverageModel| last_served(c)
            } else if which == 2 {
                |c: CoverageModel| c.whole
            } else {
                |c: CoverageModel| c.status == Some(Status::Okay)
            }),
            n <= i,
            n as nat == count_cov(cv.take(i as int), f),
        decreases covs.len() - i,
    {
        assert(cv.take(i + 1).drop_last() =~= cv.take(i as int));
        let c = &covs[i];
        assert(cv[i as int] == c@);
        let nl = c.layers.len();
        let hit = if which == 0 {
            nl > 0 && c.layers[0].served
        } else if which == 1 {
            nl > 0 && c.layers[nl - 1].served
        } else if which == 2 {
            c.whole
        } else {
            match c.status {
                Some(Status::Okay) => true,
                _ => false,
            }
        };
        if hit {
            n += 1;
        }
        i += 1;
    }
    assert(cv.take(i as int) =~= cv);
    n
}

fn count_served_at(covs: &Vec<IntentCoverage>, k: usize) -> (r: usize)
    ensures
        r as nat == count_cov(crate::audit::covs_view(covs@), served_at(k as int)),
{
    let ghost cv = crate::audit::covs_view(covs@);
    let mut n: usize = 0;
    let mut i: usize = 0;
    while i < covs.len()
        invariant
            i <= covs@.len(),
            cv == crate::audit::covs_view(covs@),
            n <= i,
            n as nat == count_cov(cv.take(i as int), served_at(k as int)),
        decreases covs.len() - i,
    {
        assert(cv.take(i + 1).drop_last() =~= cv.take(i as int));
        let c = &covs[i];
        assert(cv[i as int] == c@);
        if k < c.layers.len() && c.layers[k].served {
            n += 1;
        }
        i += 1;
    }
    assert(cv.take(i as int) =~= cv);
    n
}

fn gap_text(c: &IntentCoverage) -> (r: String)
    ensures
        r@ == gap_line(c@),
{
    proof {
        reveal_strlit(" — ");
        reveal_strlit("✓");
        reveal_strlit("✗");
        reveal_strlit(" ");
    }
    let mut cells: Vec<String> = Vec::new();
    let mut i: usize = 0;
    while i < c.layers.len()
        invariant
            i <= c.layers@.len(),
            svec(cells@) == c@.layers.take(i as int).map_values(
                |l: (Seq<char>, bool)| l.0 + if l.1 { "✓"@ } else { "✗"@ },
            ),
        decreases c.layers.len() - i,
    {
        let mut cell = to_owned(c.layers[i].layer.as_str());
        push_str(&mut cell, if c.layers[i].served { "✓" } else { "✗" });
        let ghost po = svec(cells@);
        let ghost cv = cell@;
        cells.push(cell);
        assert(svec(cells@) =~= po.push(cv));
        assert(c@.layers.take(i + 1).map_values(|l: (Seq<char>, bool)| l.0 + if l.1 { "✓"@ } else { "✗"@ })
            =~= c@.layers.take(i as int).map_values(|l: (Seq<char>, bool)| l.0 + if l.1 { "✓"@ } else { "✗"@ }).push(
            cv,
        ));
        i += 1;
    }
    assert(c@.layers.take(i as int) =~= c@.layers);
    let mut s = trunc_plain(c.title.as_str(), 22);
    push_str(&mut s, " — ");
    crate::agent::push_joined(&mut s, &cells, " ");
    s
}

/// The coverage counts of the audit (`audit`, first half): intents in all,
/// served by the first layer, by the last, by every layer, rolled up ok;
/// per-layer serve counts; and a gap line per intent not covered.
pub fn coverage_counts(pages: &Vec<(String, Vec<BoardColumn>)>) -> (r: CoverageCounts)
    ensures
        ({
            let cov = spec_coverage(pages_view(pages@));
            &&& r.total == cov.len()
            &&& r.implemented as nat == count_cov(cov, |c: CoverageModel| first_served(c))
            &&& r.verified as nat == count_cov(cov, |c: CoverageModel| last_served(c))
            &&& r.covered as nat == count_cov(cov, |c: CoverageModel| c.whole)
            &&& r.validated as nat == count_cov(cov, |c: CoverageModel| c.status == Some(Status::Okay))
            &&& r.layers@.map_values(|l: (String, usize)| (l.0@, l.1 as nat)) == layer_counts(cov)
            &&& svec(r.gaps@) == gap_lines(cov)
        }),
{
    let covs = coverage(pages);
    let ghost cv = crate::audit::covs_view(covs@);
    let implemented = count_of(&covs, 0);
    let verified = count_of(&covs, 1);
    let covered = count_of(&covs, 2);
    let validated = count_of(&covs, 3);
    let mut layers: Vec<(String, usize)> = Vec::new();
    if covs.len() > 0 {
        let first = &covs[0];
        let mut k: usize = 0;
        while k < first.layers.len()
            invariant
                covs@.len() > 0,
                first == &covs@[0],
                cv == crate::audit::covs_view(covs@),
                k <= first.layers@.len(),
                layers@.map_values(|l: (String, usize)| (l.0@, l.1 as nat)) == layer_counts(cv).take(k as int),
            decreases first.layers.len() - k,
        {
            let n = count_served_at(&covs, k);
            let ghost po = layers@.map_values(|l: (String, usize)| (l.0@, l.1 as nat));
            layers.push((to_owned(first.layers[k].layer.as_str()), n));
            assert(layers@.map_values(|l: (String, usize)| (l.0@, l.1 as nat)) =~= po.push(
                (first@.layers[k as int].0, n as nat),
            ));
            assert(layer_counts(cv).take(k + 1) =~= layer_counts(cv).take(k as int).push(layer_counts(cv)[k as int]));
            k += 1;
        }
        assert(layer_counts(cv).take(k as int) =~= layer_counts(cv));
    } else {
        assert(layers@.map_values(|l: (String, usize)| (l.0@, l.1 as nat)) =~= layer_counts(cv));
    }
    let mut gaps: Vec<String> = Vec::new();
    let mut i: usize = 0;
    while i < covs.len()
        invariant
            i <= covs@.len(),
            cv == crate::audit::covs_view(covs@),
            svec(gaps@) == gap_lines(cv.take(i as int)),
        decreases covs.len() - i,
    {
        assert(cv.take(i + 1).drop_last() =~= cv.take(i as int));
        assert(cv[i as int] == covs@[i as int]@);
        if !covs[i].whole {
            let g = gap_text(&covs[i]);
            let ghost po = svec(gaps@);
            let ghost gv = g@;
            gaps.push(g);
            assert(svec(gaps@) =~= po.push(gv));
        }
        i += 1;
    }
    assert(cv.take(i as int) =~= cv);
    CoverageCounts { total: covs.len(), implemented, verified, covered, validated, layers, gaps }
}

// ─── orphans, derived items, accepted failures ─────────────────────────────

/// An item with the id of its page.
pub type Tagged = (Seq<char>, ItemModel);

/// The items of the pages, each with its page id, page after page.
pub open spec fn page_items(pages: Seq<PageView>) -> Seq<Tagged>
    decreases pages.len(),
{
    if pages.len() == 0 {
        Seq::empty()
    } else {
        page_items(pages.drop_last()) + pages.last().1.map_values(|it: ItemModel| (pages.last().0, it))
    }
}

/// The first link that names no title on the board.
pub open spec fn first_missing(serves: Seq<Seq<char>>, titles: Seq<Seq<char>>) -> Option<Seq<char>>
    decreases serves.len(),
{
    if serves.len() == 0 {
        None
    } else if !titles.contains(serves[0]) {
        Some(serves[0])
    } else {
        first_missing(serves.drop_first(), titles)
    }
}

/// `"<page>: "`.
pub open spec fn page_prefix(pid: Seq<char>) -> Seq<char> {
    pid + ": "@
}

/// A linked item that links to nothing, or to a title that exists nowhere
/// (items parentless by design are not orphans).
pub open spec fn link_orphan(t: Tagged, titles: Seq<Seq<char>>) -> Option<Seq<char>> {
    let it = t.1;
    if it.derived {
        None
    } else if it.serves.len() == 0 {
        Some(page_prefix(t.0) + spec_trunc_plain(it.text, 22) + " — links to nothing"@)
    } else {
        match first_missing(it.serves, titles) {
            Some(bad) => Some(
                page_prefix(t.0) + spec_trunc_plain(it.text, 16) + " — dangling → "@ + spec_trunc_plain(bad, 14),
            ),
            None => None,
        }
    }
}

/// Some item titled `s` was modified after `cm`.
pub open spec fn later_parent(all: Seq<Tagged>, s: Seq<char>, cm: u64) -> bool {
    exists|k: int|
        0 <= k < all.len() && #[trigger] all[k].1.text == s && match all[k].1.modified {
            Some(m) => m > cm,
            None => false,
        }
}

/// A title-linked item whose parent changed after it: the link went stale.
/// Items linked by id, parentless by design, or without a time are not.
pub open spec fn stale_orphan(t: Tagged, all: Seq<Tagged>) -> Option<Seq<char>> {
    let it = t.1;
    if it.derived || it.id is Some {
        None
    } else {
        match it.modified {
            None => None,
            Some(cm) => if exists|j: int| 0 <= j < it.serves.len() && later_parent(all, #[trigger] it.serves[j], cm) {
                Some(page_prefix(t.0) + spec_trunc_plain(it.text, 22) + " — parent changed since"@)
            } else {
                None
            },
        }
    }
}

/// An accepted failure with no rationale comment.
pub open spec fn deviation(t: Tagged) -> Option<Seq<char>> {
    let it = t.1;
    let comment = match it.comment {
        Some(c) => c,
        None => Seq::empty(),
    };
    if it.status == Some(Status::Justified) && trim(comment).len() == 0 {
        Some(page_prefix(t.0) + spec_trunc_plain(it.text, 22) + " — justified with no rationale"@)
    } else {
        None
    }
}

/// The lines `f` gives for the items, in order.
pub open spec fn lines_for(ts: Seq<Tagged>, f: spec_fn(Tagged) -> Option<Seq<char>>) -> Seq<Seq<char>>
    decreases ts.len(),
{
    if ts.len() == 0 {
        Seq::empty()
    } else {
        let before = lines_for(ts.drop_last(), f);
        match f(ts.last()) {
            Some(l) => before.push(l),
            None => before,
        }
    }
}

/// How many items satisfy `f`.
pub open spec fn count_items(ts: Seq<Tagged>, f: spec_fn(ItemModel) -> bool) -> nat
    decreases ts.len(),
{
    if ts.len() == 0 {
        0
    } else {
        count_items(ts.drop_last(), f) + if f(ts.last().1) { 1nat } else { 0nat }
    }
}

pub open spec fn tagged_view(v: Seq<(String, &Item)>) -> Seq<Tagged> {
    v.map_values(|t: (String, &Item)| (t.0@, t.1@))
}

/// The items of the pages from `from` on, each with its page id.
pub(crate) fn tag_items<'a>(flat: &Vec<(String, Vec<&'a Item>)>, from: usize) -> (r: Vec<(String, &'a Item)>)
    requires
        from <= flat@.len(),
    ensures
        tagged_view(r@) == page_items(flat_view(flat@).skip(from as int)),
{
    let ghost fv = flat_view(flat@);
    let mut out: Vec<(String, &'a Item)> = Vec::new();
    let mut p: usize = from;
    assert(fv.skip(from as int).take(0) =~= Seq::<PageView>::empty());
    while p < flat.len()
        invariant
            from <= p <= flat@.len(),
            fv == flat_view(flat@),
            tagged_view(out@) == page_items(fv.skip(from as int).take(p - from)),
        decreases flat.len() - p,
    {
        let ghost pv = fv.skip(from as int).take(p - from + 1);
        assert(pv.drop_last() =~= fv.skip(from as int).take(p - from));
        assert(pv.last() == fv[p as int]);
        let ghost base = tagged_view(out@);
        let items = &flat[p].1;
        let mut i: usize = 0;
        while i < items.len()
            invariant
                p < flat@.len(),
                items == &flat@[p as int].1,
                fv == flat_view(flat@),
                i <= items@.len(),
                tagged_view(out@) == base + refs_view(items@).take(i as int).map_values(
                    |it: ItemModel| (fv[p as int].0, it),
                ),
            decreases items.len() - i,
        {
            let ghost po = tagged_view(out@);
            out.push((to_owned(flat[p].0.as_str()), items[i]));
            assert(tagged_view(out@) =~= po.push((fv[p as int].0, items@[i as int]@)));
            assert(refs_view(items@).take(i + 1).map_values(|it: ItemModel| (fv[p as int].0, it)) =~= refs_view(
                items@,
            ).take(i as int).map_values(|it: ItemModel| (fv[p as int].0, it)).push((fv[p as int].0, items@[i as int]@)));
            i += 1;
        }
        assert(refs_view(items@).take(i as int) =~= refs_view(items@));
        assert(fv[p as int].1 == refs_view(items@));
        assert(tagged_view(out@) =~= page_items(pv));
        p += 1;
    }
    assert(fv.skip(from as int).take(p - from) =~= fv.skip(from as int));
    out
}

/// The downstream pages: all but the first.
pub open spec fn layer_pages(p: Seq<PageView>) -> Seq<PageView> {
    if p.len() > 0 { p.skip(1) } else { p }
}

/// Every item title on the board.
pub open spec fn all_titles(p: Seq<PageView>) -> Seq<Seq<char>> {
    page_items(p).map_values(|t: Tagged| t.1.text)
}

fn prefixed(pid: &String, text: &str, n: usize, tail: &str) -> (r: String)
    ensures
        r@ == page_prefix(pid@) + spec_trunc_plain(text@, n as nat) + tail@,
{
    proof {
        reveal_strlit(": ");
    }
    let mut s = to_owned(pid.as_str());
    push_str(&mut s, ": ");
    let t = trunc_plain(text, n);
    push_str(&mut s, t.as_str());
    push_str(&mut s, tail);
    s
}

fn link_orphan_line(t: &(String, &Item), titles: &Vec<String>) -> (r: Option<String>)
    ensures
        sopt(r) == link_orphan((t.0@, t.1@), strs(titles@)),
{
    proof {
        reveal_strlit(" — links to nothing");
        reveal_strlit(" — dangling → ");
    }
    let it = t.1;
    if it.derived {
        return None;
    }
    if it.serves.len() == 0 {
        return Some(prefixed(&t.0, it.text.as_str(), 22, " — links to nothing"));
    }
    let ghost sv = svec(it.serves@);
    let mut j: usize = 0;
    assert(sv.skip(0) =~= sv);
    while j < it.serves.len()
        invariant
            it == t.1,
            !it.derived,
            it.serves@.len() > 0,
            j <= it.serves@.len(),
            sv == svec(it.serves@),
            first_missing(sv, strs(titles@)) == first_missing(sv.skip(j as int), strs(titles@)),
        decreases it.serves.len() - j,
    {
        assert(sv.skip(j as int)[0] == it.serves@[j as int]@);
        assert(sv.skip(j as int).drop_first() =~= sv.skip(j + 1));
        proof {
            reveal_strlit(" — dangling → ");
        }
        if !crate::graph::contains_string(titles, it.serves[j].as_str()) {
            let mut s = prefixed(&t.0, it.text.as_str(), 16, " — dangling → ");
            let b = trunc_plain(it.serves[j].as_str(), 14);
            push_str(&mut s, b.as_str());
            return Some(s);
        }
        j += 1;
    }
    None
}

fn later_parent_in(all: &Vec<(String, &Item)>, s: &str, cm: u64) -> (r: bool)
    ensures
        r == later_parent(tagged_view(all@), s@, cm),
{
    let ghost tv = tagged_view(all@);
    let mut k: usize = 0;
    while k < all.len()
        invariant
            k <= all@.len(),
            tv == tagged_view(all@),
            forall|q: int|
                0 <= q < k ==> !(#[trigger] tv[q].1.text == s@ && match tv[q].1.modified {
                    Some(m) => m > cm,
                    None => false,
                }),
        decreases all.len() - k,
    {
        let it = all[k].1;
        assert(tv[k as int].1 == it@);
        let later = match it.modified {
            Some(m) => m > cm,
            None => false,
        };
        if later && str_eq(it.text.as_str(), s) {
            assert(tv[k as int].1.text == s@ && match tv[k as int].1.modified {
                Some(m) => m > cm,
                None => false,
            });
            return true;
        }
        k += 1;
    }
    false
}

fn stale_line(t: &(String, &Item), all: &Vec<(String, &Item)>) -> (r: Option<String>)
    ensures
        sopt(r) == stale_orphan((t.0@, t.1@), tagged_view(all@)),
{
    proof {
        reveal_strlit(" — parent changed since");
    }
    let it = t.1;
    if it.derived || it.id.is_some() {
        return None;
    }
    let cm = match it.modified {
        Some(m) => m,
        None => {
            return None;
        },
    };
    let ghost sv = svec(it.serves@);
    let mut j: usize = 0;
    while j < it.serves.len()
        invariant
            it == t.1,
            !it.derived,
            it.id is None,
            it.modified == Some(cm),
            j <= it.serves@.len(),
            sv == svec(it.serves@),
            forall|q: int| 0 <= q < j ==> !later_parent(tagged_view(all@), #[trigger] sv[q], cm),
        decreases it.serves.len() - j,
    {
        proof {
            reveal_strlit(" — parent changed since");
        }
        if later_parent_in(all, it.serves[j].as_str(), cm) {
            assert(later_parent(tagged_view(all@), sv[j as int], cm));
            assert(t.1@.serves[j as int] == sv[j as int]);
            assert(0 <= j < t.1@.serves.len() && later_parent(tagged_view(all@), t.1@.serves[j as int], cm));
            return Some(prefixed(&t.0, it.text.as_str(), 22, " — parent changed since"));
        }
        j += 1;
    }
    None
}

fn deviation_line(t: &(String, &Item)) -> (r: Option<String>)
    ensures
        sopt(r) == deviation((t.0@, t.1@)),
{
    proof {
        reveal_strlit(" — justified with no rationale");
        reveal_strlit("");
    }
    let it = t.1;
    let justified = match it.status {
        Some(Status::Justified) => true,
        _ => false,
    };
    if !justified {
        return None;
    }
    let c = match &it.comment {
        Some(c) => c.as_str(),
        None => "",
    };
    if chars_of(trim_str(c).as_str()).len() == 0 {
        Some(prefixed(&t.0, it.text.as_str(), 22, " — justified with no rationale"))
    } else {
        None
    }
}

/// `n` of `t` as a whole percentage, rounded down; 0 of an empty total.
pub open spec fn spec_pct(n: nat, t: nat) -> nat {
    if t == 0 {
        0
    } else {
        n * 100 / t
    }
}

/// A dashboard percentage: `n` of `t`, rounded down, 0 when `t` is 0.
pub fn pct(n: usize, t: usize) -> (r: usize)
    requires
        n <= usize::MAX / 100,
    ensures
        r as nat == spec_pct(n as nat, t as nat),
{
    if t == 0 {
        0
    } else {
        n * 100 / t
    }
}

/// The cross-layer audit summary.
pub struct Audit {
    /// Requirements: the items of the first page.
    pub total: usize,
    /// Intents served by the first downstream layer.
    pub implemented: usize,
    /// Intents served by the last layer.
    pub verified: usize,
    /// Intents served in every layer.
    pub covered: usize,
    /// The intents not covered in every layer.
    pub gaps: Vec<String>,
    /// Downstream items that link to nothing, to a title that exists
    /// nowhere, or to a parent changed since.
    pub orphans: Vec<String>,
    /// Accepted failures with no rationale comment.
    pub deviations: Vec<String>,
    /// Items accepted as justified failures.
    pub justified: usize,
    /// Downstream items parentless by design.
    pub derived: usize,
    /// Intents whose rolled-up status is ok.
    pub validated: usize,
    /// Per downstream layer: how many intents it serves.
    pub layers: Vec<(String, usize)>,
}

/// `r` is the audit of the pages.
pub open spec fn audit_holds(pages: Seq<(String, Vec<BoardColumn>)>, r: Audit) -> bool {
    let pv = pages_view(pages);
    let cov = spec_coverage(pv);
    let downstream = page_items(layer_pages(pv));
    &&& r.total == cov.len()
    &&& r.implemented as nat == count_cov(cov, |c: CoverageModel| first_served(c))
    &&& r.verified as nat == count_cov(cov, |c: CoverageModel| last_served(c))
    &&& r.covered as nat == count_cov(cov, |c: CoverageModel| c.whole)
    &&& r.validated as nat == count_cov(cov, |c: CoverageModel| c.status == Some(Status::Okay))
    &&& r.layers@.map_values(|l: (String, usize)| (l.0@, l.1 as nat)) == layer_counts(cov)
    &&& svec(r.gaps@) == gap_lines(cov)
    &&& svec(r.orphans@) == lines_for(downstream, |t: Tagged| link_orphan(t, all_titles(pv))) + lines_for(
        downstream,
        |t: Tagged| stale_orphan(t, page_items(pv)),
    )
    &&& svec(r.deviations@) == lines_for(page_items(pv), |t: Tagged| deviation(t))
    &&& r.justified as nat == count_items(page_items(pv), |it: ItemModel| it.status == Some(Status::Justified))
    &&& r.derived as nat == count_items(downstream, |it: ItemModel| it.derived)
}

/// The audit of the board pages: the coverage counts and gaps, then the
/// orphans (links to nothing or to a missing title, then stale title links),
/// the justified failures and those without a rationale, and the items
/// parentless by design.
pub fn audit(pages: &Vec<(String, Vec<BoardColumn>)>) -> (r: Audit)
    requires
        page_items(pages_view(pages@)).len() < usize::MAX,
    ensures
        audit_holds(pages@, r),
{
    let cc = coverage_counts(pages);
    let flat = flatten_pages(pages);
    let ghost pv = pages_view(pages@);
    assert(flat_view(flat@) == pv);
    let all = tag_items(&flat, 0);
    assert(pv.skip(0) =~= pv);
    let down = if flat.len() > 0 { tag_items(&flat, 1) } else { tag_items(&flat, 0) };
    let ghost dv = tagged_view(down@);
    let ghost av = tagged_view(all@);
    assert(dv == page_items(layer_pages(pv)));
    let mut titles: Vec<String> = Vec::new();
    let mut k: usize = 0;
    while k < all.len()
        invariant
            k <= all@.len(),
            av == tagged_view(all@),
            strs(titles@) == av.take(k as int).map_values(|t: Tagged| t.1.text),
        decreases all.len() - k,
    {
        let ghost po = strs(titles@);
        titles.push(to_owned(all[k].1.text.as_str()));
        assert(strs(titles@) =~= po.push(av[k as int].1.text));
        assert(av.take(k + 1).map_values(|t: Tagged| t.1.text) =~= av.take(k as int).map_values(|t: Tagged| t.1.text).push(
            av[k as int].1.text,
        ));
        k += 1;
    }
    assert(av.take(k as int) =~= av);
    let mut orphans: Vec<String> = Vec::new();
    let mut derived: usize = 0;
    let mut i: usize = 0;
    while i < down.len()
        invariant
            i <= down@.len(),
            dv == tagged_view(down@),
            strs(titles@) == all_titles(pv),
            svec(orphans@) == lines_for(dv.take(i as int), |t: Tagged| link_orphan(t, all_titles(pv))),
            derived <= i,
            derived as nat == count_items(dv.take(i as int), |it: ItemModel| it.derived),
        decreases down.len() - i,
    {
        assert(dv.take(i + 1).drop_last() =~= dv.take(i as int));
        assert(dv[i as int] == (down@[i as int].0@, down@[i as int].1@));
        if down[i].1.derived {
            derived += 1;
        }
        match link_orphan_line(&down[i], &titles) {
            Some(l) => {
                let ghost po = svec(orphans@);
                let ghost lv = l@;
                orphans.push(l);
                assert(svec(orphans@) =~= po.push(lv));
            },
            None => {},
        }
        i += 1;
    }
    assert(dv.take(i as int) =~= dv);
    let ghost first_part = svec(orphans@);
    let mut j: usize = 0;
    while j < down.len()
        invariant
            j <= down@.len(),
            dv == tagged_view(down@),
            av == tagged_view(all@),
            svec(orphans@) == first_part + lines_for(dv.take(j as int), |t: Tagged| stale_orphan(t, av)),
        decreases down.len() - j,
    {
        assert(dv.take(j + 1).drop_last() =~= dv.take(j as int));
        assert(dv[j as int] == (down@[j as int].0@, down@[j as int].1@));
        match stale_line(&down[j], &all) {
            Some(l) => {
                let ghost po = svec(orphans@);
                let ghost lv = l@;
                orphans.push(l);
                assert(svec(orphans@) =~= po.push(lv));
            },
            None => {},
        }
        j += 1;
    }
    assert(dv.take(j as int) =~= dv);
    let mut deviations: Vec<String> = Vec::new();
    let mut justified: usize = 0;
    let mut q: usize = 0;
    while q < all.len()
        invariant
            q <= all@.len() < usize::MAX,
            av == tagged_view(all@),
            svec(deviations@) == lines_for(av.take(q as int), |t: Tagged| deviation(t)),
            justified <= q,
            justified as nat == count_items(av.take(q as int), |it: ItemModel| it.status == Some(Status::Justified)),
        decreases all.len() - q,
    {
        assert(av.take(q + 1).drop_last() =~= av.take(q as int));
        assert(av[q as int] == (all@[q as int].0@, all@[q as int].1@));
        match all[q].1.status {
            Some(Status::Justified) => {
                justified += 1;
            },
            _ => {},
        }
        match deviation_line(&all[q]) {
            Some(l) => {
                let ghost po = svec(deviations@);
                let ghost lv = l@;
                deviations.push(l);
                assert(svec(deviations@) =~= po.push(lv));
            },
            None => {},
        }
        q += 1;
    }
    assert(av.take(q as int) =~= av);
    Audit {
        total: cc.total,
        implemented: cc.implemented,
        verified: cc.verified,
        covered: cc.covered,
        gaps: cc.gaps,
        orphans,
        deviations,
        justified,
        derived,
        validated: cc.validated,
        layers: cc.layers,
    }
}

// ─── trace tags against the board ──────────────────────────────────────────

/// Item `i` of column `c` of page `p` carries `id`.
pub open spec fn site_of(pages: Seq<(String, Vec<BoardColumn>)>, p: int, c: int, i: int, id: Seq<char>) -> bool {
    &&& 0 <= p < pages.len()
    &&& 0 <= c < pages[p].1@.len()
    &&& 0 <= i < pages[p].1@[c].items@.len()
    &&& sopt(pages[p].1@[c].items@[i].id) == Some(id)
}

/// (p2, c2, i2) comes after (p, c, i) in page, column, item order.
pub open spec fn after(p: int, c: int, i: int, p2: int, c2: int, i2: int) -> bool {
    p2 > p || (p2 == p && c2 > c) || (p2 == p && c2 == c && i2 > i)
}

/// Where the board holds `id`: the last item carrying it.
pub open spec fn is_last_site(pages: Seq<(String, Vec<BoardColumn>)>, id: Seq<char>, p: int, c: int, i: int) -> bool {
    &&& site_of(pages, p, c, i, id)
    &&& forall|p2: int, c2: int, i2: int| after(p, c, i, p2, c2, i2) ==> !#[trigger] site_of(pages, p2, c2, i2, id)
}

/// No item carries `id`.
pub open spec fn unplaced(pages: Seq<(String, Vec<BoardColumn>)>, id: Seq<char>) -> bool {
    forall|p: int, c: int, i: int| !#[trigger] site_of(pages, p, c, i, id)
}

/// The last item that carries `id`.
fn find_site(pages: &Vec<(String, Vec<BoardColumn>)>, id: &str) -> (r: Option<(usize, usize, usize)>)
    ensures
        match r {
            Some((p, c, i)) => is_last_site(pages@, id@, p as int, c as int, i as int),
            None => unplaced(pages@, id@),
        },
{
    let mut best: Option<(usize, usize, usize)> = None;
    let mut p: usize = 0;
    while p < pages.len()
        invariant
            p <= pages@.len(),
            match best {
                Some((bp, bc, bi)) => bp < p && site_of(pages@, bp as int, bc as int, bi as int, id@) && forall|
                    p2: int,
                    c2: int,
                    i2: int,
                | p2 < p && after(bp as int, bc as int, bi as int, p2, c2, i2) ==> !#[trigger] site_of(
                    pages@,
                    p2,
                    c2,
                    i2,
                    id@,
                ),
                None => forall|p2: int, c2: int, i2: int| p2 < p ==> !#[trigger] site_of(pages@, p2, c2, i2, id@),
            },
        decreases pages.len() - p,
    {
        let cols = &pages[p].1;
        let mut c: usize = 0;
        while c < cols.len()
            invariant
                p < pages@.len(),
                cols == &pages@[p as int].1,
                c <= cols@.len(),
                match best {
                    Some((bp, bc, bi)) => (bp < p || (bp == p && bc < c)) && site_of(
                        pages@,
                        bp as int,
                        bc as int,
                        bi as int,
                        id@,
                    ) && forall|p2: int, c2: int, i2: int|
                        (p2 < p || (p2 == p && c2 < c)) && after(bp as int, bc as int, bi as int, p2, c2, i2)
                            ==> !#[trigger] site_of(pages@, p2, c2, i2, id@),
                    None => forall|p2: int, c2: int, i2: int|
                        (p2 < p || (p2 == p && c2 < c)) ==> !#[trigger] site_of(pages@, p2, c2, i2, id@),
                },
            decreases cols.len() - c,
        {
            let items = &cols[c].items;
            let mut i: usize = 0;
            while i < items.len()
                invariant
                    p < pages@.len(),
                    cols == &pages@[p as int].1,
                    c < cols@.len(),
                    items == &cols@[c as int].items,
                    i <= items@.len(),
                    match best {
                        Some((bp, bc, bi)) => (bp < p || (bp == p && bc < c) || (bp == p && bc == c && bi < i))
                            && site_of(pages@, bp as int, bc as int, bi as int, id@) && forall|p2: int, c2: int, i2: int|
                            (p2 < p || (p2 == p && c2 < c) || (p2 == p && c2 == c && i2 < i)) && after(
                                bp as int,
                                bc as int,
                                bi as int,
                                p2,
                                c2,
                                i2,
                            ) ==> !#[trigger] site_of(pages@, p2, c2, i2, id@),
                        None => forall|p2: int, c2: int, i2: int|
                            (p2 < p || (p2 == p && c2 < c) || (p2 == p && c2 == c && i2 < i)) ==> !#[trigger] site_of(
                                pages@,
                                p2,
                                c2,
                                i2,
                                id@,
                            ),
                    },
                decreases items.len() - i,
            {
                let hit = match &items[i].id {
                    Some(x) => str_eq(x.as_str(), id),
                    None => false,
                };
                if hit {
                    best = Some((p, c, i));
                }
                i += 1;
            }
            c += 1;
        }
        p += 1;
    }
    best
}

/// A trace tag found on the board: where, its id and its code locator.
pub struct Matched {
    pub page: String,
    pub col: usize,
    pub item: usize,
    pub id: String,
    pub locator: String,
}

/// Trace tags against the board.
pub struct ReconcileReport {
    /// Tags whose id is on the board (their item's `at` is set from it).
    pub matched: Vec<Matched>,
    /// Tags whose id is on no item: (id, locator).
    pub dangling: Vec<(String, String)>,
    /// Control items with an id that no tag references.
    pub unrealized: Vec<String>,
}

/// A control item with an id that no tag names: `"<title>  (<id>)"`.
pub open spec fn unrealized_line(t: Tagged, keys: Seq<Seq<char>>) -> Option<Seq<char>> {
    match t.1.id {
        Some(id) => if t.0 == "control"@ && !keys.contains(id) {
            Some(spec_trunc_plain(t.1.text, 30) + "  ("@ + id + ")"@)
        } else {
            None
        },
        None => None,
    }
}

/// The tags as pure data.
pub open spec fn tags_view(tags: Seq<(String, String)>) -> Seq<(Seq<char>, Seq<char>)> {
    tags.map_values(|t: (String, String)| (t.0@, t.1@))
}

/// Two last sites of one id are the same.
proof fn lemma_last_site_unique(
    pages: Seq<(String, Vec<BoardColumn>)>,
    id: Seq<char>,
    a: (int, int, int),
    b: (int, int, int),
)
    requires
        is_last_site(pages, id, a.0, a.1, a.2),
        is_last_site(pages, id, b.0, b.1, b.2),
    ensures
        a == b,
{
    if a != b {
        if after(a.0, a.1, a.2, b.0, b.1, b.2) {
            assert(!site_of(pages, b.0, b.1, b.2, id));
        } else {
            assert(after(b.0, b.1, b.2, a.0, a.1, a.2));
            assert(!site_of(pages, a.0, a.1, a.2, id));
        }
    }
}

/// Where the board holds `id`, if anywhere: the last item carrying it.
pub open spec fn tag_site(pages: Seq<(String, Vec<BoardColumn>)>, id: Seq<char>) -> Option<(int, int, int)> {
    if exists|t: (int, int, int)| is_last_site(pages, id, t.0, t.1, t.2) {
        Some(choose|t: (int, int, int)| is_last_site(pages, id, t.0, t.1, t.2))
    } else {
        None
    }
}

/// The matched tags, in tag order: (page, column, item, id, locator).
pub open spec fn matched_of(pages: Seq<(String, Vec<BoardColumn>)>, tags: Seq<(Seq<char>, Seq<char>)>) -> Seq<
    (Seq<char>, int, int, Seq<char>, Seq<char>),
>
    decreases tags.len(),
{
    if tags.len() == 0 {
        Seq::empty()
    } else {
        let before = matched_of(pages, tags.drop_last());
        let (id, loc) = tags.last();
        match tag_site(pages, id) {
            Some((p, c, i)) => before.push((pages[p].0@, c, i, id, loc)),
            None => before,
        }
    }
}

/// The dangling tags, in tag order.
pub open spec fn dangling_of(pages: Seq<(String, Vec<BoardColumn>)>, tags: Seq<(Seq<char>, Seq<char>)>) -> Seq<
    (Seq<char>, Seq<char>),
>
    decreases tags.len(),
{
    if tags.len() == 0 {
        Seq::empty()
    } else {
        let before = dangling_of(pages, tags.drop_last());
        match tag_site(pages, tags.last().0) {
            Some(_) => before,
            None => before.push(tags.last()),
        }
    }
}

pub open spec fn matched_view(v: Seq<Matched>) -> Seq<(Seq<char>, int, int, Seq<char>, Seq<char>)> {
    v.map_values(|m: Matched| (m.page@, m.col as int, m.item as int, m.id@, m.locator@))
}

/// Reconciles `@trace` tags (id, code locator) with the board: each tag whose id some item carries is matched to the last
/// such item, the others dangle; control items with an id that no tag names
/// are unrealized.
pub fn reconcile(pages: &Vec<(String, Vec<BoardColumn>)>, tags: &Vec<(String, String)>) -> (r: ReconcileReport)
    ensures
        matched_view(r.matched@) == matched_of(pages@, tags_view(tags@)),
        tags_view(r.dangling@) == dangling_of(pages@, tags_view(tags@)),
        svec(r.unrealized@) == lines_for(
            page_items(pages_view(pages@)),
            |t: Tagged| unrealized_line(t, tags_view(tags@).map_values(|x: (Seq<char>, Seq<char>)| x.0)),
        ),
{
    let ghost tv = tags_view(tags@);
    let mut matched: Vec<Matched> = Vec::new();
    let mut dangling: Vec<(String, String)> = Vec::new();
    let mut k: usize = 0;
    while k < tags.len()
        invariant
            k <= tags@.len(),
            tv == tags_view(tags@),
            matched_view(matched@) == matched_of(pages@, tv.take(k as int)),
            tags_view(dangling@) == dangling_of(pages@, tv.take(k as int)),
        decreases tags.len() - k,
    {
        assert(tv.take(k + 1).drop_last() =~= tv.take(k as int));
        assert(tv.take(k + 1).last() == tv[k as int]);
        let id = &tags[k].0;
        let loc = &tags[k].1;
        let site = find_site(pages, id.as_str());
        match site {
            Some((p, c, i)) => {
                proof {
                    let t = choose|t: (int, int, int)| is_last_site(pages@, id@, t.0, t.1, t.2);
                    assert(is_last_site(pages@, id@, p as int, c as int, i as int));
                    lemma_last_site_unique(pages@, id@, t, (p as int, c as int, i as int));
                    assert(tag_site(pages@, id@) == Some((p as int, c as int, i as int)));
                }
                let ghost po = matched_view(matched@);
                let m = Matched {
                    page: to_owned(pages[p].0.as_str()),
                    col: c,
                    item: i,
                    id: to_owned(id.as_str()),
                    locator: to_owned(loc.as_str()),
                };
                matched.push(m);
                assert(matched_view(matched@) =~= po.push((pages@[p as int].0@, c as int, i as int, id@, loc@)));
            },
            None => {
                proof {
                    assert(!exists|t: (int, int, int)| is_last_site(pages@, id@, t.0, t.1, t.2));
                    assert(tag_site(pages@, id@) is None);
                }
                let ghost po = tags_view(dangling@);
                dangling.push((to_owned(id.as_str()), to_owned(loc.as_str())));
                assert(tags_view(dangling@) =~= po.push((id@, loc@)));
            },
        }
        k += 1;
    }
    assert(tv.take(k as int) =~= tv);
    let mut keys: Vec<String> = Vec::new();
    let mut q: usize = 0;
    while q < tags.len()
        invariant
            q <= tags@.len(),
            tv == tags_view(tags@),
            strs(keys@) == tv.take(q as int).map_values(|x: (Seq<char>, Seq<char>)| x.0),
        decreases tags.len() - q,
    {
        let ghost po = strs(keys@);
        keys.push(to_owned(tags[q].0.as_str()));
        assert(strs(keys@) =~= po.push(tv[q as int].0));
        assert(tv.take(q + 1).map_values(|x: (Seq<char>, Seq<char>)| x.0) =~= tv.take(q as int).map_values(
            |x: (Seq<char>, Seq<char>)| x.0,
        ).push(tv[q as int].0));
        q += 1;
    }
    assert(tv.take(q as int) =~= tv);
    let ghost kv = tv.map_values(|x: (Seq<char>, Seq<char>)| x.0);
    let flat = flatten_pages(pages);
    let all = tag_items(&flat, 0);
    let ghost av = tagged_view(all@);
    assert(flat_view(flat@).skip(0) =~= flat_view(flat@));
    let mut unrealized: Vec<String> = Vec::new();
    let mut j: usize = 0;
    while j < all.len()
        invariant
            j <= all@.len(),
            av == tagged_view(all@),
            strs(keys@) == kv,
            svec(unrealized@) == lines_for(av.take(j as int), |t: Tagged| unrealized_line(t, kv)),
        decreases all.len() - j,
    {
        proof {
            reveal_strlit("control");
            reveal_strlit("  (");
            reveal_strlit(")");
        }
        assert(av.take(j + 1).drop_last() =~= av.take(j as int));
        assert(av[j as int] == (all@[j as int].0@, all@[j as int].1@));
        let t = &all[j];
        match &t.1.id {
            Some(id) => {
                if str_eq(t.0.as_str(), "control") && !crate::graph::contains_string(&keys, id.as_str()) {
                    let mut line = trunc_plain(t.1.text.as_str(), 30);
                    push_str(&mut line, "  (");
                    push_str(&mut line, id.as_str());
                    push_str(&mut line, ")");
                    let ghost po = svec(unrealized@);
                    let ghost lv = line@;
                    unrealized.push(line);
                    assert(svec(unrealized@) =~= po.push(lv));
                }
            },
            None => {},
        }
        j += 1;
    }
    assert(av.take(j as int) =~= av);
    ReconcileReport { matched, dangling, unrealized }
}

// ─── whether code may change ───────────────────────────────────────────────

/// The refusal when no intent is being worked on.
pub const BLOCKED_NO_INTENT: &'static str =
    "Blocked: no active intent. Before changing code, declare what it serves:\n  arte-tui act 'work \"<intent>\"'\nIf no intent fits, confirm with the user, then add intent → impl → control.";

/// The coverage of the first intent titled `t`.
pub open spec fn cov_titled(cov: Seq<CoverageModel>, t: Seq<char>) -> Option<CoverageModel>
    decreases cov.len(),
{
    if cov.len() == 0 {
        None
    } else if cov[0].title == t {
        Some(cov[0])
    } else {
        cov_titled(cov.drop_first(), t)
    }
}

/// Layer `i` serves the intent.
pub open spec fn layer_ok(c: CoverageModel, i: int) -> bool {
    0 <= i < c.layers.len() && c.layers[i].1
}

/// The layers an intent still needs before code may change: impl, control.
pub open spec fn needs_of(c: CoverageModel) -> Seq<Seq<char>> {
    (if !layer_ok(c, 0) { seq!["impl"@] } else { Seq::empty() }) + (if !layer_ok(c, 1) {
        seq!["control"@]
    } else {
        Seq::empty()
    })
}

/// Why a focused title does not back a code change, if it does not.
pub open spec fn missing_line(cov: Seq<CoverageModel>, t: Seq<char>) -> Option<Seq<char>> {
    match cov_titled(cov, t) {
        None => Some("'"@ + t + "' is not an intent on the board"@),
        Some(c) => if needs_of(c).len() > 0 {
            Some("'"@ + t + "' needs "@ + join(needs_of(c), " + "@) + " on the board"@)
        } else {
            None
        },
    }
}

pub open spec fn missing_lines(cov: Seq<CoverageModel>, focus: Seq<Seq<char>>) -> Seq<Seq<char>>
    decreases focus.len(),
{
    if focus.len() == 0 {
        Seq::empty()
    } else {
        let before = missing_lines(cov, focus.drop_last());
        match missing_line(cov, focus.last()) {
            Some(l) => before.push(l),
            None => before,
        }
    }
}

fn missing_for(covs: &Vec<IntentCoverage>, t: &str) -> (r: Option<String>)
    ensures
        sopt(r) == missing_line(crate::audit::covs_view(covs@), t@),
{
    proof {
        reveal_strlit("'");
        reveal_strlit("' is not an intent on the board");
        reveal_strlit("' needs ");
        reveal_strlit(" + ");
        reveal_strlit(" on the board");
        reveal_strlit("impl");
        reveal_strlit("control");
    }
    let ghost cv = crate::audit::covs_view(covs@);
    let mut k: usize = 0;
    assert(cv.skip(0) =~= cv);
    while k < covs.len()
        invariant
            k <= covs@.len(),
            cv == crate::audit::covs_view(covs@),
            cov_titled(cv, t@) == cov_titled(cv.skip(k as int), t@),
        decreases covs.len() - k,
    {
        assert(cv.skip(k as int)[0] == covs@[k as int]@);
        assert(cv.skip(k as int).drop_first() =~= cv.skip(k + 1));
        let c = &covs[k];
        if str_eq(c.title.as_str(), t) {
            let ok0 = c.layers.len() > 0 && c.layers[0].served;
            let ok1 = c.layers.len() > 1 && c.layers[1].served;
            let mut need: Vec<String> = Vec::new();
            if !ok0 {
                need.push(to_owned("impl"));
            }
            if !ok1 {
                need.push(to_owned("control"));
            }
            assert(svec(need@) =~= needs_of(c@));
            if need.len() == 0 {
                return None;
            }
            let mut line = to_owned("'");
            push_str(&mut line, t);
            push_str(&mut line, "' needs ");
            crate::agent::push_joined(&mut line, &need, " + ");
            push_str(&mut line, " on the board");
            return Some(line);
        }
        k += 1;
    }
    let mut line = to_owned("'");
    push_str(&mut line, t);
    push_str(&mut line, "' is not an intent on the board");
    Some(line)
}

/// May code change now? Only when intents are being worked on and each is
/// on the board served by an impl and a control. Returns the
/// verdict and the message: the worked intents sorted, or each shortfall.
pub fn gate(pages: &Vec<(String, Vec<BoardColumn>)>, focus: &Vec<String>) -> (r: (bool, String))
    ensures
        ({
            let cov = spec_coverage(pages_view(pages@));
            let missing = missing_lines(cov, svec(focus@));
            if focus@.len() == 0 {
                !r.0 && r.1@ == BLOCKED_NO_INTENT@
            } else if missing.len() == 0 {
                r.0 && exists|s: Seq<Seq<char>>|
                    strictly_sorted(s) && s.to_set() == svec(focus@).to_set() && r.1@ == "ok — change answers to: "@
                        + join(s, ", "@)
            } else {
                !r.0 && r.1@ == "Blocked: code change not backed by the board:\n  "@ + join(missing, "\n  "@)
                    + "\nConfirm with the user, add the missing layer(s), or `work` a backed intent."@
            }
        }),
{
    if focus.len() == 0 {
        return (false, to_owned(BLOCKED_NO_INTENT));
    }
    let covs = coverage(pages);
    let ghost cv = crate::audit::covs_view(covs@);
    let mut missing: Vec<String> = Vec::new();
    let mut k: usize = 0;
    while k < focus.len()
        invariant
            k <= focus@.len(),
            cv == crate::audit::covs_view(covs@),
            svec(missing@) == missing_lines(cv, svec(focus@).take(k as int)),
        decreases focus.len() - k,
    {
        assert(svec(focus@).take(k + 1).drop_last() =~= svec(focus@).take(k as int));
        match missing_for(&covs, focus[k].as_str()) {
            Some(l) => {
                let ghost po = svec(missing@);
                let ghost lv = l@;
                missing.push(l);
                assert(svec(missing@) =~= po.push(lv));
            },
            None => {},
        }
        k += 1;
    }
    assert(svec(focus@).take(k as int) =~= svec(focus@));
    proof {
        reveal_strlit("ok — change answers to: ");
        reveal_strlit(", ");
        reveal_strlit("Blocked: code change not backed by the board:\n  ");
        reveal_strlit("\n  ");
        reveal_strlit("\nConfirm with the user, add the missing layer(s), or `work` a backed intent.");
    }
    if missing.len() == 0 {
        let mut copy: Vec<String> = Vec::new();
        let mut i: usize = 0;
        while i < focus.len()
            invariant
                i <= focus@.len(),
                strs(copy@) == svec(focus@).take(i as int),
            decreases focus.len() - i,
        {
            let ghost po = strs(copy@);
            copy.push(to_owned(focus[i].as_str()));
            assert(strs(copy@) =~= po.push(focus@[i as int]@));
            assert(svec(focus@).take(i + 1) =~= svec(focus@).take(i as int).push(focus@[i as int]@));
            i += 1;
        }
        assert(svec(focus@).take(i as int) =~= svec(focus@));
        let sorted = sorted_set(copy);
        let mut msg = to_owned("ok — change answers to: ");
        crate::agent::push_joined(&mut msg, &sorted, ", ");
        assert(svec(sorted@) =~= strs(sorted@));
        return (true, msg);
    }
    let mut msg = to_owned("Blocked: code change not backed by the board:\n  ");
    crate::agent::push_joined(&mut msg, &missing, "\n  ");
    push_str(&mut msg, "\nConfirm with the user, add the missing layer(s), or `work` a backed intent.");
    (false, msg)
}

} // verus!
