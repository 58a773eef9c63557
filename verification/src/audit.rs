//! The viewer's derived reads over its board pages: per-intent coverage
//! through the layer chain, and reconciliation of code trace tags with the
//! board. Structure only — whether a realization is correct is the producer's
//! `status`, never computed here.
use vstd::prelude::*;

use crate::graph::contains_string;
use crate::protocol::{svec, sopt, BoardColumn, Item, ItemModel, Status};
use crate::text::str_eq;

verus! {

/// A board page as pure data: its id and its items, column by column.
pub type PageView = (Seq<char>, Seq<ItemModel>);

pub open spec fn items_view(v: Seq<Item>) -> Seq<ItemModel> {
    v.map_values(|i: Item| i@)
}

/// The items of the columns, column after column.
pub open spec fn col_items(cols: Seq<BoardColumn>) -> Seq<ItemModel>
    decreases cols.len(),
{
    if cols.len() == 0 {
        Seq::empty()
    } else {
        col_items(cols.drop_last()) + items_view(cols.last().items@)
    }
}

/// The board pages in order, each with its items flattened.
pub open spec fn pages_view(p: Seq<(String, Vec<BoardColumn>)>) -> Seq<PageView> {
    p.map_values(|e: (String, Vec<BoardColumn>)| (e.0@, col_items(e.1@)))
}

pub open spec fn refs_view(v: Seq<&Item>) -> Seq<ItemModel> {
    v.map_values(|r: &Item| r@)
}

/// The items of a page's columns, as references, column after column.
pub fn flat_items(cols: &Vec<BoardColumn>) -> (r: Vec<&Item>)
    ensures
        refs_view(r@) == col_items(cols@),
{
    let mut out: Vec<&Item> = Vec::new();
    let mut c: usize = 0;
    while c < cols.len()
        invariant
            c <= cols@.len(),
            refs_view(out@) == col_items(cols@.take(c as int)),
        decreases cols.len() - c,
    {
        let items = &cols[c].items;
        let ghost base = refs_view(out@);
        let mut i: usize = 0;
        while i < items.len()
            invariant
                i <= items@.len(),
                items == cols@[c as int].items,
                refs_view(out@) == base + items_view(items@).take(i as int),
            decreases items.len() - i,
        {
            let ghost before = out@;
            out.push(&items[i]);
            assert(refs_view(out@) =~= refs_view(before).push(items@[i as int]@));
            assert(refs_view(out@) =~= base + items_view(items@).take(i + 1));
            i += 1;
        }
        assert(cols@.take(c + 1).drop_last() =~= cols@.take(c as int));
        assert(items_view(items@).take(i as int) =~= items_view(items@));
        c += 1;
    }
    assert(cols@.take(c as int) =~= cols@);
    out
}

// ─── coverage through the chain ─────────────────────────────────────────────

/// The item links to one of the titles reached so far.
pub open spec fn linked(it: ItemModel, reach: Seq<Seq<char>>) -> bool {
    exists|j: int| 0 <= j < it.serves.len() && reach.contains(#[trigger] it.serves[j])
}

/// The titles of the linked items, in order: what the next layer must link to.
pub open spec fn linked_texts(items: Seq<ItemModel>, reach: Seq<Seq<char>>) -> Seq<Seq<char>>
    decreases items.len(),
{
    if items.len() == 0 {
        Seq::empty()
    } else if linked(items.last(), reach) {
        linked_texts(items.drop_last(), reach).push(items.last().text)
    } else {
        linked_texts(items.drop_last(), reach)
    }
}

/// The statuses of the linked items, in order.
pub open spec fn linked_statuses(items: Seq<ItemModel>, reach: Seq<Seq<char>>) -> Seq<Option<Status>>
    decreases items.len(),
{
    if items.len() == 0 {
        Seq::empty()
    } else if linked(items.last(), reach) {
        linked_statuses(items.drop_last(), reach).push(items.last().status)
    } else {
        linked_statuses(items.drop_last(), reach)
    }
}

pub open spec fn settled(s: Option<Status>) -> bool {
    s == Some(Status::Okay) || s == Some(Status::Justified)
}

/// Every linked item asserted ok or justified.
pub open spec fn linked_settled(items: Seq<ItemModel>, reach: Seq<Seq<char>>) -> bool {
    forall|k: int| 0 <= k < items.len() && #[trigger] linked(items[k], reach) ==> settled(items[k].status)
}

/// Walking the chain down from `reach`: per layer whether it is served, the
/// statuses met, and whether every item met is settled.
pub struct Walk {
    pub hits: Seq<(Seq<char>, bool)>,
    pub statuses: Seq<Option<Status>>,
    pub settled: bool,
}

pub open spec fn walk_layers(layers: Seq<PageView>, reach: Seq<Seq<char>>) -> Walk
    decreases layers.len(),
{
    if layers.len() == 0 {
        Walk { hits: Seq::empty(), statuses: Seq::empty(), settled: true }
    } else {
        let l = layers[0];
        let next = linked_texts(l.1, reach);
        let rest = walk_layers(layers.drop_first(), next);
        Walk {
            hits: seq![(l.0, next.len() > 0)] + rest.hits,
            statuses: linked_statuses(l.1, reach) + rest.statuses,
            settled: linked_settled(l.1, reach) && rest.settled,
        }
    }
}

/// Severity of a status: ko > pending > justified > ok > none.
pub open spec fn st_rank(s: Option<Status>) -> int {
    match s {
        Some(Status::Fail) => 4,
        Some(Status::Pending) => 3,
        Some(Status::Justified) => 2,
        Some(Status::Okay) => 1,
        None => 0,
    }
}

/// The worst entry, the last of the worst when several tie.
pub open spec fn worst_at(s: Seq<Option<Status>>) -> int
    decreases s.len(),
{
    if s.len() <= 1 {
        0
    } else {
        let b = worst_at(s.drop_last());
        if st_rank(s.last()) >= st_rank(s[b]) {
            s.len() - 1
        } else {
            b
        }
    }
}

/// Worst status wins; none when there is nothing to roll up.
pub open spec fn spec_rollup_status(s: Seq<Option<Status>>) -> Option<Status> {
    if s.len() == 0 {
        None
    } else {
        s[worst_at(s)]
    }
}

pub open spec fn rank_of(s: Option<Status>) -> u8 {
    st_rank(s) as u8
}

fn rank(s: Option<Status>) -> (r: u8)
    ensures
        r as int == st_rank(s),
{
    match s {
        Some(Status::Fail) => 4,
        Some(Status::Pending) => 3,
        Some(Status::Justified) => 2,
        Some(Status::Okay) => 1,
        None => 0,
    }
}

/// Worst status wins: ko > pending > justified > ok > n/a.
pub fn rollup_status(statuses: &Vec<Option<Status>>) -> (r: Option<Status>)
    ensures
        r == spec_rollup_status(statuses@),
{
    if statuses.len() == 0 {
        return None;
    }
    let mut best: usize = 0;
    let mut best_rank: u8 = rank(statuses[0]);
    let mut i: usize = 1;
    while i < statuses.len()
        invariant
            1 <= i <= statuses@.len(),
            best as int == worst_at(statuses@.take(i as int)),
            best < i,
            best_rank as int == st_rank(statuses@[best as int]),
        decreases statuses.len() - i,
    {
        let r = rank(statuses[i]);
        assert(statuses@.take(i + 1).drop_last() =~= statuses@.take(i as int));
        assert(statuses@.take(i as int)[best as int] == statuses@[best as int]);
        if r >= best_rank {
            best = i;
            best_rank = r;
        }
        i += 1;
    }
    assert(statuses@.take(i as int) =~= statuses@);
    statuses[best]
}

/// One downstream layer's verdict for an intent.
pub struct LayerHit {
    pub layer: String,
    pub served: bool,
}

/// One intent's coverage through the chain.
pub struct IntentCoverage {
    pub title: String,
    pub layers: Vec<LayerHit>,
    /// Served in every layer.
    pub whole: bool,
    pub status: Option<Status>,
    /// Whole, and every item met along the chain is ok or justified.
    pub green: bool,
}

pub struct CoverageModel {
    pub title: Seq<char>,
    pub layers: Seq<(Seq<char>, bool)>,
    pub whole: bool,
    pub status: Option<Status>,
    pub green: bool,
}

pub open spec fn hits_view(v: Seq<LayerHit>) -> Seq<(Seq<char>, bool)> {
    v.map_values(|h: LayerHit| (h.layer@, h.served))
}

impl View for IntentCoverage {
    type V = CoverageModel;

    open spec fn view(&self) -> CoverageModel {
        CoverageModel {
            title: self.title@,
            layers: hits_view(self.layers@),
            whole: self.whole,
            status: self.status,
            green: self.green,
        }
    }
}

/// Served in every layer (and there is at least one).
pub open spec fn all_served(hits: Seq<(Seq<char>, bool)>) -> bool {
    hits.len() > 0 && forall|k: int| 0 <= k < hits.len() ==> #[trigger] hits[k].1
}

/// An intent's coverage: the chain walked down from its title.
pub open spec fn spec_intent_coverage(it: ItemModel, layers: Seq<PageView>) -> CoverageModel {
    let w = walk_layers(layers, seq![it.text]);
    CoverageModel {
        title: it.text,
        layers: w.hits,
        whole: all_served(w.hits),
        status: spec_rollup_status(seq![it.status] + w.statuses),
        green: all_served(w.hits) && w.settled,
    }
}

/// Coverage of every intent of the spine (the first page), in order; nothing
/// without pages.
pub open spec fn spec_coverage(pages: Seq<PageView>) -> Seq<CoverageModel> {
    if pages.len() == 0 {
        Seq::empty()
    } else {
        covs_of(pages[0].1, pages.skip(1))
    }
}

pub open spec fn covs_of(items: Seq<ItemModel>, layers: Seq<PageView>) -> Seq<CoverageModel> {
    items.map_values(|it: ItemModel| spec_intent_coverage(it, layers))
}

pub open spec fn covs_view(v: Seq<IntentCoverage>) -> Seq<CoverageModel> {
    v.map_values(|c: IntentCoverage| c@)
}

fn is_linked(it: &Item, reach: &Vec<String>) -> (r: bool)
    ensures
        r == linked(it@, svec(reach@)),
{
    let mut j: usize = 0;
    while j < it.serves.len()
        invariant
            j <= it.serves@.len(),
            forall|q: int| 0 <= q < j ==> !svec(reach@).contains(#[trigger] it@.serves[q]),
        decreases it.serves.len() - j,
    {
        if contains_string(reach, it.serves[j].as_str()) {
            assert(svec(reach@).contains(it@.serves[j as int]));
            return true;
        }
        j += 1;
    }
    false
}

/// One layer of the walk: the linked titles, their statuses, whether all are settled.
fn walk_one(items: &Vec<&Item>, reach: &Vec<String>) -> (r: (Vec<String>, Vec<Option<Status>>, bool))
    ensures
        svec(r.0@) == linked_texts(refs_view(items@), svec(reach@)),
        r.1@ == linked_statuses(refs_view(items@), svec(reach@)),
        r.2 == linked_settled(refs_view(items@), svec(reach@)),
{
    let ghost iv = refs_view(items@);
    let ghost rv = svec(reach@);
    let mut texts: Vec<String> = Vec::new();
    let mut sts: Vec<Option<Status>> = Vec::new();
    let mut ok = true;
    let mut k: usize = 0;
    while k < items.len()
        invariant
            k <= items@.len(),
            iv == refs_view(items@),
            rv == svec(reach@),
            svec(texts@) == linked_texts(iv.take(k as int), rv),
            sts@ == linked_statuses(iv.take(k as int), rv),
            ok == linked_settled(iv.take(k as int), rv),
        decreases items.len() - k,
    {
        let it = items[k];
        assert(iv.take(k + 1).drop_last() =~= iv.take(k as int));
        assert(iv.take(k + 1).last() == it@);
        if is_linked(it, reach) {
            let ghost before = texts@;
            texts.push(it.text.clone());
            assert(svec(texts@) =~= svec(before).push(it@.text));
            sts.push(it.status);
            let s = match it.status {
                Some(Status::Okay) | Some(Status::Justified) => true,
                _ => false,
            };
            ok = ok && s;
        }
        proof {
            let t1 = iv.take(k + 1);
            assert forall|q: int| 0 <= q < t1.len() && #[trigger] linked(t1[q], rv) implies settled(t1[q].status)
                <== ok by {
                if q < k {
                    assert(t1[q] == iv.take(k as int)[q]);
                }
            }
            if !ok {
                if !linked_settled(iv.take(k as int), rv) {
                    let q = choose|q: int| 0 <= q < k && #[trigger] linked(iv.take(k as int)[q], rv) && !settled(
                        iv.take(k as int)[q].status,
                    );
                    assert(t1[q] == iv.take(k as int)[q]);
                }
            }
        }
        k += 1;
    }
    assert(iv.take(k as int) =~= iv);
    (texts, sts, ok)
}

fn append_statuses(out: &mut Vec<Option<Status>>, more: &Vec<Option<Status>>)
    ensures
        final(out)@ == old(out)@ + more@,
{
    let mut q: usize = 0;
    while q < more.len()
        invariant
            q <= more@.len(),
            out@ == old(out)@ + more@.take(q as int),
        decreases more.len() - q,
    {
        out.push(more[q]);
        assert(out@ =~= old(out)@ + more@.take(q + 1));
        q += 1;
    }
    assert(more@.take(q as int) =~= more@);
}

fn all_hits_served(hits: &Vec<LayerHit>) -> (r: bool)
    ensures
        r == all_served(hits_view(hits@)),
{
    let mut all = hits.len() > 0;
    let mut h: usize = 0;
    while h < hits.len()
        invariant
            h <= hits@.len(),
            all == (hits@.len() > 0 && forall|j: int| 0 <= j < h ==> #[trigger] hits@[j].served),
        decreases hits.len() - h,
    {
        all = all && hits[h].served;
        h += 1;
    }
    proof {
        if all {
            assert forall|j: int| 0 <= j < hits_view(hits@).len() implies #[trigger] hits_view(hits@)[j].1 by {
                assert(hits@[j].served);
            }
        } else if hits@.len() > 0 {
            let j = choose|j: int| 0 <= j < hits@.len() && !#[trigger] hits@[j].served;
            assert(!hits_view(hits@)[j].1);
        }
    }
    all
}

/// Coverage of one intent: walk its title down the layers `pages[1..]`.
fn intent_coverage(it: &Item, flat: &Vec<(String, Vec<&Item>)>) -> (r: IntentCoverage)
    requires
        flat@.len() > 0,
    ensures
        r@ == spec_intent_coverage(it@, flat_view(flat@).skip(1)),
{
    let ghost fv = flat_view(flat@);
    let mut reach: Vec<String> = Vec::new();
    reach.push(it.text.clone());
    assert(svec(reach@) =~= seq![it@.text]);
    let mut hits: Vec<LayerHit> = Vec::new();
    let mut statuses: Vec<Option<Status>> = Vec::new();
    statuses.push(it.status);
    let mut settled_all = true;
    let ghost whole_walk = walk_layers(fv.skip(1), seq![it@.text]);
    let ghost mut acc: Seq<Option<Status>> = Seq::empty();
    assert(statuses@ =~= seq![it@.status] + acc);
    assert(hits_view(hits@) =~= Seq::<(Seq<char>, bool)>::empty());
    let mut k: usize = 1;
    while k < flat.len()
        invariant
            1 <= k <= flat@.len(),
            fv == flat_view(flat@),
            whole_walk == walk_layers(fv.skip(1), seq![it@.text]),
            statuses@ == seq![it@.status] + acc,
            acc + walk_layers(fv.skip(k as int), svec(reach@)).statuses == whole_walk.statuses,
            hits_view(hits@) + walk_layers(fv.skip(k as int), svec(reach@)).hits == whole_walk.hits,
            whole_walk.settled == (settled_all && walk_layers(fv.skip(k as int), svec(reach@)).settled),
        decreases flat.len() - k,
    {
        let ghost rest = fv.skip(k as int);
        assert(rest[0] == fv[k as int]);
        assert(rest.drop_first() =~= fv.skip(k + 1));
        let ghost w = walk_layers(rest, svec(reach@));
        let (next, sts, ok) = walk_one(&flat[k].1, &reach);
        let served = next.len() > 0;
        let ghost w2 = walk_layers(fv.skip(k + 1), svec(next@));
        assert(w.hits == seq![(fv[k as int].0, served)] + w2.hits);
        assert(w.statuses == sts@ + w2.statuses);
        assert(w.settled == (ok && w2.settled));
        let ghost before_hits = hits@;
        hits.push(LayerHit { layer: flat[k].0.clone(), served });
        assert(hits_view(hits@) =~= hits_view(before_hits).push((fv[k as int].0, served)));
        assert(hits_view(hits@) + w2.hits =~= hits_view(before_hits) + w.hits);
        append_statuses(&mut statuses, &sts);
        proof {
            assert(acc + sts@ + w2.statuses =~= acc + w.statuses);
            acc = acc + sts@;
            assert(statuses@ =~= seq![it@.status] + acc);
        }
        settled_all = settled_all && ok;
        reach = next;
        k += 1;
    }
    proof {
        assert(fv.skip(k as int).len() == 0);
        assert(hits_view(hits@) =~= whole_walk.hits);
        assert(acc =~= whole_walk.statuses);
    }
    let status = rollup_status(&statuses);
    let all = all_hits_served(&hits);
    IntentCoverage { title: it.text.clone(), layers: hits, whole: all, status, green: all && settled_all }
}

pub open spec fn flat_view(f: Seq<(String, Vec<&Item>)>) -> Seq<PageView> {
    f.map_values(|e: (String, Vec<&Item>)| (e.0@, refs_view(e.1@)))
}

/// Each board page with its items flattened.
pub fn flatten_pages(pages: &Vec<(String, Vec<BoardColumn>)>) -> (r: Vec<(String, Vec<&Item>)>)
    ensures
        flat_view(r@) == pages_view(pages@),
{
    let mut out: Vec<(String, Vec<&Item>)> = Vec::new();
    let mut i: usize = 0;
    while i < pages.len()
        invariant
            i <= pages@.len(),
            flat_view(out@) == pages_view(pages@).take(i as int),
        decreases pages.len() - i,
    {
        let items = flat_items(&pages[i].1);
        let ghost before = out@;
        out.push((pages[i].0.clone(), items));
        assert(flat_view(out@) =~= flat_view(before).push((pages@[i as int].0@, col_items(pages@[i as int].1@))));
        assert(flat_view(out@) =~= pages_view(pages@).take(i + 1));
        i += 1;
    }
    assert(pages_view(pages@).take(i as int) =~= pages_view(pages@));
    out
}

/// Per intent (items of the first page): which downstream layers serve it
/// through the chain (impl serves the intent, control serves those impl
/// items, …), the worst status met, and whether it is whole and green.
pub fn coverage(pages: &Vec<(String, Vec<BoardColumn>)>) -> (r: Vec<IntentCoverage>)
    ensures
        covs_view(r@) == spec_coverage(pages_view(pages@)),
{
    let flat = flatten_pages(pages);
    let ghost fv = flat_view(flat@);
    let mut out: Vec<IntentCoverage> = Vec::new();
    if flat.len() == 0 {
        assert(covs_view(out@) =~= spec_coverage(fv));
        return out;
    }
    let spine = &flat[0].1;
    let mut i: usize = 0;
    while i < spine.len()
        invariant
            flat@.len() > 0,
            fv == flat_view(flat@),
            spine == flat@[0].1,
            i <= spine@.len(),
            covs_view(out@) == covs_of(refs_view(spine@).take(i as int), fv.skip(1)),
        decreases spine.len() - i,
    {
        let c = intent_coverage(spine[i], &flat);
        assert(c@ == spec_intent_coverage(refs_view(spine@)[i as int], fv.skip(1)));
        let ghost before = out@;
        out.push(c);
        assert(covs_view(out@) =~= covs_view(before).push(out@.last()@));
        assert(covs_view(out@) =~= covs_of(refs_view(spine@).take(i + 1), fv.skip(1)));
        i += 1;
    }
    assert(refs_view(spine@).take(i as int) =~= refs_view(spine@));
    out
}

} // verus!
