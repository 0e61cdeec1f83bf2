//! The entries a PROPFIND listing shows: the requested path, then each entry
//! that the listing admits followed by that entry's own listing.

use vstd::prelude::*;
use crate::access::{candidate_views, children_spec, plan_children, plan_views, ChildCandidate, ChildPlanView, Depth, LinkPolicy};
use crate::response::{entries_events, entry_views, lemma_more_entries, multistatus_events, FileFacts, PropfindEntry,
    PropfindEntryView};
use crate::xml_model::{XmlNameView, XmlOutView};

verus! {

/// A path as a listing sees it: where it is on disk, what the file system says
/// of it, the entries it holds (in the order they are read, links followed),
/// and, at the same positions, what was gathered of the entries the listing
/// descends into (`None` for the others).
#[derive(Debug)]
pub struct ListedPath {
    pub path: String,
    pub facts: FileFacts,
    pub candidates: Vec<ChildCandidate>,
    pub children: Vec<Option<ListedPath>>,
}

/// The response entry for the path `t` at `url`.
pub open spec fn tree_entry(t: ListedPath, url: Seq<char>) -> PropfindEntryView {
    PropfindEntryView { url, path: t.path@, facts: t.facts@ }
}

/// The entries a listing at `depth` of `t` at `url` shows: `t` itself, then
/// each admitted entry followed by its own listing at the lowered depth.
pub open spec fn listing_entries(t: ListedPath, url: Seq<char>, depth: Depth, policy: LinkPolicy) -> Seq<PropfindEntryView>
    decreases t, 1int, 0int,
{
    seq![tree_entry(t, url)] + plans_entries(t, children_spec(url, depth, policy, candidate_views(t.candidates@)), policy)
}

/// The listings of the entries of `t` that `plans` admits, in order.
pub open spec fn plans_entries(t: ListedPath, plans: Seq<ChildPlanView>, policy: LinkPolicy) -> Seq<PropfindEntryView>
    decreases t, 0int, plans.len(),
{
    if plans.len() == 0 {
        Seq::empty()
    } else {
        let p = plans.last();
        plans_entries(t, plans.drop_last(), policy) + if 0 <= p.index < t.children@.len() {
            match t.children@[p.index] {
                Some(c) => listing_entries(c, p.url, p.depth, policy),
                None => Seq::empty(),
            }
        } else {
            Seq::empty()
        }
    }
}

/// The entries themselves, without their own listings, of the entries of `t`
/// that `plans` admits.
pub open spec fn plan_entries_only(t: ListedPath, plans: Seq<ChildPlanView>) -> Seq<PropfindEntryView>
    decreases plans.len(),
{
    if plans.len() == 0 {
        Seq::empty()
    } else {
        let p = plans.last();
        plan_entries_only(t, plans.drop_last()) + if 0 <= p.index < t.children@.len() {
            match t.children@[p.index] {
                Some(c) => seq![tree_entry(c, p.url)],
                None => Seq::empty(),
            }
        } else {
            Seq::empty()
        }
    }
}

/// The entries a listing at `depth` of `t` at `url` shows, in the order the
/// answer lists them.
pub fn listing(t: &ListedPath, url: &str, depth: Depth, policy: LinkPolicy) -> (r: Vec<PropfindEntry>)
    ensures
        entry_views(r@) == listing_entries(*t, url@, depth, policy),
    decreases t,
{
    let mut out: Vec<PropfindEntry> = Vec::new();
    out.push(PropfindEntry { url: url.to_owned(), path: t.path.clone(), facts: t.facts });
    let plans = plan_children(url, depth, policy, &t.candidates);
    let ghost pv = plan_views(plans@);
    assert(pv.take(0) =~= Seq::<ChildPlanView>::empty());
    assert(entry_views(out@) =~= seq![tree_entry(*t, url@)] + plans_entries(*t, pv.take(0), policy));
    let n = plans.len();
    for j in 0..n
        invariant
            n == plans@.len(),
            pv == plan_views(plans@),
            entry_views(out@) == seq![tree_entry(*t, url@)] + plans_entries(*t, pv.take(j as int), policy),
    {
        assert(pv.take(j + 1).drop_last() =~= pv.take(j as int));
        assert(pv.take(j + 1).last() == plans@[j as int]@);
        let p = &plans[j];
        let ghost before = entry_views(out@);
        if p.index < t.children.len() {
            match &t.children[p.index] {
                Some(c) => {
                    let mut sub = listing(c, p.url.as_str(), p.depth, policy);
                    let ghost subv = entry_views(sub@);
                    out.append(&mut sub);
                    assert(entry_views(out@) =~= before + subv);
                },
                None => {
                    assert(entry_views(out@) =~= before + Seq::<PropfindEntryView>::empty());
                },
            }
        } else {
            assert(entry_views(out@) =~= before + Seq::<PropfindEntryView>::empty());
        }
        assert(entry_views(out@) =~= seq![tree_entry(*t, url@)] + plans_entries(*t, pv.take(j + 1), policy));
    }
    assert(pv.take(n as int) =~= pv);
    out
}

/// A listing at depth `0` shows the path alone.
pub proof fn lemma_listing_depth_zero(t: ListedPath, url: Seq<char>, policy: LinkPolicy)
    ensures
        listing_entries(t, url, Depth::Zero, policy) == seq![tree_entry(t, url)],
{
    assert(listing_entries(t, url, Depth::Zero, policy) =~= seq![tree_entry(t, url)]);
}

/// Entries planned at depth `0` contribute themselves alone.
proof fn lemma_plans_at_depth_zero(t: ListedPath, plans: Seq<ChildPlanView>, policy: LinkPolicy)
    requires
        forall|i: int| 0 <= i < plans.len() ==> (#[trigger] plans[i]).depth == Depth::Zero,
    ensures
        plans_entries(t, plans, policy) == plan_entries_only(t, plans),
    decreases plans.len(),
{
    if plans.len() > 0 {
        let p = plans.last();
        assert(plans[plans.len() - 1].depth == Depth::Zero);
        lemma_plans_at_depth_zero(t, plans.drop_last(), policy);
        if 0 <= p.index < t.children@.len() {
            match t.children@[p.index] {
                Some(c) => lemma_listing_depth_zero(c, p.url, policy),
                None => {},
            }
        }
    }
}

/// A listing at depth `1` shows the path, then each admitted entry alone.
pub proof fn lemma_listing_depth_one(t: ListedPath, url: Seq<char>, policy: LinkPolicy)
    ensures
        listing_entries(t, url, Depth::One, policy) == seq![tree_entry(t, url)] + plan_entries_only(
            t,
            children_spec(url, Depth::One, policy, candidate_views(t.candidates@)),
        ),
{
    let cands = candidate_views(t.candidates@);
    let plans = children_spec(url, Depth::One, policy, cands);
    crate::access::lemma_depth_one_lists_one_level(url, url, policy, cands, cands);
    lemma_plans_at_depth_zero(t, plans, policy);
}

/// The answer to a PROPFIND of a directory at depth `1` is the answer at depth
/// `0` with, just before the end of `D:multistatus`, one response per entry
/// the listing admits, in the order the directory is read, and nothing else.
pub proof fn lemma_depth_one_answer(t: ListedPath, url: Seq<char>, policy: LinkPolicy, props: Seq<XmlNameView>)
    ensures
        multistatus_events(listing_entries(t, url, Depth::One, policy), props) == multistatus_events(
            listing_entries(t, url, Depth::Zero, policy),
            props,
        ).drop_last() + entries_events(
            plan_entries_only(t, children_spec(url, Depth::One, policy, candidate_views(t.candidates@))),
            props,
        ) + seq![XmlOutView::EndElement],
{
    let plans = children_spec(url, Depth::One, policy, candidate_views(t.candidates@));
    lemma_listing_depth_zero(t, url, policy);
    lemma_listing_depth_one(t, url, policy);
    lemma_more_entries(seq![tree_entry(t, url)], plan_entries_only(t, plans), props);
}

/// `small` stands in `big` as one contiguous run.
pub open spec fn contains_run<A>(big: Seq<A>, small: Seq<A>) -> bool {
    exists|k: int| 0 <= k && k + small.len() <= big.len() && #[trigger] big.subrange(k, k + small.len()) == small
}

/// A run in a prefix stays a run once more is appended.
proof fn lemma_run_in_prefix<A>(a: Seq<A>, b: Seq<A>, small: Seq<A>)
    requires
        contains_run(a, small),
    ensures
        contains_run(a + b, small),
{
    let k = choose|k: int| 0 <= k && k + small.len() <= a.len() && #[trigger] a.subrange(k, k + small.len()) == small;
    assert((a + b).subrange(k, k + small.len()) =~= a.subrange(k, k + small.len()));
}

/// A run in a suffix stays a run once something is put before it.
proof fn lemma_run_in_suffix<A>(a: Seq<A>, b: Seq<A>, small: Seq<A>)
    requires
        contains_run(b, small),
    ensures
        contains_run(a + b, small),
{
    let k = choose|k: int| 0 <= k && k + small.len() <= b.len() && #[trigger] b.subrange(k, k + small.len()) == small;
    assert((a + b).subrange(a.len() + k, a.len() + k + small.len()) =~= b.subrange(k, k + small.len()));
}

/// Each admitted entry's own listing stands, whole and contiguous, among the
/// listings of the admitted entries.
proof fn lemma_plans_entries_contain(t: ListedPath, plans: Seq<ChildPlanView>, policy: LinkPolicy, j: int)
    requires
        0 <= j < plans.len(),
        0 <= plans[j].index < t.children@.len(),
        t.children@[plans[j].index] is Some,
    ensures
        contains_run(
            plans_entries(t, plans, policy),
            listing_entries(t.children@[plans[j].index]->0, plans[j].url, plans[j].depth, policy),
        ),
    decreases plans.len(),
{
    let init = plans.drop_last();
    let small = listing_entries(t.children@[plans[j].index]->0, plans[j].url, plans[j].depth, policy);
    let tail = plans_entries(t, plans, policy).subrange(plans_entries(t, init, policy).len() as int, plans_entries(t, plans, policy).len() as int);
    if j < plans.len() - 1 {
        assert(init[j] == plans[j]);
        lemma_plans_entries_contain(t, init, policy, j);
        assert(plans_entries(t, plans, policy) =~= plans_entries(t, init, policy) + tail);
        lemma_run_in_prefix(plans_entries(t, init, policy), tail, small);
    } else {
        assert(plans.last() == plans[j]);
        assert(plans_entries(t, plans, policy) =~= plans_entries(t, init, policy) + small);
        assert(small.subrange(0int, 0int + small.len()) =~= small);
        assert(contains_run(small, small));
        lemma_run_in_suffix(plans_entries(t, init, policy), small, small);
    }
}

/// A listing at depth `infinity` starts with the listed path and holds, for
/// every entry it admits, that entry's whole listing at depth `infinity` as
/// one contiguous run: so every visible descendant, at any nesting level, is
/// listed.
pub proof fn lemma_infinity_lists_all_descendants(t: ListedPath, url: Seq<char>, policy: LinkPolicy, j: int)
    requires
        0 <= j < children_spec(url, Depth::Infinity, policy, candidate_views(t.candidates@)).len(),
    ensures
        listing_entries(t, url, Depth::Infinity, policy)[0] == tree_entry(t, url),
        ({
            let p = children_spec(url, Depth::Infinity, policy, candidate_views(t.candidates@))[j];
            (0 <= p.index < t.children@.len() && t.children@[p.index] is Some) ==> contains_run(
                listing_entries(t, url, Depth::Infinity, policy),
                listing_entries(t.children@[p.index]->0, p.url, Depth::Infinity, policy),
            )
        }),
{
    let cands = candidate_views(t.candidates@);
    let plans = children_spec(url, Depth::Infinity, policy, cands);
    let p = plans[j];
    crate::access::lemma_children_exact(url, Depth::Infinity, policy, cands);
    assert(Some(p.depth) == crate::access::lower_spec(Depth::Infinity));
    if 0 <= p.index < t.children@.len() && t.children@[p.index] is Some {
        lemma_plans_entries_contain(t, plans, policy, j);
        lemma_run_in_suffix(seq![tree_entry(t, url)], plans_entries(t, plans, policy), listing_entries(
            t.children@[p.index]->0,
            p.url,
            p.depth,
            policy,
        ));
    }
}

} // verus!
