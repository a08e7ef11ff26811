use vstd::prelude::*;

use crate::candidate::{Candidate, CandidateView, Evidence, VcsEvidence};
use crate::discovery::{step_of, Outcome, StepView};
use crate::discovery_laws::{
    law_first_only_list_scan_reports_first_find, list_finds, nearest_first, probe_answers, replay,
};
use crate::path::{join_view, lemma_segments_plain, name_of, segments_of, PathView};
use vstd::arithmetic::div_mod::lemma_fundamental_div_mod_converse;
use crate::discovery::{
    ancestor_chain, fresh_scan, path_spec, settle_view, spec_view, EntryCheck, PathSpec, PathSpecView,
    Scan, Walk,
};
use crate::path::ProjectPath;
use crate::views::views_of;

verus! {

/// The markers of [`git_markers`], as views.
pub open spec fn git_markers_view() -> Seq<PathSpecView> {
    seq![
        spec_view(".git"@, EntryCheck::Exists, Evidence::Vcs(VcsEvidence::Git)),
    ]
}

/// The marker of a Git root: a `.git` entry of any kind.
pub fn git_markers() -> (r: Vec<PathSpec>)
    ensures
        views_of(r@) == git_markers_view(),
{
    let r = vec![
        path_spec(".git", EntryCheck::Exists, Evidence::Vcs(VcsEvidence::Git)),
    ];
    assert(views_of(r@) =~= git_markers_view());
    r
}

/// A scan of `start` and its ancestors, nearest first, that ends at the first Git marker it finds.
pub fn find_git_root(start: &ProjectPath) -> (s: Scan)
    ensures
        s@ == settle_view(fresh_scan(git_markers_view(), Seq::empty(), Walk::Upward, true, ancestor_chain(start@))),
{
    Scan::upward(start, git_markers(), true)
}

/// The first of the candidates a scan found, if any.
pub fn first_found(found: Vec<Candidate>) -> (r: Option<Candidate>)
    ensures
        found@.len() == 0 ==> r is None,
        found@.len() > 0 ==> r == Some(found@[0]),
{
    let mut found = found;
    if found.len() == 0 {
        None
    } else {
        Some(found.remove(0))
    }
}

/// Outcomes of which none shows an entry give a Git scan nothing.
proof fn lemma_no_entry_finds_nothing(order: Seq<PathView>, outcomes: Seq<Outcome>)
    requires
        forall|i: int| 0 <= i < outcomes.len() ==> !(#[trigger] outcomes[i] is Found),
    ensures
        list_finds(order, git_markers_view(), outcomes).len() == 0,
    decreases outcomes.len(),
{
    if outcomes.len() > 0 {
        lemma_no_entry_finds_nothing(order, outcomes.drop_last());
        assert(!(outcomes[outcomes.len() - 1] is Found));
    }
}

/// Law (nearest Git root): when `.git` was asked about in `start` and its
/// ancestors, nearest first, and no entry was there (none of the outcomes
/// so far shows one, and none failed), the Git root search has found
/// nothing and asks next about `.git` in the next ancestor, or is finished
/// with nothing once every ancestor was asked; and if that next `.git` is
/// there, of whatever kind, the search reports that ancestor as the only
/// candidate and is finished: the nearest directory holding `.git`.
pub proof fn law_git_root_is_nearest(start: PathView, outcomes: Seq<Outcome>, last: Outcome)
    requires
        outcomes.len() <= start.parts.len() + 1,
        forall|i: int| 0 <= i < outcomes.len() ==> !(#[trigger] outcomes[i] is Failed) && !(outcomes[i] is Found),
    ensures
        ({
            let v0 = settle_view(fresh_scan(git_markers_view(), Seq::empty(), Walk::Upward, true, ancestor_chain(start)));
            let v = replay(v0, probe_answers(outcomes));
            let t = outcomes.len() as int;
            let d = nearest_first(start)[t];
            &&& v.candidates.len() == 0
            &&& t < start.parts.len() + 1 ==> step_of(v) == (StepView::Probe {
                path: join_view(d, seq![".git"@]),
                check: EntryCheck::Exists,
            })
            &&& t == start.parts.len() + 1 ==> step_of(v) == StepView::Finished
            &&& (t < start.parts.len() + 1 && last is Found) ==> {
                let w = replay(v0, probe_answers(outcomes.push(last)));
                &&& w.candidates == seq![
                    CandidateView {
                        name: name_of(d),
                        scope: d,
                        evidence: Evidence::Vcs(VcsEvidence::Git),
                        source: join_view(d, seq![".git"@]),
                    },
                ]
                &&& step_of(w) == StepView::Finished
            }
        }),
{
    let order = nearest_first(start);
    let t = outcomes.len() as int;
    assert(order.reverse() =~= ancestor_chain(start));
    lemma_fundamental_div_mod_converse(t, 1, t, 0);
    lemma_no_entry_finds_nothing(order, outcomes);
    assert(order.len() * 1 == order.len());
    reveal_strlit(".git");
    lemma_segments_plain(".git"@);
    law_first_only_list_scan_reports_first_find(order, git_markers_view(), Walk::Upward, outcomes, last);
}

} // verus!
