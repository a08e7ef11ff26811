use vstd::prelude::*;

use crate::candidate::{Candidate, CandidateView, Evidence, FrameworkEvidence};
use crate::discovery::{
    after_listing, after_listing_failure, after_probe, find_path_in_descendants, fresh_scan, path_spec,
    settle_view, spec_view, step_of, ContentRule, DirEntry, EntryCheck, EntryKind, Outcome, PathSpec,
    PathSpecView, Scan, ScanView, Step, StepView, Walk,
};
use crate::exclusion::default_exclusions;
use crate::path::{PathView, ProjectPath};
use crate::discovery_laws::{law_given_scan_stays_in_list, replay, Answer};
use crate::views::{lemma_views_push, views_of};

verus! {

/// The markers of the manifests that may name a framework.
pub open spec fn framework_manifest_specs_view() -> Seq<PathSpecView> {
    seq![
        spec_view(
            "package.json"@,
            EntryCheck::Kind(EntryKind::File),
            Evidence::Framework(FrameworkEvidence::NextJs),
        ),
    ]
}

/// The markers of the manifests that may name a framework: `package.json`
/// files.
pub fn framework_manifest_specs() -> (r: Vec<PathSpec>)
    ensures
        views_of(r@) == framework_manifest_specs_view(),
{
    let r = vec![
        path_spec(
            "package.json",
            EntryCheck::Kind(EntryKind::File),
            Evidence::Framework(FrameworkEvidence::NextJs),
        ),
    ];
    assert(views_of(r@) =~= framework_manifest_specs_view());
    r
}

/// The content checks that recognise a framework in a manifest.
pub open spec fn framework_content_specs_view() -> Seq<PathSpecView> {
    seq![
        spec_view(
            "package.json"@,
            EntryCheck::Content(ContentRule::NextJsDependency),
            Evidence::Framework(FrameworkEvidence::NextJs),
        ),
    ]
}

/// The content checks that recognise a framework in a manifest: a
/// `package.json` that depends on Next.js.
pub fn framework_content_specs() -> (r: Vec<PathSpec>)
    ensures
        views_of(r@) == framework_content_specs_view(),
{
    let r = vec![
        path_spec(
            "package.json",
            EntryCheck::Content(ContentRule::NextJsDependency),
            Evidence::Framework(FrameworkEvidence::NextJs),
        ),
    ];
    assert(views_of(r@) =~= framework_content_specs_view());
    r
}

/// The directories of a sequence of candidates.
pub open spec fn scopes_of(cs: Seq<CandidateView>) -> Seq<PathView> {
    cs.map_values(|c: CandidateView| c.scope)
}

/// A search for frameworks: first the manifests below a root, then the
/// contents of each manifest found, in the order found.
pub struct FrameworkSearch {
    manifests: Scan,
    contents: Option<Scan>,
}

/// The mathematical content of a [`FrameworkSearch`].
pub struct FrameworkSearchView {
    pub manifests: ScanView,
    pub contents: Option<ScanView>,
}

impl View for FrameworkSearch {
    type V = FrameworkSearchView;

    closed spec fn view(&self) -> FrameworkSearchView {
        FrameworkSearchView {
            manifests: self.manifests@,
            contents: match self.contents {
                Some(c) => Some(c@),
                None => None,
            },
        }
    }
}

/// The scan of the contents of the manifests that `manifests` found.
pub open spec fn content_scan_of(manifests: ScanView) -> ScanView {
    settle_view(
        fresh_scan(
            framework_content_specs_view(),
            Seq::empty(),
            Walk::Given,
            false,
            scopes_of(manifests.candidates).reverse(),
        ),
    )
}

/// Once the manifest scan is over, the search turns to their contents.
pub open spec fn advance_search(v: FrameworkSearchView) -> FrameworkSearchView {
    if v.contents is None && step_of(v.manifests) is Finished {
        FrameworkSearchView { manifests: v.manifests, contents: Some(content_scan_of(v.manifests)) }
    } else {
        v
    }
}

/// What a framework search in state `v` asks next.
pub open spec fn search_step_of(v: FrameworkSearchView) -> StepView {
    match v.contents {
        Some(c) => step_of(c),
        None => step_of(v.manifests),
    }
}

/// The search after the outcome `o` of its pending probe.
pub open spec fn search_after_probe(v: FrameworkSearchView, o: Outcome) -> FrameworkSearchView {
    match v.contents {
        Some(c) => FrameworkSearchView { manifests: v.manifests, contents: Some(after_probe(c, o)) },
        None => advance_search(FrameworkSearchView { manifests: after_probe(v.manifests, o), contents: None }),
    }
}

/// The search after the listing `entries` of the directory it asked for.
pub open spec fn search_after_listing(v: FrameworkSearchView, entries: Seq<crate::discovery::DirEntryView>) -> FrameworkSearchView {
    match v.contents {
        Some(c) => FrameworkSearchView { manifests: v.manifests, contents: Some(after_listing(c, entries)) },
        None => advance_search(
            FrameworkSearchView { manifests: after_listing(v.manifests, entries), contents: None },
        ),
    }
}

/// The search after the directory it asked for could not be listed.
pub open spec fn search_after_listing_failure(v: FrameworkSearchView) -> FrameworkSearchView {
    match v.contents {
        Some(c) => FrameworkSearchView { manifests: v.manifests, contents: Some(after_listing_failure(c)) },
        None => advance_search(
            FrameworkSearchView { manifests: after_listing_failure(v.manifests), contents: None },
        ),
    }
}

/// The frameworks a search found: those of the content scan.
pub open spec fn search_found(v: FrameworkSearchView) -> Seq<CandidateView> {
    match v.contents {
        Some(c) => c.candidates,
        None => Seq::empty(),
    }
}

/// Law: whatever the filesystem answers, the content scan only reports a
/// framework in a directory where the manifest scan found a manifest.
pub proof fn law_frameworks_found_in_manifest_dirs(manifests: ScanView, answers: Seq<Answer>)
    ensures
        forall|i: int|
            0 <= i < replay(content_scan_of(manifests), answers).candidates.len() ==> scopes_of(
                manifests.candidates,
            ).contains(#[trigger] replay(content_scan_of(manifests), answers).candidates[i].scope),
{
    law_given_scan_stays_in_list(scopes_of(manifests.candidates), framework_content_specs_view(), answers);
}

impl FrameworkSearch {
    fn advance(&mut self)
        ensures
            final(self)@ == advance_search(old(self)@),
    {
        if self.contents.is_none() {
            if let Step::Finished = self.manifests.next_step() {
                let found = self.manifests.candidates();
                let mut scopes: Vec<ProjectPath> = Vec::new();
                let mut i: usize = 0;
                while i < found.len()
                    invariant
                        i <= found.len(),
                        views_of(scopes@) =~= scopes_of(views_of(found@)).take(i as int),
                    decreases found.len() - i,
                {
                    let d = found[i].scope_path.duplicate();
                    let ghost before = scopes@;
                    scopes.push(d);
                    proof {
                        lemma_views_push(before, d);
                        assert(scopes_of(views_of(found@)).take(i + 1) =~= scopes_of(views_of(found@)).take(
                            i as int,
                        ).push(d@));
                    }
                    i = i + 1;
                }
                assert(scopes_of(views_of(found@)).take(found.len() as int) =~= scopes_of(views_of(found@)));
                let c = Scan::given(&scopes, framework_content_specs());
                self.contents = Some(c);
            }
        }
    }

    /// What the search asks next, or how it ended.
    pub fn next_step(&self) -> (st: Step)
        ensures
            st@ == search_step_of(self@),
    {
        match &self.contents {
            Some(c) => c.next_step(),
            None => self.manifests.next_step(),
        }
    }

    /// Hands the search the outcome of the probe it asked for.
    pub fn record(&mut self, outcome: Outcome)
        ensures
            final(self)@ == search_after_probe(old(self)@, outcome),
    {
        match self.contents {
            Some(ref mut c) => {
                c.record(outcome);
            },
            None => {
                self.manifests.record(outcome);
                self.advance();
            },
        }
    }

    /// Hands the search the listing of the directory it asked to list.
    pub fn record_listing(&mut self, entries: Vec<DirEntry>)
        ensures
            final(self)@ == search_after_listing(old(self)@, views_of(entries@)),
    {
        match self.contents {
            Some(ref mut c) => {
                c.record_listing(entries);
            },
            None => {
                self.manifests.record_listing(entries);
                self.advance();
            },
        }
    }

    /// Tells the search that the directory it asked to list could not be
    /// listed.
    pub fn record_listing_failure(&mut self)
        ensures
            final(self)@ == search_after_listing_failure(old(self)@),
    {
        match self.contents {
            Some(ref mut c) => {
                c.record_listing_failure();
            },
            None => {
                self.manifests.record_listing_failure();
                self.advance();
            },
        }
    }

    /// The frameworks found.
    pub fn into_candidates(self) -> (c: Vec<Candidate>)
        ensures
            views_of(c@) == search_found(self@),
    {
        match self.contents {
            Some(c) => c.into_candidates(),
            None => Vec::new(),
        }
    }
}

/// A framework search of `root` before any question is answered.
pub open spec fn framework_search_start(root: PathView) -> FrameworkSearchView {
    advance_search(
        FrameworkSearchView {
            manifests: settle_view(
                fresh_scan(
                    framework_manifest_specs_view(),
                    seq!["target"@, "node_modules"@, ".next"@],
                    Walk::Downward,
                    false,
                    seq![root],
                ),
            ),
            contents: None,
        },
    )
}

/// A search of `root` and the directories below it, default exclusions
/// pruned, for `package.json` manifests, and then of each manifest found
/// for a framework dependency.
pub fn find_framework_candidates(root: &ProjectPath) -> (s: FrameworkSearch)
    ensures
        s@ == framework_search_start(root@),
{
    let manifests = find_path_in_descendants(root, framework_manifest_specs(), default_exclusions());
    let mut s = FrameworkSearch { manifests, contents: None };
    s.advance();
    s
}

} // verus!
