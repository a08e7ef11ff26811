use vstd::prelude::*;

use crate::candidate::{
    BuildSystemEvidence, Candidate, CandidateView, EcosystemEvidence, Evidence, FrameworkEvidence,
    InfrastructureEvidence, VcsEvidence,
};
use crate::path::{PathView, ProjectPath};
use crate::views::{lemma_views_push, views_of};

verus! {

/// A piece of evidence, the directory it was found for, and the file or
/// directory that shows it.
#[derive(Debug, PartialEq, Eq)]
pub struct Detected<E> {
    pub evidence: E,
    pub scope_path: ProjectPath,
    pub source_path: ProjectPath,
}

/// The mathematical content of a [`Detected`].
pub struct DetectedView<E> {
    pub evidence: E,
    pub scope: PathView,
    pub source: PathView,
}

impl<E> View for Detected<E> {
    type V = DetectedView<E>;

    open spec fn view(&self) -> DetectedView<E> {
        DetectedView { evidence: self.evidence, scope: self.scope_path@, source: self.source_path@ }
    }
}

/// What was found about a project, grouped by category.
#[derive(Debug, PartialEq, Eq)]
pub struct ProjectContext {
    pub root: ProjectPath,
    pub vcs: Vec<Detected<VcsEvidence>>,
    pub ecosystems: Vec<Detected<EcosystemEvidence>>,
    pub frameworks: Vec<Detected<FrameworkEvidence>>,
    pub build_systems: Vec<Detected<BuildSystemEvidence>>,
    pub infrastructure: Vec<Detected<InfrastructureEvidence>>,
}

/// The mathematical content of a [`ProjectContext`].
#[verifier::ext_equal]
pub struct ProjectContextView {
    pub root: PathView,
    pub vcs: Seq<DetectedView<VcsEvidence>>,
    pub ecosystems: Seq<DetectedView<EcosystemEvidence>>,
    pub frameworks: Seq<DetectedView<FrameworkEvidence>>,
    pub build_systems: Seq<DetectedView<BuildSystemEvidence>>,
    pub infrastructure: Seq<DetectedView<InfrastructureEvidence>>,
}

impl View for ProjectContext {
    type V = ProjectContextView;

    open spec fn view(&self) -> ProjectContextView {
        ProjectContextView {
            root: self.root@,
            vcs: views_of(self.vcs@),
            ecosystems: views_of(self.ecosystems@),
            frameworks: views_of(self.frameworks@),
            build_systems: views_of(self.build_systems@),
            infrastructure: views_of(self.infrastructure@),
        }
    }
}

/// The version control evidence in `e`, if it is of that category.
pub open spec fn pick_vcs(e: Evidence) -> Option<VcsEvidence> {
    match e {
        Evidence::Vcs(x) => Some(x),
        _ => None,
    }
}

/// The ecosystem evidence in `e`, if it is of that category.
pub open spec fn pick_ecosystem(e: Evidence) -> Option<EcosystemEvidence> {
    match e {
        Evidence::Ecosystem(x) => Some(x),
        _ => None,
    }
}

/// The framework evidence in `e`, if it is of that category.
pub open spec fn pick_framework(e: Evidence) -> Option<FrameworkEvidence> {
    match e {
        Evidence::Framework(x) => Some(x),
        _ => None,
    }
}

/// The build system evidence in `e`, if it is of that category.
pub open spec fn pick_build_system(e: Evidence) -> Option<BuildSystemEvidence> {
    match e {
        Evidence::BuildSystem(x) => Some(x),
        _ => None,
    }
}

/// The infrastructure evidence in `e`, if it is of that category.
pub open spec fn pick_infrastructure(e: Evidence) -> Option<InfrastructureEvidence> {
    match e {
        Evidence::Infrastructure(x) => Some(x),
        _ => None,
    }
}

/// The candidates whose evidence `pick` selects, in order, as detections.
pub open spec fn section<E>(cs: Seq<CandidateView>, pick: spec_fn(Evidence) -> Option<E>) -> Seq<DetectedView<E>>
    decreases cs.len(),
{
    if cs.len() == 0 {
        Seq::empty()
    } else {
        let rest = section(cs.drop_last(), pick);
        let c = cs.last();
        match pick(c.evidence) {
            Some(e) => rest.push(DetectedView { evidence: e, scope: c.scope, source: c.source }),
            None => rest,
        }
    }
}

/// The context that groups the candidates `cs` found for `root`.
pub open spec fn context_of(root: PathView, cs: Seq<CandidateView>) -> ProjectContextView {
    ProjectContextView {
        root,
        vcs: section(cs, |e: Evidence| pick_vcs(e)),
        ecosystems: section(cs, |e: Evidence| pick_ecosystem(e)),
        frameworks: section(cs, |e: Evidence| pick_framework(e)),
        build_systems: section(cs, |e: Evidence| pick_build_system(e)),
        infrastructure: section(cs, |e: Evidence| pick_infrastructure(e)),
    }
}

/// The root of the project found from `start`: the directory of the first
/// version control candidate (the nearest), or `start` when there is none.
pub fn project_root(start: &ProjectPath, vcs: &Vec<Candidate>) -> (r: ProjectPath)
    ensures
        r@ == if vcs@.len() > 0 {
            vcs@[0]@.scope
        } else {
            start@
        },
{
    if vcs.len() > 0 {
        vcs[0].scope_path.duplicate()
    } else {
        start.duplicate()
    }
}

/// Law (partition): grouping loses no candidate and counts none twice:
/// the sections together hold exactly as many detections as there were
/// candidates, since each evidence belongs to exactly one category.
pub proof fn law_context_partitions_candidates(root: PathView, cs: Seq<CandidateView>)
    ensures
        ({
            let c = context_of(root, cs);
            c.vcs.len() + c.ecosystems.len() + c.frameworks.len() + c.build_systems.len()
                + c.infrastructure.len() == cs.len()
        }),
    decreases cs.len(),
{
    if cs.len() > 0 {
        law_context_partitions_candidates(root, cs.drop_last());
    }
}

/// Each candidate that `pick` selects is in the section, with its own
/// directory and source; each detection of the section comes from such a
/// candidate.
proof fn lemma_section_members<E>(cs: Seq<CandidateView>, pick: spec_fn(Evidence) -> Option<E>)
    ensures
        forall|i: int|
            #![trigger cs[i]]
            0 <= i < cs.len() && pick(cs[i].evidence) is Some ==> section(cs, pick).contains(
                DetectedView { evidence: pick(cs[i].evidence).unwrap(), scope: cs[i].scope, source: cs[i].source },
            ),
        forall|j: int|
            #![trigger section(cs, pick)[j]]
            0 <= j < section(cs, pick).len() ==> exists|i: int|
                0 <= i < cs.len() && #[trigger] pick(cs[i].evidence) == Some(section(cs, pick)[j].evidence)
                    && cs[i].scope == section(cs, pick)[j].scope && cs[i].source == section(cs, pick)[j].source,
    decreases cs.len(),
{
    if cs.len() > 0 {
        let init = cs.drop_last();
        lemma_section_members(init, pick);
        let rest = section(init, pick);
        let all = section(cs, pick);
        let c = cs.last();
        assert forall|i: int|
            #![trigger cs[i]]
            0 <= i < cs.len() && pick(cs[i].evidence) is Some implies all.contains(
                DetectedView { evidence: pick(cs[i].evidence).unwrap(), scope: cs[i].scope, source: cs[i].source },
            ) by {
            let d = DetectedView { evidence: pick(cs[i].evidence).unwrap(), scope: cs[i].scope, source: cs[i].source };
            if i < cs.len() - 1 {
                assert(init[i] == cs[i]);
                assert(rest.contains(d));
                let k = choose|k: int| 0 <= k < rest.len() && rest[k] == d;
                assert(all[k] == d);
            } else {
                assert(all[all.len() - 1] == d);
            }
        }
        assert forall|j: int|
            #![trigger all[j]]
            0 <= j < all.len() implies exists|i: int|
                0 <= i < cs.len() && #[trigger] pick(cs[i].evidence) == Some(all[j].evidence) && cs[i].scope
                    == all[j].scope && cs[i].source == all[j].source by {
            if j < rest.len() {
                assert(all[j] == rest[j]);
                let i = choose|i: int|
                    0 <= i < init.len() && #[trigger] pick(init[i].evidence) == Some(rest[j].evidence) && init[i].scope
                        == rest[j].scope && init[i].source == rest[j].source;
                assert(cs[i] == init[i]);
            } else {
                assert(cs[cs.len() - 1] == c);
            }
        }
    }
}

/// A section is the filter-map of the candidates by any function that
/// gives what its picker selects, as a detection.
proof fn lemma_section_filter_map<E>(
    cs: Seq<CandidateView>,
    pick: spec_fn(Evidence) -> Option<E>,
    f: spec_fn(CandidateView) -> Option<DetectedView<E>>,
)
    requires
        forall|c: CandidateView|
            #[trigger] f(c) == match pick(c.evidence) {
                Some(e) => Some(DetectedView { evidence: e, scope: c.scope, source: c.source }),
                None => None,
            },
    ensures
        section(cs, pick) == cs.filter_map(f),
    decreases cs.len(),
{
    if cs.len() > 0 {
        lemma_section_filter_map(cs.drop_last(), pick, f);
        let c = cs.last();
        assert(f(c) == match pick(c.evidence) {
            Some(e) => Some(DetectedView { evidence: e, scope: c.scope, source: c.source }),
            None => None,
        });
        match pick(c.evidence) {
            Some(e) => {
                let d = DetectedView { evidence: e, scope: c.scope, source: c.source };
                assert(section(cs.drop_last(), pick).push(d) =~= section(cs.drop_last(), pick) + seq![d]);
            },
            None => {},
        }
    }
}

/// Law (sections in order): each section of the context holds, in the
/// candidates' order, exactly the candidates of its category, each with the
/// very evidence it carries and its own directory and source.
pub proof fn law_context_sections_in_order(root: PathView, cs: Seq<CandidateView>)
    ensures
        context_of(root, cs).vcs == cs.filter_map(
            |c: CandidateView|
                match c.evidence {
                    Evidence::Vcs(x) => Some(DetectedView { evidence: x, scope: c.scope, source: c.source }),
                    _ => None,
                },
        ),
        context_of(root, cs).ecosystems == cs.filter_map(
            |c: CandidateView|
                match c.evidence {
                    Evidence::Ecosystem(x) => Some(DetectedView { evidence: x, scope: c.scope, source: c.source }),
                    _ => None,
                },
        ),
        context_of(root, cs).frameworks == cs.filter_map(
            |c: CandidateView|
                match c.evidence {
                    Evidence::Framework(x) => Some(DetectedView { evidence: x, scope: c.scope, source: c.source }),
                    _ => None,
                },
        ),
        context_of(root, cs).build_systems == cs.filter_map(
            |c: CandidateView|
                match c.evidence {
                    Evidence::BuildSystem(x) => Some(DetectedView { evidence: x, scope: c.scope, source: c.source }),
                    _ => None,
                },
        ),
        context_of(root, cs).infrastructure == cs.filter_map(
            |c: CandidateView|
                match c.evidence {
                    Evidence::Infrastructure(x) => Some(
                        DetectedView { evidence: x, scope: c.scope, source: c.source },
                    ),
                    _ => None,
                },
        ),
{
    lemma_section_filter_map(
        cs,
        |e: Evidence| pick_vcs(e),
        |c: CandidateView|
            match c.evidence {
                Evidence::Vcs(x) => Some(DetectedView { evidence: x, scope: c.scope, source: c.source }),
                _ => None,
            },
    );
    lemma_section_filter_map(
        cs,
        |e: Evidence| pick_ecosystem(e),
        |c: CandidateView|
            match c.evidence {
                Evidence::Ecosystem(x) => Some(DetectedView { evidence: x, scope: c.scope, source: c.source }),
                _ => None,
            },
    );
    lemma_section_filter_map(
        cs,
        |e: Evidence| pick_framework(e),
        |c: CandidateView|
            match c.evidence {
                Evidence::Framework(x) => Some(DetectedView { evidence: x, scope: c.scope, source: c.source }),
                _ => None,
            },
    );
    lemma_section_filter_map(
        cs,
        |e: Evidence| pick_build_system(e),
        |c: CandidateView|
            match c.evidence {
                Evidence::BuildSystem(x) => Some(DetectedView { evidence: x, scope: c.scope, source: c.source }),
                _ => None,
            },
    );
    lemma_section_filter_map(
        cs,
        |e: Evidence| pick_infrastructure(e),
        |c: CandidateView|
            match c.evidence {
                Evidence::Infrastructure(x) => Some(
                    DetectedView { evidence: x, scope: c.scope, source: c.source },
                ),
                _ => None,
            },
    );
}

/// Law (each candidate in its category, with its own evidence): every
/// candidate appears, with the very evidence it carries and its own
/// directory and source, in the section of its category, and every
/// detection of a section is such a candidate of that category.
pub proof fn law_context_keeps_each_candidate(root: PathView, cs: Seq<CandidateView>)
    ensures
        ({
            let c = context_of(root, cs);
            &&& forall|i: int|
                0 <= i < cs.len() ==> match #[trigger] cs[i].evidence {
                    Evidence::Vcs(x) => c.vcs.contains(DetectedView { evidence: x, scope: cs[i].scope, source: cs[i].source }),
                    Evidence::Ecosystem(x) => c.ecosystems.contains(
                        DetectedView { evidence: x, scope: cs[i].scope, source: cs[i].source },
                    ),
                    Evidence::Framework(x) => c.frameworks.contains(
                        DetectedView { evidence: x, scope: cs[i].scope, source: cs[i].source },
                    ),
                    Evidence::BuildSystem(x) => c.build_systems.contains(
                        DetectedView { evidence: x, scope: cs[i].scope, source: cs[i].source },
                    ),
                    Evidence::Infrastructure(x) => c.infrastructure.contains(
                        DetectedView { evidence: x, scope: cs[i].scope, source: cs[i].source },
                    ),
                }
            &&& forall|j: int| #![trigger c.vcs[j]] 0 <= j < c.vcs.len() ==> exists|i: int|
                0 <= i < cs.len() && #[trigger] cs[i].evidence == Evidence::Vcs(c.vcs[j].evidence) && cs[i].scope
                    == c.vcs[j].scope && cs[i].source == c.vcs[j].source
            &&& forall|j: int| #![trigger c.ecosystems[j]] 0 <= j < c.ecosystems.len() ==> exists|i: int|
                0 <= i < cs.len() && #[trigger] cs[i].evidence == Evidence::Ecosystem(c.ecosystems[j].evidence)
                    && cs[i].scope == c.ecosystems[j].scope && cs[i].source == c.ecosystems[j].source
            &&& forall|j: int| #![trigger c.frameworks[j]] 0 <= j < c.frameworks.len() ==> exists|i: int|
                0 <= i < cs.len() && #[trigger] cs[i].evidence == Evidence::Framework(c.frameworks[j].evidence)
                    && cs[i].scope == c.frameworks[j].scope && cs[i].source == c.frameworks[j].source
            &&& forall|j: int| #![trigger c.build_systems[j]] 0 <= j < c.build_systems.len() ==> exists|i: int|
                0 <= i < cs.len() && #[trigger] cs[i].evidence == Evidence::BuildSystem(c.build_systems[j].evidence)
                    && cs[i].scope == c.build_systems[j].scope && cs[i].source == c.build_systems[j].source
            &&& forall|j: int| #![trigger c.infrastructure[j]] 0 <= j < c.infrastructure.len() ==> exists|i: int|
                0 <= i < cs.len() && #[trigger] cs[i].evidence == Evidence::Infrastructure(
                    c.infrastructure[j].evidence,
                ) && cs[i].scope == c.infrastructure[j].scope && cs[i].source == c.infrastructure[j].source
        }),
{
    let c = context_of(root, cs);
    lemma_section_members(cs, |e: Evidence| pick_vcs(e));
    lemma_section_members(cs, |e: Evidence| pick_ecosystem(e));
    lemma_section_members(cs, |e: Evidence| pick_framework(e));
    lemma_section_members(cs, |e: Evidence| pick_build_system(e));
    lemma_section_members(cs, |e: Evidence| pick_infrastructure(e));
    assert forall|i: int|
        0 <= i < cs.len() implies match #[trigger] cs[i].evidence {
            Evidence::Vcs(x) => c.vcs.contains(DetectedView { evidence: x, scope: cs[i].scope, source: cs[i].source }),
            Evidence::Ecosystem(x) => c.ecosystems.contains(
                DetectedView { evidence: x, scope: cs[i].scope, source: cs[i].source },
            ),
            Evidence::Framework(x) => c.frameworks.contains(
                DetectedView { evidence: x, scope: cs[i].scope, source: cs[i].source },
            ),
            Evidence::BuildSystem(x) => c.build_systems.contains(
                DetectedView { evidence: x, scope: cs[i].scope, source: cs[i].source },
            ),
            Evidence::Infrastructure(x) => c.infrastructure.contains(
                DetectedView { evidence: x, scope: cs[i].scope, source: cs[i].source },
            ),
        } by {
        let _ = cs[i];
    }
    assert forall|j: int| #![trigger c.ecosystems[j]] 0 <= j < c.ecosystems.len() implies exists|i: int|
        0 <= i < cs.len() && #[trigger] cs[i].evidence == Evidence::Ecosystem(c.ecosystems[j].evidence)
            && cs[i].scope == c.ecosystems[j].scope && cs[i].source == c.ecosystems[j].source by {
        let _ = c.ecosystems[j];
    }
}

proof fn lemma_section_step<E>(cs: Seq<CandidateView>, i: int, pick: spec_fn(Evidence) -> Option<E>)
    requires
        0 <= i < cs.len(),
    ensures
        section(cs.take(i + 1), pick) == match pick(cs[i].evidence) {
            Some(e) => section(cs.take(i), pick).push(
                DetectedView { evidence: e, scope: cs[i].scope, source: cs[i].source },
            ),
            None => section(cs.take(i), pick),
        },
{
    assert(cs.take(i + 1).drop_last() =~= cs.take(i));
}

/// Groups the candidates found for the project at `root` by the category of
/// their evidence, keeping their order within each category.
pub fn build_project_context(root: ProjectPath, candidates: Vec<Candidate>) -> (context: ProjectContext)
    ensures
        context@ == context_of(root@, views_of(candidates@)),
{
    let mut context = ProjectContext {
        root,
        vcs: Vec::new(),
        ecosystems: Vec::new(),
        frameworks: Vec::new(),
        build_systems: Vec::new(),
        infrastructure: Vec::new(),
    };
    let ghost cs = views_of(candidates@);
    let ghost r = context.root@;
    let mut i: usize = 0;
    assert(cs.take(0) =~= Seq::<CandidateView>::empty());
    assert(context@.vcs =~= context_of(r, cs.take(0)).vcs);
    assert(context@.ecosystems =~= context_of(r, cs.take(0)).ecosystems);
    assert(context@.frameworks =~= context_of(r, cs.take(0)).frameworks);
    assert(context@.build_systems =~= context_of(r, cs.take(0)).build_systems);
    assert(context@.infrastructure =~= context_of(r, cs.take(0)).infrastructure);
    assert(context@ =~= context_of(r, cs.take(0)));
    while i < candidates.len()
        invariant
            i <= candidates.len(),
            cs == views_of(candidates@),
            context@ == context_of(r, cs.take(i as int)),
        decreases candidates.len() - i,
    {
        let c = &candidates[i];
        proof {
            lemma_section_step(cs, i as int, |e: Evidence| pick_vcs(e));
            lemma_section_step(cs, i as int, |e: Evidence| pick_ecosystem(e));
            lemma_section_step(cs, i as int, |e: Evidence| pick_framework(e));
            lemma_section_step(cs, i as int, |e: Evidence| pick_build_system(e));
            lemma_section_step(cs, i as int, |e: Evidence| pick_infrastructure(e));
            assert(cs[i as int] == c@);
        }
        match c.evidence {
            Evidence::Vcs(evidence) => {
                let d = Detected {
                    evidence,
                    scope_path: c.scope_path.duplicate(),
                    source_path: c.source_path.duplicate(),
                };
                let ghost before = context.vcs@;
                context.vcs.push(d);
                proof {
                    lemma_views_push(before, d);
                }
            },
            Evidence::Ecosystem(evidence) => {
                let d = Detected {
                    evidence,
                    scope_path: c.scope_path.duplicate(),
                    source_path: c.source_path.duplicate(),
                };
                let ghost before = context.ecosystems@;
                context.ecosystems.push(d);
                proof {
                    lemma_views_push(before, d);
                }
            },
            Evidence::Framework(evidence) => {
                let d = Detected {
                    evidence,
                    scope_path: c.scope_path.duplicate(),
                    source_path: c.source_path.duplicate(),
                };
                let ghost before = context.frameworks@;
                context.frameworks.push(d);
                proof {
                    lemma_views_push(before, d);
                }
            },
            Evidence::BuildSystem(evidence) => {
                let d = Detected {
                    evidence,
                    scope_path: c.scope_path.duplicate(),
                    source_path: c.source_path.duplicate(),
                };
                let ghost before = context.build_systems@;
                context.build_systems.push(d);
                proof {
                    lemma_views_push(before, d);
                }
            },
            Evidence::Infrastructure(evidence) => {
                let d = Detected {
                    evidence,
                    scope_path: c.scope_path.duplicate(),
                    source_path: c.source_path.duplicate(),
                };
                let ghost before = context.infrastructure@;
                context.infrastructure.push(d);
                proof {
                    lemma_views_push(before, d);
                }
            },
        }
        assert(context@ =~= context_of(r, cs.take(i + 1)));
        i = i + 1;
    }
    assert(cs.take(candidates.len() as int) =~= cs);
    context
}

} // verus!
