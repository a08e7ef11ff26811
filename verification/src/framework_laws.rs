use vstd::prelude::*;

use crate::candidate::{CandidateView, EcosystemEvidence, Evidence, FrameworkEvidence};
use crate::discovery::{
    accepts, candidate_view, fresh_scan, settle_view, step_of, ContentRule, EntryCheck, Outcome, PathSpecView, ScanView,
    Walk,
};
use crate::discovery_laws::{
    answer, children, fs_answer, law_downward_scan_is_depth_first, law_ended_scan_is_final,
    law_given_scan_reports_accepted_probes, list_finds, own_from, probe_answers, probe_find, ranked, replay, run,
    visit, visit_all, Answer, FsModel,
};
use crate::ecosystems::ecosystem_specs_view;
use crate::frameworks::{
    content_scan_of, framework_content_specs_view, framework_manifest_specs_view, framework_search_start,
    scopes_of, search_after_listing, search_after_listing_failure, search_after_probe, search_found,
    search_step_of, advance_search, FrameworkSearchView,
};
use crate::path::{join_view, segments_of, PathView};

verus! {

/// The framework search after one answer.
pub open spec fn search_answer(v: FrameworkSearchView, a: Answer) -> FrameworkSearchView {
    match a {
        Answer::Probe(o) => search_after_probe(v, o),
        Answer::Listing(entries) => search_after_listing(v, entries),
        Answer::ListingFailure => search_after_listing_failure(v),
    }
}

/// The framework search after `k` of its questions were answered by `fs`.
pub open spec fn search_run(fs: FsModel, v: FrameworkSearchView, k: nat) -> FrameworkSearchView
    decreases k,
{
    if k == 0 {
        v
    } else {
        search_run(fs, search_answer(v, fs_answer(fs, search_step_of(v))), (k - 1) as nat)
    }
}

/// The check of a manifest's content for a Next.js dependency.
pub open spec fn next_js_check() -> EntryCheck {
    EntryCheck::Content(ContentRule::NextJsDependency)
}

/// The framework candidate that an ecosystem candidate gives on `fs`: a
/// Node.js manifest whose content declares Next.js gives the same
/// candidate with Next.js as its evidence; any other gives none.
pub open spec fn next_js_of(fs: FsModel, c: CandidateView) -> Option<CandidateView> {
    if c.evidence == Evidence::Ecosystem(EcosystemEvidence::NodeJs) && accepts(
        next_js_check(),
        (fs.probe)(c.source, next_js_check()),
    ) {
        Some(CandidateView { evidence: Evidence::Framework(FrameworkEvidence::NextJs), ..c })
    } else {
        None
    }
}

/// [`next_js_of`] as a function of the candidate alone.
pub open spec fn next_js_fn(fs: FsModel) -> spec_fn(CandidateView) -> Option<CandidateView> {
    |c: CandidateView| next_js_of(fs, c)
}

/// The Next.js candidate of the directory `d`, if its manifest declares
/// Next.js on `fs`.
spec fn next_js_in(fs: FsModel, d: PathView) -> Option<CandidateView> {
    let spec = framework_content_specs_view()[0];
    if accepts(spec.check, (fs.probe)(join_view(d, segments_of(spec.rel)), spec.check)) {
        Some(candidate_view(d, spec))
    } else {
        None
    }
}

spec fn next_js_in_fn(fs: FsModel) -> spec_fn(PathView) -> Option<CandidateView> {
    |d: PathView| next_js_in(fs, d)
}

/// The outcomes `fs` gives the first `t` content probes of a scan of `dirs`.
spec fn content_outcomes(fs: FsModel, dirs: Seq<PathView>, t: int) -> Seq<Outcome> {
    let spec = framework_content_specs_view()[0];
    Seq::new(t as nat, |i: int| (fs.probe)(join_view(dirs[i], segments_of(spec.rel)), spec.check))
}

proof fn lemma_filter_map_add<A, B>(a: Seq<A>, b: Seq<A>, f: spec_fn(A) -> Option<B>)
    ensures
        (a + b).filter_map(f) == a.filter_map(f) + b.filter_map(f),
    decreases b.len(),
{
    if b.len() == 0 {
        assert(a + b =~= a);
        assert(a.filter_map(f) + b.filter_map(f) =~= a.filter_map(f));
    } else {
        assert((a + b).drop_last() =~= a + b.drop_last());
        assert((a + b).last() == b.last());
        lemma_filter_map_add(a, b.drop_last(), f);
        match f(b.last()) {
            Some(s) => {
                assert(a.filter_map(f) + b.drop_last().filter_map(f) + seq![s] =~= a.filter_map(f) + (
                b.drop_last().filter_map(f) + seq![s]));
            },
            None => {},
        }
    }
}

proof fn lemma_filter_map_one<A, B>(x: A, f: spec_fn(A) -> Option<B>)
    ensures
        seq![x].filter_map(f) == (match f(x) {
            Some(s) => seq![s],
            None => Seq::<B>::empty(),
        }),
{
    let one = seq![x];
    assert(one.drop_last() =~= Seq::<A>::empty());
    assert(one.drop_last().filter_map(f) == Seq::<B>::empty());
    assert(one.last() == x);
    match f(x) {
        Some(s) => {
            assert(one.filter_map(f) == one.drop_last().filter_map(f) + seq![s]);
            assert(Seq::<B>::empty() + seq![s] =~= seq![s]);
        },
        None => {
            assert(one.filter_map(f) == one.drop_last().filter_map(f));
        },
    }
}

proof fn lemma_scopes_add(a: Seq<CandidateView>, b: Seq<CandidateView>)
    ensures
        scopes_of(a + b) == scopes_of(a) + scopes_of(b),
{
    assert(scopes_of(a + b) =~= scopes_of(a) + scopes_of(b));
}

/// What one marker's probe in `d` contributes, on either side.
proof fn lemma_probe_find(fs: FsModel, d: PathView, spec: PathSpecView)
    ensures
        probe_find(fs, d, spec).filter_map(next_js_fn(fs)) == (if accepts(
            spec.check,
            (fs.probe)(join_view(d, segments_of(spec.rel)), spec.check),
        ) {
            match next_js_of(fs, candidate_view(d, spec)) {
                Some(s) => seq![s],
                None => Seq::<CandidateView>::empty(),
            }
        } else {
            Seq::<CandidateView>::empty()
        }),
        scopes_of(probe_find(fs, d, spec)).filter_map(next_js_in_fn(fs)) == (if accepts(
            spec.check,
            (fs.probe)(join_view(d, segments_of(spec.rel)), spec.check),
        ) {
            match next_js_in(fs, d) {
                Some(s) => seq![s],
                None => Seq::<CandidateView>::empty(),
            }
        } else {
            Seq::<CandidateView>::empty()
        }),
{
    if accepts(spec.check, (fs.probe)(join_view(d, segments_of(spec.rel)), spec.check)) {
        lemma_filter_map_one(candidate_view(d, spec), next_js_fn(fs));
        assert(scopes_of(seq![candidate_view(d, spec)]) =~= seq![d]);
        lemma_filter_map_one(d, next_js_in_fn(fs));
    } else {
        assert(scopes_of(Seq::<CandidateView>::empty()) =~= Seq::<PathView>::empty());
    }
}

/// In one directory, the ecosystem markers give, through [`next_js_of`],
/// what the content check gives in the directories where the manifest
/// marker passes.
proof fn lemma_own(fs: FsModel, d: PathView)
    ensures
        own_from(fs, d, ecosystem_specs_view(), 0).filter_map(next_js_fn(fs)) == scopes_of(
            own_from(fs, d, framework_manifest_specs_view(), 0),
        ).filter_map(next_js_in_fn(fs)),
{
    let eco = ecosystem_specs_view();
    let man = framework_manifest_specs_view();
    let f = next_js_fn(fs);
    let g = next_js_in_fn(fs);
    let e = Seq::<CandidateView>::empty();
    assert(own_from(fs, d, eco, 5) == e);
    assert(own_from(fs, d, eco, 4) == probe_find(fs, d, eco[4]) + own_from(fs, d, eco, 5));
    assert(own_from(fs, d, eco, 3) == probe_find(fs, d, eco[3]) + own_from(fs, d, eco, 4));
    assert(own_from(fs, d, eco, 2) == probe_find(fs, d, eco[2]) + own_from(fs, d, eco, 3));
    assert(own_from(fs, d, eco, 1) == probe_find(fs, d, eco[1]) + own_from(fs, d, eco, 2));
    assert(own_from(fs, d, eco, 0) == probe_find(fs, d, eco[0]) + own_from(fs, d, eco, 1));
    assert(own_from(fs, d, man, 1) == e);
    assert(own_from(fs, d, man, 0) == probe_find(fs, d, man[0]) + own_from(fs, d, man, 1));
    assert(probe_find(fs, d, man[0]) + e =~= probe_find(fs, d, man[0]));
    lemma_filter_map_add(probe_find(fs, d, eco[0]), own_from(fs, d, eco, 1), f);
    lemma_filter_map_add(probe_find(fs, d, eco[1]), own_from(fs, d, eco, 2), f);
    lemma_filter_map_add(probe_find(fs, d, eco[2]), own_from(fs, d, eco, 3), f);
    lemma_filter_map_add(probe_find(fs, d, eco[3]), own_from(fs, d, eco, 4), f);
    lemma_filter_map_add(probe_find(fs, d, eco[4]), own_from(fs, d, eco, 5), f);
    lemma_probe_find(fs, d, eco[0]);
    lemma_probe_find(fs, d, eco[1]);
    lemma_probe_find(fs, d, eco[2]);
    lemma_probe_find(fs, d, eco[3]);
    lemma_probe_find(fs, d, eco[4]);
    lemma_probe_find(fs, d, man[0]);
    let nodejs = candidate_view(d, eco[1]);
    assert(nodejs.source == join_view(d, segments_of(framework_content_specs_view()[0].rel)));
    assert(CandidateView { evidence: Evidence::Framework(FrameworkEvidence::NextJs), ..nodejs } == candidate_view(
        d,
        framework_content_specs_view()[0],
    ));
    assert(e.filter_map(f) =~= e);
    let mid = probe_find(fs, d, eco[1]).filter_map(f);
    assert(e + (mid + (e + (e + (e + e)))) =~= mid);
}

/// The ecosystem search's finds, through [`next_js_of`], are what the
/// content check gives in the directories of the manifest search's finds,
/// below and in `d`.
proof fn lemma_visit(fs: FsModel, exclusions: Seq<Seq<char>>, rank: spec_fn(PathView) -> nat, d: PathView)
    ensures
        visit(fs, ecosystem_specs_view(), exclusions, rank, d).filter_map(next_js_fn(fs)) == scopes_of(
            visit(fs, framework_manifest_specs_view(), exclusions, rank, d),
        ).filter_map(next_js_in_fn(fs)),
    decreases rank(d) + 1, 0nat,
{
    let eco = ecosystem_specs_view();
    let man = framework_manifest_specs_view();
    let f = next_js_fn(fs);
    let g = next_js_in_fn(fs);
    let ds = children(fs, d, exclusions).reverse();
    lemma_own(fs, d);
    lemma_visit_all(fs, exclusions, rank, ds, rank(d));
    lemma_filter_map_add(own_from(fs, d, eco, 0), visit_all(fs, eco, exclusions, rank, ds, rank(d)), f);
    lemma_scopes_add(own_from(fs, d, man, 0), visit_all(fs, man, exclusions, rank, ds, rank(d)));
    lemma_filter_map_add(
        scopes_of(own_from(fs, d, man, 0)),
        scopes_of(visit_all(fs, man, exclusions, rank, ds, rank(d))),
        g,
    );
}

proof fn lemma_visit_all(
    fs: FsModel,
    exclusions: Seq<Seq<char>>,
    rank: spec_fn(PathView) -> nat,
    ds: Seq<PathView>,
    bound: nat,
)
    ensures
        visit_all(fs, ecosystem_specs_view(), exclusions, rank, ds, bound).filter_map(next_js_fn(fs)) == scopes_of(
            visit_all(fs, framework_manifest_specs_view(), exclusions, rank, ds, bound),
        ).filter_map(next_js_in_fn(fs)),
    decreases bound, ds.len(),
{
    let eco = ecosystem_specs_view();
    let man = framework_manifest_specs_view();
    let f = next_js_fn(fs);
    let g = next_js_in_fn(fs);
    let e = Seq::<CandidateView>::empty();
    if ds.len() == 0 {
        assert(scopes_of(e) =~= Seq::<PathView>::empty());
    } else {
        let he = if rank(ds[0]) < bound {
            visit(fs, eco, exclusions, rank, ds[0])
        } else {
            e
        };
        let hm = if rank(ds[0]) < bound {
            visit(fs, man, exclusions, rank, ds[0])
        } else {
            e
        };
        if rank(ds[0]) < bound {
            lemma_visit(fs, exclusions, rank, ds[0]);
        } else {
            assert(scopes_of(e) =~= Seq::<PathView>::empty());
        }
        lemma_visit_all(fs, exclusions, rank, ds.drop_first(), bound);
        lemma_filter_map_add(he, visit_all(fs, eco, exclusions, rank, ds.drop_first(), bound), f);
        lemma_scopes_add(hm, visit_all(fs, man, exclusions, rank, ds.drop_first(), bound));
        lemma_filter_map_add(scopes_of(hm), scopes_of(visit_all(fs, man, exclusions, rank, ds.drop_first(), bound)), g);
    }
}

/// A content scan of `dirs` with outcomes given by `fs` reports the
/// Next.js candidates of the first `t` directories.
proof fn lemma_list_finds(fs: FsModel, dirs: Seq<PathView>, t: int)
    requires
        0 <= t <= dirs.len(),
    ensures
        list_finds(dirs, framework_content_specs_view(), content_outcomes(fs, dirs, t)) == dirs.take(t).filter_map(
            next_js_in_fn(fs),
        ),
    decreases t,
{
    let specs = framework_content_specs_view();
    let outs = content_outcomes(fs, dirs, t);
    if t == 0 {
        assert(dirs.take(0) =~= Seq::<PathView>::empty());
    } else {
        lemma_list_finds(fs, dirs, t - 1);
        assert(outs.drop_last() =~= content_outcomes(fs, dirs, t - 1));
        assert(dirs.take(t).drop_last() =~= dirs.take(t - 1));
        assert(dirs.take(t).last() == dirs[t - 1]);
        assert((t - 1) % 1 == 0);
        assert((t - 1) / 1 == t - 1);
        let rest = dirs.take(t - 1).filter_map(next_js_in_fn(fs));
        match next_js_in(fs, dirs[t - 1]) {
            Some(c) => {
                assert(rest.push(c) =~= rest + seq![c]);
            },
            None => {},
        }
    }
}

/// A run of `k + 1` answers is a run of `k` followed by one more.
proof fn lemma_run_last(fs: FsModel, v: ScanView, k: nat)
    ensures
        run(fs, v, k + 1) == answer(run(fs, v, k), fs_answer(fs, step_of(run(fs, v, k)))),
    decreases k,
{
    if k > 0 {
        let v1 = answer(v, fs_answer(fs, step_of(v)));
        lemma_run_last(fs, v1, (k - 1) as nat);
        assert(run(fs, v, k) == run(fs, v1, (k - 1) as nat));
        assert(run(fs, v, k + 1) == run(fs, v1, k));
    } else {
        let v1 = answer(v, fs_answer(fs, step_of(v)));
        assert(run(fs, v, 1) == run(fs, v1, 0));
    }
}

/// The scan of the directories `dirs` for a Next.js dependency, before any
/// answer.
spec fn content_start(dirs: Seq<PathView>) -> ScanView {
    settle_view(fresh_scan(framework_content_specs_view(), Seq::empty(), Walk::Given, false, dirs.reverse()))
}

/// After `k` answers from `fs`, a content scan of `dirs` is where the
/// outcomes of its first `k` probes (or all of them) take it.
proof fn lemma_content_run(fs: FsModel, dirs: Seq<PathView>, k: nat)
    requires
        forall|p: PathView, c: EntryCheck| !(#[trigger] (fs.probe)(p, c) is Failed),
    ensures
        run(fs, content_start(dirs), k) == replay(
            content_start(dirs),
            probe_answers(content_outcomes(fs, dirs, if k <= dirs.len() { k as int } else { dirs.len() as int })),
        ),
    decreases k,
{
    let c0 = content_start(dirs);
    let specs = framework_content_specs_view();
    if k == 0 {
        assert(probe_answers(content_outcomes(fs, dirs, 0)) =~= Seq::<Answer>::empty());
    } else {
        let k1 = (k - 1) as nat;
        lemma_content_run(fs, dirs, k1);
        lemma_run_last(fs, c0, k1);
        let t = if k1 <= dirs.len() { k1 as int } else { dirs.len() as int };
        let outs = content_outcomes(fs, dirs, t);
        let r = run(fs, c0, k1);
        law_given_scan_reports_accepted_probes(dirs, specs, outs);
        assert(t % 1 == 0);
        assert(t / 1 == t);
        if t < dirs.len() {
            let next = content_outcomes(fs, dirs, t + 1);
            assert(next.drop_last() =~= outs);
            assert(probe_answers(next).drop_last() =~= probe_answers(outs));
            assert(probe_answers(next).last() == Answer::Probe(next[t]));
        } else {
            law_ended_scan_is_final(r, fs_answer(fs, step_of(r)));
        }
    }
}

/// A framework search whose manifest scan is over runs its content scan.
proof fn lemma_search_contents(fs: FsModel, v: FrameworkSearchView, k: nat)
    requires
        v.contents is Some,
    ensures
        search_run(fs, v, k) == (FrameworkSearchView {
            manifests: v.manifests,
            contents: Some(run(fs, v.contents.unwrap(), k)),
        }),
    decreases k,
{
    if k > 0 {
        let c = v.contents.unwrap();
        let a = fs_answer(fs, step_of(c));
        let w = FrameworkSearchView { manifests: v.manifests, contents: Some(answer(c, a)) };
        assert(search_answer(v, fs_answer(fs, search_step_of(v))) == w);
        lemma_search_contents(fs, w, (k - 1) as nat);
    }
}

/// A framework search started from the manifest scan `m0` runs that scan
/// until it is finished, after `j` answers, and then the content scan of
/// what it found for the rest.
proof fn lemma_search_run(fs: FsModel, m0: ScanView, k: nat) -> (j: nat)
    ensures
        j <= k,
        ({
            let r = search_run(fs, advance_search(FrameworkSearchView { manifests: m0, contents: None }), k);
            match r.contents {
                None => r.manifests == run(fs, m0, k) && !(step_of(run(fs, m0, k)) is Finished),
                Some(c) => step_of(run(fs, m0, j)) is Finished && c == run(
                    fs,
                    content_scan_of(run(fs, m0, j)),
                    (k - j) as nat,
                ),
            }
        }),
    decreases k,
{
    let v0 = advance_search(FrameworkSearchView { manifests: m0, contents: None });
    if step_of(m0) is Finished {
        lemma_search_contents(fs, v0, k);
        0
    } else if k == 0 {
        0
    } else {
        let a = fs_answer(fs, step_of(m0));
        let m1 = answer(m0, a);
        assert(search_answer(v0, fs_answer(fs, search_step_of(v0))) == advance_search(
            FrameworkSearchView { manifests: m1, contents: None },
        ));
        let j1 = lemma_search_run(fs, m1, (k - 1) as nat);
        assert(run(fs, m0, k) == run(fs, m1, (k - 1) as nat));
        assert(run(fs, m0, j1 + 1) == run(fs, m1, j1));
        j1 + 1
    }
}

/// The default exclusions, by name.
spec fn default_exclusion_names() -> Seq<Seq<char>> {
    seq!["target"@, "node_modules"@, ".next"@]
}

/// Law (frameworks are Node.js manifests that declare Next.js): when a
/// filesystem `fs` answers each question of a framework search of `root`
/// (no probe fails, and the tree below `root` is finite and without
/// cycles, as `rank` shows), then once the search is finished its
/// candidates are exactly those that the ecosystem candidates of `root`
/// give through [`next_js_of`]: in order, each Node.js manifest whose
/// content declares Next.js, with Next.js as its evidence. This holds of
/// the depth-first order of [`visit`] and so of any ecosystem scan of
/// `root` that `fs` brings to its end.
pub proof fn law_frameworks_are_next_js_node_manifests(
    fs: FsModel,
    root: PathView,
    rank: spec_fn(PathView) -> nat,
    k: nat,
    k_eco: nat,
)
    requires
        ranked(fs, seq!["target"@, "node_modules"@, ".next"@], rank),
        forall|p: PathView, c: EntryCheck| !(#[trigger] (fs.probe)(p, c) is Failed),
    ensures
        ({
            let excl = seq!["target"@, "node_modules"@, ".next"@];
            let s = search_run(fs, framework_search_start(root), k);
            let e = run(fs, settle_view(fresh_scan(ecosystem_specs_view(), excl, Walk::Downward, false, seq![root])), k_eco);
            &&& search_step_of(s) is Finished ==> search_found(s) == visit(
                fs,
                ecosystem_specs_view(),
                excl,
                rank,
                root,
            ).filter_map(next_js_fn(fs))
            &&& (search_step_of(s) is Finished && step_of(e) is Finished) ==> search_found(s) == e.candidates.filter_map(
                next_js_fn(fs),
            )
        }),
{
    let excl = default_exclusion_names();
    let man = framework_manifest_specs_view();
    let m0 = settle_view(fresh_scan(man, excl, Walk::Downward, false, seq![root]));
    let s = search_run(fs, framework_search_start(root), k);
    let j = lemma_search_run(fs, m0, k);
    law_downward_scan_is_depth_first(fs, root, ecosystem_specs_view(), excl, rank, k_eco);
    if search_step_of(s) is Finished {
        let m = run(fs, m0, j);
        law_downward_scan_is_depth_first(fs, root, man, excl, rank, j);
        let dirs = scopes_of(m.candidates);
        let c = run(fs, content_scan_of(m), (k - j) as nat);
        assert(content_scan_of(m) == content_start(dirs));
        lemma_content_run(fs, dirs, (k - j) as nat);
        let t = if (k - j) as nat <= dirs.len() { (k - j) as int } else { dirs.len() as int };
        law_given_scan_reports_accepted_probes(dirs, framework_content_specs_view(), content_outcomes(fs, dirs, t));
        assert(t % 1 == 0);
        assert(t / 1 == t);
        assert(t == dirs.len());
        lemma_list_finds(fs, dirs, t);
        assert(dirs.take(t) =~= dirs);
        lemma_visit(fs, excl, rank, root);
    }
}

} // verus!
