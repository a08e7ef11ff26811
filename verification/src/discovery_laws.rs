use vstd::prelude::*;

use crate::candidate::CandidateView;

use crate::discovery::{
    after_listing, after_listing_failure, after_probe, ancestor_chain, awaits_listing, awaits_probe,
    accepts, candidate_view, fresh_scan, halted, idle, settle_view, step_of, subdirectories, DirEntryView, Outcome,
    EntryCheck, PathSpecView, ScanView, StepView, Walk,
};
use crate::exclusion::excluded;
use crate::path::{ancestor_view, join_view, segments_of, PathView};
use vstd::arithmetic::div_mod::{lemma_fundamental_div_mod, lemma_fundamental_div_mod_converse};

verus! {

/// One answer that the filesystem gives a scan.
pub enum Answer {
    /// The outcome of a probe.
    Probe(Outcome),
    /// The entries of a listed directory.
    Listing(Seq<DirEntryView>),
    /// A directory could not be listed.
    ListingFailure,
}

/// The scan after one answer.
pub open spec fn answer(v: ScanView, a: Answer) -> ScanView {
    match a {
        Answer::Probe(o) => after_probe(v, o),
        Answer::Listing(entries) => after_listing(v, entries),
        Answer::ListingFailure => after_listing_failure(v),
    }
}

/// The scan after a sequence of answers, in order.
pub open spec fn replay(v: ScanView, answers: Seq<Answer>) -> ScanView
    decreases answers.len(),
{
    if answers.len() == 0 {
        v
    } else {
        answer(replay(v, answers.drop_last()), answers.last())
    }
}

/// Every directory the scan still has to examine satisfies `p`.
pub open spec fn dirs_satisfy(v: ScanView, p: spec_fn(PathView) -> bool) -> bool {
    &&& forall|i: int| 0 <= i < v.pending.len() ==> #[trigger] p(v.pending[i])
    &&& (v.current matches Some(d) ==> p(d))
}

/// The directory of every candidate satisfies `p`.
pub open spec fn scopes_satisfy(v: ScanView, p: spec_fn(PathView) -> bool) -> bool {
    forall|i: int| 0 <= i < v.candidates.len() ==> #[trigger] p(v.candidates[i].scope)
}

/// `p` holds of each non-excluded subdirectory of a directory it holds of.
pub open spec fn closed_under_children(p: spec_fn(PathView) -> bool, exclusions: Seq<Seq<char>>) -> bool {
    forall|d: PathView, name: Seq<char>|
        p(d) && !excluded(name, exclusions) ==> #[trigger] p(join_view(d, seq![name]))
}

/// Moving on to the next directory keeps every fact but the position.
proof fn lemma_settle(v: ScanView)
    ensures
        settle_view(v).specs == v.specs,
        settle_view(v).exclusions == v.exclusions,
        settle_view(v).walk == v.walk,
        settle_view(v).first_only == v.first_only,
        settle_view(v).candidates == v.candidates,
        settle_view(v).failed == v.failed,
        settle_view(v).pending.len() <= v.pending.len(),
        settle_view(v).pending == v.pending.take(settle_view(v).pending.len() as int),
        !v.failed && halted(v) ==> settle_view(v).current is None,
        !v.failed ==> settle_view(v).current is None || !idle(settle_view(v)),
        !v.failed && settle_view(v).current is None ==> settle_view(v).pending.len() == 0,
        (settle_view(v).current matches Some(d) ==> settle_view(v) == v || (settle_view(v).pending.len()
            < v.pending.len() && d == v.pending[settle_view(v).pending.len() as int] && settle_view(v).next_spec
            == 0)),
    decreases v.pending.len(),
{
    if v.failed || halted(v) {
        assert(v.pending.take(v.pending.len() as int) =~= v.pending);
        assert(v.pending.take(0) =~= Seq::<PathView>::empty());
    } else if idle(v) {
        if v.pending.len() == 0 {
            assert(v.pending.take(0) =~= v.pending);
        } else {
            let w = ScanView {
                current: Some(v.pending.last()),
                pending: v.pending.drop_last(),
                next_spec: 0,
                ..v
            };
            lemma_settle(w);
            let s = settle_view(w);
            assert(s.pending =~= v.pending.take(s.pending.len() as int));
        }
    } else {
        assert(v.pending.take(v.pending.len() as int) =~= v.pending);
    }
}

/// Moving on to the next directory keeps `p` on the directories left.
proof fn lemma_settle_dirs(v: ScanView, p: spec_fn(PathView) -> bool)
    requires
        dirs_satisfy(v, p),
    ensures
        dirs_satisfy(settle_view(v), p),
{
    lemma_settle(v);
    let s = settle_view(v);
    assert forall|i: int| 0 <= i < s.pending.len() implies #[trigger] p(s.pending[i]) by {
        assert(s.pending[i] == v.pending[i]);
    }
}

/// The subdirectories a listing adds are children of the listed directory
/// whose names are not excluded.
proof fn lemma_subdirectories(dir: PathView, entries: Seq<DirEntryView>, exclusions: Seq<Seq<char>>)
    ensures
        forall|i: int| 0 <= i < subdirectories(dir, entries, exclusions).len() ==> exists|name: Seq<char>|
            !excluded(name, exclusions) && #[trigger] subdirectories(dir, entries, exclusions)[i] == join_view(
                dir,
                seq![name],
            ),
    decreases entries.len(),
{
    if entries.len() > 0 {
        lemma_subdirectories(dir, entries.drop_last(), exclusions);
        let rest = subdirectories(dir, entries.drop_last(), exclusions);
        let all = subdirectories(dir, entries, exclusions);
        assert forall|i: int| 0 <= i < all.len() implies exists|name: Seq<char>|
            !excluded(name, exclusions) && #[trigger] all[i] == join_view(dir, seq![name]) by {
            if i < rest.len() {
                assert(all[i] == rest[i]);
            } else {
                let e = entries.last();
                assert(all[i] == join_view(dir, seq![e.name]));
            }
        }
    }
}

/// Law (the subdirectories of a listing): a listing of `dir` gives, for
/// every entry that is a directory and whose name is not among
/// `exclusions`, whatever its name, the child of `dir` of that name; and
/// each child it gives is such an entry's.
pub proof fn law_subdirectories_are_unexcluded_directory_entries(
    dir: PathView,
    entries: Seq<DirEntryView>,
    exclusions: Seq<Seq<char>>,
)
    ensures
        forall|i: int|
            0 <= i < entries.len() && (#[trigger] entries[i]).is_dir && !exclusions.contains(entries[i].name)
                ==> subdirectories(dir, entries, exclusions).contains(join_view(dir, seq![entries[i].name])),
        forall|k: int|
            #![trigger subdirectories(dir, entries, exclusions)[k]]
            0 <= k < subdirectories(dir, entries, exclusions).len() ==> exists|i: int|
                0 <= i < entries.len() && (#[trigger] entries[i]).is_dir && !exclusions.contains(entries[i].name)
                    && subdirectories(dir, entries, exclusions)[k] == join_view(dir, seq![entries[i].name]),
    decreases entries.len(),
{
    if entries.len() > 0 {
        let init = entries.drop_last();
        law_subdirectories_are_unexcluded_directory_entries(dir, init, exclusions);
        let rest = subdirectories(dir, init, exclusions);
        let all = subdirectories(dir, entries, exclusions);
        let e = entries.last();
        assert forall|i: int|
            0 <= i < entries.len() && (#[trigger] entries[i]).is_dir && !exclusions.contains(entries[i].name)
                implies all.contains(join_view(dir, seq![entries[i].name])) by {
            let d = join_view(dir, seq![entries[i].name]);
            if i < entries.len() - 1 {
                assert(init[i] == entries[i]);
                assert(rest.contains(d));
                let k = choose|k: int| 0 <= k < rest.len() && rest[k] == d;
                assert(all[k] == d);
            } else {
                assert(all[all.len() - 1] == d);
            }
        }
        assert forall|k: int|
            #![trigger subdirectories(dir, entries, exclusions)[k]]
            0 <= k < subdirectories(dir, entries, exclusions).len() implies exists|i: int|
                0 <= i < entries.len() && (#[trigger] entries[i]).is_dir && !exclusions.contains(entries[i].name)
                    && subdirectories(dir, entries, exclusions)[k] == join_view(dir, seq![entries[i].name]) by {
            if k < rest.len() {
                assert(all[k] == rest[k]);
                let i = choose|i: int|
                    0 <= i < init.len() && (#[trigger] init[i]).is_dir && !exclusions.contains(init[i].name)
                        && rest[k] == join_view(dir, seq![init[i].name]);
                assert(entries[i] == init[i]);
            } else {
                assert(entries[entries.len() - 1] == e);
                assert(all[k] == join_view(dir, seq![e.name]));
                assert(e.is_dir && !exclusions.contains(e.name));
            }
        }
    } else {
        assert(subdirectories(dir, entries, exclusions).len() == 0);
    }
}

/// Law (listing order): the subdirectories a listing of `dir` gives are,
/// in the listing's order, the children of `dir` named by the entries that
/// are directories and whose names are not among `exclusions`.
pub proof fn law_subdirectories_in_listing_order(
    dir: PathView,
    entries: Seq<DirEntryView>,
    exclusions: Seq<Seq<char>>,
)
    ensures
        subdirectories(dir, entries, exclusions) == entries.filter_map(
            |e: DirEntryView|
                if e.is_dir && !exclusions.contains(e.name) {
                    Some(join_view(dir, seq![e.name]))
                } else {
                    None
                },
        ),
    decreases entries.len(),
{
    let f = |e: DirEntryView|
        if e.is_dir && !exclusions.contains(e.name) {
            Some(join_view(dir, seq![e.name]))
        } else {
            None
        };
    if entries.len() > 0 {
        let init = entries.drop_last();
        let e = entries.last();
        law_subdirectories_in_listing_order(dir, init, exclusions);
        if e.is_dir && !exclusions.contains(e.name) {
            assert(subdirectories(dir, init, exclusions).push(join_view(dir, seq![e.name])) =~= init.filter_map(f)
                + seq![join_view(dir, seq![e.name])]);
        }
    }
}

/// Law (a listing queues every subdirectory): when a downward scan that
/// has not stopped at a find gets the listing of its current directory,
/// every listed entry that is a directory and whose name is not excluded,
/// whatever its name, becomes a directory the scan still has to examine
/// (the next one, or one left for later), and the directories it had left
/// stay.
pub proof fn law_listing_queues_every_subdirectory(v: ScanView, entries: Seq<DirEntryView>)
    requires
        awaits_listing(v),
        !halted(v),
    ensures
        ({
            let w = after_listing(v, entries);
            let d = v.current.unwrap();
            &&& forall|i: int|
                0 <= i < entries.len() && (#[trigger] entries[i]).is_dir && !v.exclusions.contains(entries[i].name)
                    ==> w.pending.contains(join_view(d, seq![entries[i].name])) || w.current == Some(
                    join_view(d, seq![entries[i].name]),
                )
            &&& forall|k: int|
                0 <= k < v.pending.len() ==> w.pending.contains(#[trigger] v.pending[k]) || w.current == Some(
                    v.pending[k],
                )
        }),
{
    let d = v.current.unwrap();
    let subs = subdirectories(d, entries, v.exclusions);
    let p = v.pending + subs;
    let u = ScanView { pending: p, current: None, ..v };
    law_subdirectories_are_unexcluded_directory_entries(d, entries, v.exclusions);
    let w = after_listing(v, entries);
    if p.len() > 0 {
        let u2 = ScanView { current: Some(p.last()), pending: p.drop_last(), next_spec: 0, ..v };
        assert(settle_view(u) == settle_view(u2));
        assert(!idle(u2));
        assert(w == u2);
        assert forall|x: PathView| p.contains(x) implies w.pending.contains(x) || w.current == Some(x) by {
            let k = choose|k: int| 0 <= k < p.len() && p[k] == x;
            if k < p.len() - 1 {
                assert(w.pending[k] == x);
            }
        }
        assert forall|i: int|
            0 <= i < entries.len() && (#[trigger] entries[i]).is_dir && !v.exclusions.contains(entries[i].name)
                implies w.pending.contains(join_view(d, seq![entries[i].name])) || w.current == Some(
                join_view(d, seq![entries[i].name]),
            ) by {
            let x = join_view(d, seq![entries[i].name]);
            assert(subs.contains(x));
            let k = choose|k: int| 0 <= k < subs.len() && subs[k] == x;
            assert(p[v.pending.len() + k] == x);
            assert(p.contains(x));
        }
        assert forall|k: int|
            0 <= k < v.pending.len() implies w.pending.contains(#[trigger] v.pending[k]) || w.current == Some(
                v.pending[k],
            ) by {
            assert(p[k] == v.pending[k]);
            assert(p.contains(v.pending[k]));
        }
    } else {
        assert forall|i: int|
            0 <= i < entries.len() && (#[trigger] entries[i]).is_dir && !v.exclusions.contains(entries[i].name)
                implies false by {
            assert(subs.contains(join_view(d, seq![entries[i].name])));
        }
    }
}

/// One answer keeps `p` on the directories left and on the candidates'
/// directories, when `p` is closed under the children a listing adds.
proof fn lemma_answer_dirs(v: ScanView, a: Answer, p: spec_fn(PathView) -> bool)
    requires
        dirs_satisfy(v, p),
        scopes_satisfy(v, p),
        v.walk == Walk::Downward ==> closed_under_children(p, v.exclusions),
    ensures
        dirs_satisfy(answer(v, a), p),
        scopes_satisfy(answer(v, a), p),
        answer(v, a).walk == v.walk,
        answer(v, a).exclusions == v.exclusions,
        answer(v, a).specs == v.specs,
{
    match a {
        Answer::Probe(o) => {
            if awaits_probe(v) && !(o is Failed) {
                let spec = v.specs[v.next_spec];
                let found = if crate::discovery::accepts(spec.check, o) {
                    v.candidates.push(candidate_view(v.current.unwrap(), spec))
                } else {
                    v.candidates
                };
                let w = ScanView { candidates: found, next_spec: v.next_spec + 1, ..v };
                assert(scopes_satisfy(w, p)) by {
                    assert forall|i: int| 0 <= i < w.candidates.len() implies #[trigger] p(
                        w.candidates[i].scope,
                    ) by {
                        if i < v.candidates.len() {
                            assert(w.candidates[i] == v.candidates[i]);
                        }
                    }
                }
                lemma_settle_dirs(w, p);
                lemma_settle(w);
            }
        },
        Answer::Listing(entries) => {
            if awaits_listing(v) {
                let dir = v.current.unwrap();
                let subs = subdirectories(dir, entries, v.exclusions);
                let w = ScanView { pending: v.pending + subs, current: None, ..v };
                lemma_subdirectories(dir, entries, v.exclusions);
                assert forall|i: int| 0 <= i < w.pending.len() implies #[trigger] p(w.pending[i]) by {
                    if i < v.pending.len() {
                        assert(w.pending[i] == v.pending[i]);
                    } else {
                        assert(w.pending[i] == subs[i - v.pending.len()]);
                        let name = choose|name: Seq<char>|
                            !excluded(name, v.exclusions) && #[trigger] subs[i - v.pending.len()]
                                == join_view(dir, seq![name]);
                        assert(p(join_view(dir, seq![name])));
                    }
                }
                lemma_settle_dirs(w, p);
                lemma_settle(w);
            }
        },
        Answer::ListingFailure => {},
    }
}

/// A sequence of answers keeps `p`, as one answer does.
proof fn lemma_replay_dirs(v: ScanView, answers: Seq<Answer>, p: spec_fn(PathView) -> bool)
    requires
        dirs_satisfy(v, p),
        scopes_satisfy(v, p),
        v.walk == Walk::Downward ==> closed_under_children(p, v.exclusions),
    ensures
        dirs_satisfy(replay(v, answers), p),
        scopes_satisfy(replay(v, answers), p),
        replay(v, answers).walk == v.walk,
        replay(v, answers).exclusions == v.exclusions,
        replay(v, answers).specs == v.specs,
    decreases answers.len(),
{
    if answers.len() > 0 {
        lemma_replay_dirs(v, answers.drop_last(), p);
        lemma_answer_dirs(replay(v, answers.drop_last()), answers.last(), p);
    }
}

/// The directory `d` is `root` or lies below it, and no component below
/// `root` is an excluded name.
pub open spec fn under_unexcluded(root: PathView, exclusions: Seq<Seq<char>>, d: PathView) -> bool {
    &&& d.root == root.root
    &&& root.parts.len() <= d.parts.len()
    &&& d.parts.take(root.parts.len() as int) == root.parts
    &&& forall|k: int| root.parts.len() <= k < d.parts.len() ==> !excluded(#[trigger] d.parts[k], exclusions)
}

/// Law (pruning): whatever the filesystem answers, a downward scan from
/// `root` only ever examines `root` and directories below it none of whose
/// names below `root` is excluded, and reports candidates only there.
pub proof fn law_downward_scan_prunes_excluded(
    root: PathView,
    specs: Seq<PathSpecView>,
    exclusions: Seq<Seq<char>>,
    answers: Seq<Answer>,
)
    ensures
        ({
            let v = replay(
                settle_view(fresh_scan(specs, exclusions, Walk::Downward, false, seq![root])),
                answers,
            );
            &&& forall|i: int| 0 <= i < v.pending.len() ==> under_unexcluded(root, exclusions, #[trigger] v.pending[i])
            &&& (v.current matches Some(d) ==> under_unexcluded(root, exclusions, d))
            &&& forall|i: int|
                0 <= i < v.candidates.len() ==> under_unexcluded(root, exclusions, #[trigger] v.candidates[i].scope)
        }),
{
    let p = |d: PathView| under_unexcluded(root, exclusions, d);
    let v0 = fresh_scan(specs, exclusions, Walk::Downward, false, seq![root]);
    assert(root.parts.take(root.parts.len() as int) =~= root.parts);
    assert(dirs_satisfy(v0, p));
    assert forall|d: PathView, name: Seq<char>| p(d) && !excluded(name, exclusions) implies #[trigger] p(
        join_view(d, seq![name]),
    ) by {
        let c = join_view(d, seq![name]);
        assert(c.parts.take(root.parts.len() as int) =~= d.parts.take(root.parts.len() as int));
        assert forall|k: int| root.parts.len() <= k < c.parts.len() implies !excluded(
            #[trigger] c.parts[k],
            exclusions,
        ) by {
            if k < d.parts.len() {
                assert(c.parts[k] == d.parts[k]);
            }
        }
    }
    lemma_settle_dirs(v0, p);
    lemma_settle(v0);
    let v1 = settle_view(v0);
    lemma_replay_dirs(v1, answers, p);
    let v = replay(v1, answers);
    assert forall|i: int| 0 <= i < v.pending.len() implies under_unexcluded(root, exclusions, #[trigger] v.pending[i]) by {
        assert(p(v.pending[i]));
    }
    assert forall|i: int| 0 <= i < v.candidates.len() implies under_unexcluded(
        root,
        exclusions,
        #[trigger] v.candidates[i].scope,
    ) by {
        assert(p(v.candidates[i].scope));
    }
}

/// Law: a given-list scan only examines the directories it was given, and
/// reports candidates only in them, whatever the filesystem answers.
pub proof fn law_given_scan_stays_in_list(
    dirs: Seq<PathView>,
    specs: Seq<PathSpecView>,
    answers: Seq<Answer>,
)
    ensures
        ({
            let v = replay(
                settle_view(fresh_scan(specs, Seq::empty(), Walk::Given, false, dirs.reverse())),
                answers,
            );
            &&& forall|i: int| 0 <= i < v.pending.len() ==> dirs.contains(#[trigger] v.pending[i])
            &&& (v.current matches Some(d) ==> dirs.contains(d))
            &&& forall|i: int| 0 <= i < v.candidates.len() ==> dirs.contains(#[trigger] v.candidates[i].scope)
        }),
{
    let p = |d: PathView| dirs.contains(d);
    let v0 = fresh_scan(specs, Seq::empty(), Walk::Given, false, dirs.reverse());
    assert forall|i: int| 0 <= i < v0.pending.len() implies #[trigger] p(v0.pending[i]) by {
        assert(v0.pending[i] == dirs[dirs.len() - 1 - i]);
    }
    lemma_settle_dirs(v0, p);
    lemma_settle(v0);
    let v1 = settle_view(v0);
    lemma_replay_dirs(v1, answers, p);
    let v = replay(v1, answers);
    assert forall|i: int| 0 <= i < v.pending.len() implies dirs.contains(#[trigger] v.pending[i]) by {
        assert(p(v.pending[i]));
    }
    assert forall|i: int| 0 <= i < v.candidates.len() implies dirs.contains(#[trigger] v.candidates[i].scope) by {
        assert(p(v.candidates[i].scope));
    }
}

/// Every candidate is the candidate of one of the scan's markers in the
/// candidate's own directory: named after it, with the marker's evidence,
/// its source the directory joined with the marker's relative path.
pub open spec fn finds_are_markers(v: ScanView) -> bool {
    forall|i: int|
        0 <= i < v.candidates.len() ==> exists|j: int|
            0 <= j < v.specs.len() && #[trigger] v.candidates[i] == candidate_view(v.candidates[i].scope, v.specs[j])
}

proof fn lemma_markers_same(v: ScanView, x: ScanView)
    requires
        finds_are_markers(v),
        x.candidates == v.candidates,
        x.specs == v.specs,
    ensures
        finds_are_markers(x),
{
    assert forall|i: int| 0 <= i < x.candidates.len() implies exists|j: int|
        0 <= j < x.specs.len() && #[trigger] x.candidates[i] == candidate_view(x.candidates[i].scope, x.specs[j]) by {
        let j = choose|j: int|
            0 <= j < v.specs.len() && #[trigger] v.candidates[i] == candidate_view(v.candidates[i].scope, v.specs[j]);
        assert(x.candidates[i] == candidate_view(x.candidates[i].scope, x.specs[j]));
    }
}

proof fn lemma_answer_markers(v: ScanView, a: Answer)
    requires
        finds_are_markers(v),
    ensures
        finds_are_markers(answer(v, a)),
{
    match a {
        Answer::Probe(o) => {
            if awaits_probe(v) && !(o is Failed) {
                let spec = v.specs[v.next_spec];
                let found = if crate::discovery::accepts(spec.check, o) {
                    v.candidates.push(candidate_view(v.current.unwrap(), spec))
                } else {
                    v.candidates
                };
                let w = ScanView { candidates: found, next_spec: v.next_spec + 1, ..v };
                assert forall|i: int| 0 <= i < w.candidates.len() implies exists|j: int|
                    0 <= j < w.specs.len() && #[trigger] w.candidates[i] == candidate_view(
                        w.candidates[i].scope,
                        w.specs[j],
                    ) by {
                    if i < v.candidates.len() {
                        assert(w.candidates[i] == v.candidates[i]);
                        let j = choose|j: int|
                            0 <= j < v.specs.len() && #[trigger] v.candidates[i] == candidate_view(
                                v.candidates[i].scope,
                                v.specs[j],
                            );
                        assert(w.candidates[i] == candidate_view(w.candidates[i].scope, w.specs[j]));
                    } else {
                        assert(w.candidates[i] == candidate_view(w.candidates[i].scope, w.specs[v.next_spec]));
                    }
                }
                lemma_settle(w);
                lemma_markers_same(w, settle_view(w));
            } else {
                lemma_markers_same(v, answer(v, a));
            }
        },
        Answer::Listing(entries) => {
            if awaits_listing(v) {
                let w = ScanView {
                    pending: v.pending + subdirectories(v.current.unwrap(), entries, v.exclusions),
                    current: None,
                    ..v
                };
                lemma_settle(w);
                lemma_markers_same(v, settle_view(w));
            } else {
                lemma_markers_same(v, answer(v, a));
            }
        },
        Answer::ListingFailure => {
            lemma_markers_same(v, answer(v, a));
        },
    }
}

/// Law (soundness): whatever the filesystem answers, every candidate a scan
/// reports is one of its markers found in the candidate's directory.
pub proof fn law_finds_are_markers(
    specs: Seq<PathSpecView>,
    exclusions: Seq<Seq<char>>,
    walk: Walk,
    first_only: bool,
    dirs: Seq<PathView>,
    answers: Seq<Answer>,
)
    ensures
        finds_are_markers(replay(settle_view(fresh_scan(specs, exclusions, walk, first_only, dirs)), answers)),
    decreases answers.len(),
{
    let v0 = fresh_scan(specs, exclusions, walk, first_only, dirs);
    lemma_settle(v0);
    if answers.len() > 0 {
        law_finds_are_markers(specs, exclusions, walk, first_only, dirs, answers.drop_last());
        lemma_answer_markers(
            replay(settle_view(v0), answers.drop_last()),
            answers.last(),
        );
    }
}

/// Law: an answer never takes back a candidate: those found before are the
/// first ones found after.
pub proof fn law_answers_keep_finds(v: ScanView, a: Answer)
    ensures
        v.candidates.len() <= answer(v, a).candidates.len(),
        answer(v, a).candidates.take(v.candidates.len() as int) == v.candidates,
{
    assert(v.candidates.take(v.candidates.len() as int) =~= v.candidates);
    match a {
        Answer::Probe(o) => {
            if awaits_probe(v) && !(o is Failed) {
                let spec = v.specs[v.next_spec];
                let found = if crate::discovery::accepts(spec.check, o) {
                    v.candidates.push(candidate_view(v.current.unwrap(), spec))
                } else {
                    v.candidates
                };
                assert(found.take(v.candidates.len() as int) =~= v.candidates);
                lemma_settle(ScanView { candidates: found, next_spec: v.next_spec + 1, ..v });
            }
        },
        Answer::Listing(entries) => {
            if awaits_listing(v) {
                lemma_settle(
                    ScanView {
                        pending: v.pending + subdirectories(v.current.unwrap(), entries, v.exclusions),
                        current: None,
                        ..v
                    },
                );
            }
        },
        Answer::ListingFailure => {},
    }
}

/// Law: a scan that has failed, or finished, stays as it is whatever it is
/// told, and keeps reporting how it ended.
pub proof fn law_ended_scan_is_final(v: ScanView, a: Answer)
    requires
        v.failed || v.current is None,
    ensures
        answer(v, a) == v,
        step_of(v) == (if v.failed {
            StepView::Failed
        } else {
            StepView::Finished
        }),
{
}

/// A scan that has ended stays as it is after any answers.
proof fn lemma_replay_ended(v: ScanView, answers: Seq<Answer>)
    requires
        v.failed || v.current is None,
    ensures
        replay(v, answers) == v,
    decreases answers.len(),
{
    if answers.len() > 0 {
        lemma_replay_ended(v, answers.drop_last());
        law_ended_scan_is_final(v, answers.last());
    }
}

/// Law (a scan with no markers): a scan of `start`'s ancestors or of a
/// given list of directories that has no markers to look for finds nothing
/// and is finished before it asks anything, and stays so whatever it is
/// then told.
pub proof fn law_scan_without_markers_finds_nothing(
    exclusions: Seq<Seq<char>>,
    walk: Walk,
    first_only: bool,
    dirs: Seq<PathView>,
    answers: Seq<Answer>,
)
    requires
        walk != Walk::Downward,
    ensures
        ({
            let v0 = settle_view(fresh_scan(Seq::empty(), exclusions, walk, first_only, dirs));
            let v = replay(v0, answers);
            &&& v.candidates.len() == 0
            &&& step_of(v0) == StepView::Finished
            &&& step_of(v) == StepView::Finished
        }),
{
    let f = fresh_scan(Seq::empty(), exclusions, walk, first_only, dirs);
    lemma_settle(f);
    let v0 = settle_view(f);
    if v0.current is Some {
        assert(v0.next_spec == 0);
        assert(idle(v0));
    }
    lemma_replay_ended(v0, answers);
}

/// The state of an upward scan from `start`: the directories left are the
/// farthest ancestors, the current one the next nearer, and the candidates,
/// found in ancestors, run from nearest to farthest.
pub open spec fn upward_in_order(v: ScanView, start: PathView) -> bool {
    &&& v.pending.len() <= start.parts.len() + 1
    &&& v.pending == ancestor_chain(start).take(v.pending.len() as int)
    &&& (v.current matches Some(d) ==> v.pending.len() <= start.parts.len() && d == ancestor_view(
        start,
        v.pending.len() as int,
    ))
    &&& forall|i: int|
        0 <= i < v.candidates.len() ==> {
            let k = #[trigger] v.candidates[i].scope.parts.len();
            &&& v.pending.len() <= k <= start.parts.len()
            &&& v.candidates[i].scope == ancestor_view(start, k as int)
        }
    &&& forall|i: int, j: int|
        0 <= i < j < v.candidates.len() ==> #[trigger] v.candidates[j].scope.parts.len()
            <= #[trigger] v.candidates[i].scope.parts.len()
}

proof fn lemma_settle_upward(v: ScanView, start: PathView)
    requires
        upward_in_order(v, start),
    ensures
        upward_in_order(settle_view(v), start),
{
    lemma_settle(v);
    let s = settle_view(v);
    assert(s.pending =~= ancestor_chain(start).take(s.pending.len() as int));
    if s.current is Some && s != v {
        assert(s.pending.len() < v.pending.len());
        assert(v.pending[s.pending.len() as int] == ancestor_chain(start)[s.pending.len() as int]);
    }
}

proof fn lemma_answer_upward(v: ScanView, a: Answer, start: PathView)
    requires
        upward_in_order(v, start),
        v.walk == Walk::Upward,
    ensures
        upward_in_order(answer(v, a), start),
        answer(v, a).walk == Walk::Upward,
{
    match a {
        Answer::Probe(o) => {
            if awaits_probe(v) && !(o is Failed) {
                let spec = v.specs[v.next_spec];
                let dir = v.current.unwrap();
                let found = if crate::discovery::accepts(spec.check, o) {
                    v.candidates.push(candidate_view(dir, spec))
                } else {
                    v.candidates
                };
                let w = ScanView { candidates: found, next_spec: v.next_spec + 1, ..v };
                assert(dir.parts.len() == v.pending.len());
                assert(upward_in_order(w, start)) by {
                    assert forall|i: int| 0 <= i < w.candidates.len() implies {
                        let k = #[trigger] w.candidates[i].scope.parts.len();
                        &&& w.pending.len() <= k <= start.parts.len()
                        &&& w.candidates[i].scope == ancestor_view(start, k as int)
                    } by {
                        if i < v.candidates.len() {
                            assert(w.candidates[i] == v.candidates[i]);
                        }
                    }
                    assert forall|i: int, j: int| 0 <= i < j < w.candidates.len() implies #[trigger] w.candidates[
                        j].scope.parts.len() <= #[trigger] w.candidates[i].scope.parts.len() by {
                        if j < v.candidates.len() {
                            assert(w.candidates[i] == v.candidates[i]);
                            assert(w.candidates[j] == v.candidates[j]);
                        } else {
                            assert(w.candidates[i] == v.candidates[i]);
                            let k = v.candidates[i].scope.parts.len();
                            assert(v.pending.len() <= k);
                        }
                    }
                }
                lemma_settle_upward(w, start);
                lemma_settle(w);
            }
        },
        Answer::Listing(entries) => {},
        Answer::ListingFailure => {},
    }
}

/// Law (nearest first): whatever the filesystem answers, an upward scan
/// from `start` reports candidates only in `start` and its ancestors, and
/// reports those of a nearer directory before those of a farther one.
pub proof fn law_upward_scan_nearest_first(
    start: PathView,
    specs: Seq<PathSpecView>,
    first_only: bool,
    answers: Seq<Answer>,
)
    ensures
        ({
            let v = replay(
                settle_view(fresh_scan(specs, Seq::empty(), Walk::Upward, first_only, ancestor_chain(start))),
                answers,
            );
            &&& forall|i: int|
                0 <= i < v.candidates.len() ==> {
                    let k = #[trigger] v.candidates[i].scope.parts.len();
                    &&& k <= start.parts.len()
                    &&& v.candidates[i].scope == ancestor_view(start, k as int)
                }
            &&& forall|i: int, j: int|
                0 <= i < j < v.candidates.len() ==> #[trigger] v.candidates[j].scope.parts.len()
                    <= #[trigger] v.candidates[i].scope.parts.len()
        }),
    decreases answers.len(),
{
    lemma_replay_upward(start, specs, first_only, answers);
}

proof fn lemma_replay_upward(start: PathView, specs: Seq<PathSpecView>, first_only: bool, answers: Seq<Answer>)
    ensures
        upward_in_order(
            replay(
                settle_view(fresh_scan(specs, Seq::empty(), Walk::Upward, first_only, ancestor_chain(start))),
                answers,
            ),
            start,
        ),
        replay(
            settle_view(fresh_scan(specs, Seq::empty(), Walk::Upward, first_only, ancestor_chain(start))),
            answers,
        ).walk == Walk::Upward,
    decreases answers.len(),
{
    let v0 = fresh_scan(specs, Seq::empty(), Walk::Upward, first_only, ancestor_chain(start));
    assert(ancestor_chain(start).take(ancestor_chain(start).len() as int) =~= ancestor_chain(start));
    lemma_settle_upward(v0, start);
    lemma_settle(v0);
    if answers.len() > 0 {
        lemma_replay_upward(start, specs, first_only, answers.drop_last());
        lemma_answer_upward(replay(settle_view(v0), answers.drop_last()), answers.last(), start);
    }
}

/// A scan that stops at its first find holds at most one candidate, and
/// none once it holds one does it wait for a probe.
pub open spec fn at_most_first(v: ScanView) -> bool {
    v.first_only ==> v.candidates.len() <= 1 && (v.candidates.len() == 1 ==> !awaits_probe(v))
}

proof fn lemma_answer_first(v: ScanView, a: Answer)
    requires
        at_most_first(v),
    ensures
        at_most_first(answer(v, a)),
        answer(v, a).first_only == v.first_only,
{
    match a {
        Answer::Probe(o) => {
            if awaits_probe(v) && !(o is Failed) {
                let spec = v.specs[v.next_spec];
                let found = if crate::discovery::accepts(spec.check, o) {
                    v.candidates.push(candidate_view(v.current.unwrap(), spec))
                } else {
                    v.candidates
                };
                lemma_settle(ScanView { candidates: found, next_spec: v.next_spec + 1, ..v });
            }
        },
        Answer::Listing(entries) => {
            if awaits_listing(v) {
                lemma_settle(
                    ScanView {
                        pending: v.pending + subdirectories(v.current.unwrap(), entries, v.exclusions),
                        current: None,
                        ..v
                    },
                );
            }
        },
        Answer::ListingFailure => {},
    }
}

/// Law: whatever the filesystem answers, a scan that stops at its first
/// find reports at most one candidate.
pub proof fn law_first_only_finds_at_most_one(
    specs: Seq<PathSpecView>,
    exclusions: Seq<Seq<char>>,
    walk: Walk,
    dirs: Seq<PathView>,
    answers: Seq<Answer>,
)
    ensures
        replay(settle_view(fresh_scan(specs, exclusions, walk, true, dirs)), answers).candidates.len() <= 1,
{
    lemma_replay_first(specs, exclusions, walk, dirs, answers);
}

proof fn lemma_replay_first(
    specs: Seq<PathSpecView>,
    exclusions: Seq<Seq<char>>,
    walk: Walk,
    dirs: Seq<PathView>,
    answers: Seq<Answer>,
)
    ensures
        at_most_first(replay(settle_view(fresh_scan(specs, exclusions, walk, true, dirs)), answers)),
        replay(settle_view(fresh_scan(specs, exclusions, walk, true, dirs)), answers).first_only,
    decreases answers.len(),
{
    let v0 = fresh_scan(specs, exclusions, walk, true, dirs);
    lemma_settle(v0);
    if answers.len() > 0 {
        lemma_replay_first(specs, exclusions, walk, dirs, answers.drop_last());
        lemma_answer_first(replay(settle_view(v0), answers.drop_last()), answers.last());
    }
}

/// The answers that give each probe, in turn, the outcomes `outcomes`.
pub open spec fn probe_answers(outcomes: Seq<Outcome>) -> Seq<Answer> {
    outcomes.map_values(|o: Outcome| Answer::Probe(o))
}

/// A scan left with no current directory has none left to examine.
pub open spec fn done_means_empty(v: ScanView) -> bool {
    !v.failed && v.current is None ==> v.pending.len() == 0
}

proof fn lemma_answer_done(v: ScanView, a: Answer)
    requires
        done_means_empty(v),
    ensures
        done_means_empty(answer(v, a)),
{
    match a {
        Answer::Probe(o) => {
            if awaits_probe(v) && !(o is Failed) {
                let spec = v.specs[v.next_spec];
                let found = if accepts(spec.check, o) {
                    v.candidates.push(candidate_view(v.current.unwrap(), spec))
                } else {
                    v.candidates
                };
                lemma_settle(ScanView { candidates: found, next_spec: v.next_spec + 1, ..v });
            }
        },
        Answer::Listing(entries) => {
            if awaits_listing(v) {
                lemma_settle(
                    ScanView {
                        pending: v.pending + subdirectories(v.current.unwrap(), entries, v.exclusions),
                        current: None,
                        ..v
                    },
                );
            }
        },
        Answer::ListingFailure => {},
    }
}

proof fn lemma_replay_done(v: ScanView, answers: Seq<Answer>)
    requires
        done_means_empty(v),
    ensures
        done_means_empty(replay(v, answers)),
    decreases answers.len(),
{
    if answers.len() > 0 {
        lemma_replay_done(v, answers.drop_last());
        lemma_answer_done(replay(v, answers.drop_last()), answers.last());
    }
}

/// Law (completeness of the walk): whatever the filesystem answers, a scan
/// says it has finished only when no directory it queued is left
/// unexamined; with [`crate::discovery::Scan::record_listing`] queueing
/// every non-excluded subdirectory a listing shows, a finished downward
/// scan has examined every such directory.
pub proof fn law_finished_scan_left_nothing_unexamined(
    specs: Seq<PathSpecView>,
    exclusions: Seq<Seq<char>>,
    walk: Walk,
    first_only: bool,
    dirs: Seq<PathView>,
    answers: Seq<Answer>,
)
    ensures
        ({
            let v = replay(settle_view(fresh_scan(specs, exclusions, walk, first_only, dirs)), answers);
            step_of(v) is Finished ==> v.pending.len() == 0
        }),
{
    let v0 = fresh_scan(specs, exclusions, walk, first_only, dirs);
    lemma_settle(v0);
    lemma_replay_done(settle_view(v0), answers);
}

/// A filesystem, as a scan sees it: what each probe finds, and the
/// entries of each directory.
pub struct FsModel {
    pub probe: spec_fn(PathView, EntryCheck) -> Outcome,
    pub listing: spec_fn(PathView) -> Seq<DirEntryView>,
}

/// The filesystem's answer to what a scan asks.
pub open spec fn fs_answer(fs: FsModel, st: StepView) -> Answer {
    match st {
        StepView::Probe { path, check } => Answer::Probe((fs.probe)(path, check)),
        StepView::List { directory } => Answer::Listing((fs.listing)(directory)),
        _ => Answer::ListingFailure,
    }
}

/// The scan after `k` of its questions were answered by `fs`.
pub open spec fn run(fs: FsModel, v: ScanView, k: nat) -> ScanView
    decreases k,
{
    if k == 0 {
        v
    } else {
        run(fs, answer(v, fs_answer(fs, step_of(v))), (k - 1) as nat)
    }
}

/// The subdirectories of `d` that a downward scan enters, in listing order.
pub open spec fn children(fs: FsModel, d: PathView, exclusions: Seq<Seq<char>>) -> Seq<PathView> {
    subdirectories(d, (fs.listing)(d), exclusions)
}

/// The candidate the marker `spec` gives in `d`, if its probe passes.
pub open spec fn probe_find(fs: FsModel, d: PathView, spec: PathSpecView) -> Seq<CandidateView> {
    if accepts(spec.check, (fs.probe)(join_view(d, segments_of(spec.rel)), spec.check)) {
        seq![candidate_view(d, spec)]
    } else {
        Seq::empty()
    }
}

/// The candidates the markers `specs[j..]` give in `d`, in marker order.
pub open spec fn own_from(fs: FsModel, d: PathView, specs: Seq<PathSpecView>, j: int) -> Seq<CandidateView>
    decreases specs.len() - j,
{
    if j < 0 || j >= specs.len() {
        Seq::empty()
    } else {
        probe_find(fs, d, specs[j]) + own_from(fs, d, specs, j + 1)
    }
}

/// What a depth-first search reports below and in `d`: first the markers
/// found in `d` itself, in marker order, then, one subtree after another,
/// what it reports in each non-excluded subdirectory, taken from the last
/// listed to the first. `rank` is a measure that each subdirectory lowers.
pub open spec fn visit(
    fs: FsModel,
    specs: Seq<PathSpecView>,
    exclusions: Seq<Seq<char>>,
    rank: spec_fn(PathView) -> nat,
    d: PathView,
) -> Seq<CandidateView>
    decreases rank(d) + 1, 0nat,
{
    own_from(fs, d, specs, 0) + visit_all(fs, specs, exclusions, rank, children(fs, d, exclusions).reverse(), rank(d))
}

/// What a depth-first search reports in each of the directories `ds`, in
/// turn (those of rank below `bound`).
pub open spec fn visit_all(
    fs: FsModel,
    specs: Seq<PathSpecView>,
    exclusions: Seq<Seq<char>>,
    rank: spec_fn(PathView) -> nat,
    ds: Seq<PathView>,
    bound: nat,
) -> Seq<CandidateView>
    decreases bound, ds.len(),
{
    if ds.len() == 0 {
        Seq::empty()
    } else {
        (if rank(ds[0]) < bound {
            visit(fs, specs, exclusions, rank, ds[0])
        } else {
            Seq::empty()
        }) + visit_all(fs, specs, exclusions, rank, ds.drop_first(), bound)
    }
}

proof fn lemma_visit_all_bound(
    fs: FsModel,
    specs: Seq<PathSpecView>,
    exclusions: Seq<Seq<char>>,
    rank: spec_fn(PathView) -> nat,
    ds: Seq<PathView>,
    b1: nat,
    b2: nat,
)
    requires
        forall|i: int| 0 <= i < ds.len() ==> #[trigger] rank(ds[i]) < b1 && rank(ds[i]) < b2,
    ensures
        visit_all(fs, specs, exclusions, rank, ds, b1) == visit_all(fs, specs, exclusions, rank, ds, b2),
    decreases ds.len(),
{
    if ds.len() > 0 {
        assert(rank(ds[0]) < b1);
        assert forall|i: int| 0 <= i < ds.drop_first().len() implies #[trigger] rank(ds.drop_first()[i]) < b1
            && rank(ds.drop_first()[i]) < b2 by {
            assert(ds.drop_first()[i] == ds[i + 1]);
        }
        lemma_visit_all_bound(fs, specs, exclusions, rank, ds.drop_first(), b1, b2);
    }
}

proof fn lemma_visit_all_concat(
    fs: FsModel,
    specs: Seq<PathSpecView>,
    exclusions: Seq<Seq<char>>,
    rank: spec_fn(PathView) -> nat,
    a: Seq<PathView>,
    c: Seq<PathView>,
    b: nat,
)
    ensures
        visit_all(fs, specs, exclusions, rank, a + c, b) == visit_all(fs, specs, exclusions, rank, a, b)
            + visit_all(fs, specs, exclusions, rank, c, b),
    decreases a.len(),
{
    if a.len() == 0 {
        assert(a + c =~= c);
        assert(Seq::<CandidateView>::empty() + visit_all(fs, specs, exclusions, rank, c, b) =~= visit_all(
            fs,
            specs,
            exclusions,
            rank,
            c,
            b,
        ));
    } else {
        lemma_visit_all_concat(fs, specs, exclusions, rank, a.drop_first(), c, b);
        assert((a + c).drop_first() =~= a.drop_first() + c);
        assert((a + c)[0] == a[0]);
        let head = if rank(a[0]) < b {
            visit(fs, specs, exclusions, rank, a[0])
        } else {
            Seq::<CandidateView>::empty()
        };
        assert(head + (visit_all(fs, specs, exclusions, rank, a.drop_first(), b) + visit_all(
            fs,
            specs,
            exclusions,
            rank,
            c,
            b,
        )) =~= (head + visit_all(fs, specs, exclusions, rank, a.drop_first(), b)) + visit_all(
            fs,
            specs,
            exclusions,
            rank,
            c,
            b,
        ));
    }
}

/// Each subdirectory a downward scan may enter has a lower rank than its
/// parent: the tree below a directory is finite and has no cycles.
pub open spec fn ranked(fs: FsModel, exclusions: Seq<Seq<char>>, rank: spec_fn(PathView) -> nat) -> bool {
    forall|d: PathView, i: int|
        0 <= i < children(fs, d, exclusions).len() ==> #[trigger] rank(children(fs, d, exclusions)[i]) < rank(d)
}

/// What a downward scan still has to report, in order.
spec fn remaining(
    fs: FsModel,
    specs: Seq<PathSpecView>,
    exclusions: Seq<Seq<char>>,
    rank: spec_fn(PathView) -> nat,
    bound: nat,
    v: ScanView,
) -> Seq<CandidateView> {
    let cur = match v.current {
        Some(d) => own_from(fs, d, specs, v.next_spec) + visit_all(
            fs,
            specs,
            exclusions,
            rank,
            children(fs, d, exclusions).reverse(),
            rank(d),
        ),
        None => Seq::empty(),
    };
    cur + visit_all(fs, specs, exclusions, rank, v.pending.reverse(), bound)
}

/// The state of a downward scan of `root`, answered by `fs`.
spec fn dfs_at(
    fs: FsModel,
    root: PathView,
    specs: Seq<PathSpecView>,
    exclusions: Seq<Seq<char>>,
    rank: spec_fn(PathView) -> nat,
    v: ScanView,
) -> bool {
    &&& !v.failed
    &&& !v.first_only
    &&& v.walk == Walk::Downward
    &&& v.specs == specs
    &&& v.exclusions == exclusions
    &&& v.next_spec >= 0
    &&& forall|i: int| 0 <= i < v.pending.len() ==> #[trigger] rank(v.pending[i]) <= rank(root)
    &&& (v.current matches Some(d) ==> rank(d) <= rank(root))
    &&& (v.current is None ==> v.pending.len() == 0)
    &&& v.candidates + remaining(fs, specs, exclusions, rank, (rank(root) + 1) as nat, v) == visit(
        fs,
        specs,
        exclusions,
        rank,
        root,
    )
}

proof fn lemma_dfs_pop(
    fs: FsModel,
    root: PathView,
    specs: Seq<PathSpecView>,
    exclusions: Seq<Seq<char>>,
    rank: spec_fn(PathView) -> nat,
    w: ScanView,
)
    requires
        !w.failed,
        !w.first_only,
        w.walk == Walk::Downward,
        w.specs == specs,
        w.exclusions == exclusions,
        w.current is None,
        w.next_spec >= 0,
        forall|i: int| 0 <= i < w.pending.len() ==> #[trigger] rank(w.pending[i]) <= rank(root),
        w.candidates + visit_all(fs, specs, exclusions, rank, w.pending.reverse(), (rank(root) + 1) as nat) == visit(
            fs,
            specs,
            exclusions,
            rank,
            root,
        ),
    ensures
        dfs_at(fs, root, specs, exclusions, rank, settle_view(w)),
{
    let b = (rank(root) + 1) as nat;
    if w.pending.len() == 0 {
        assert(settle_view(w) == w);
        assert(w.pending.reverse() =~= Seq::<PathView>::empty());
        assert(visit_all(fs, specs, exclusions, rank, w.pending.reverse(), b) =~= Seq::<CandidateView>::empty());
        assert(remaining(fs, specs, exclusions, rank, b, w) =~= Seq::<CandidateView>::empty());
        assert(w.candidates + Seq::<CandidateView>::empty() =~= w.candidates);
    } else {
        let e = w.pending.last();
        let w2 = ScanView { current: Some(e), pending: w.pending.drop_last(), next_spec: 0, ..w };
        assert(settle_view(w2) == w2);
        assert(settle_view(w) == settle_view(w2));
        assert(rank(w.pending[w.pending.len() - 1]) <= rank(root));
        assert(w.pending.reverse()[0] == e);
        assert(w.pending.reverse().drop_first() =~= w.pending.drop_last().reverse());
        assert forall|i: int| 0 <= i < w2.pending.len() implies #[trigger] rank(w2.pending[i]) <= rank(root) by {
            assert(w2.pending[i] == w.pending[i]);
        }
        let kids = visit_all(fs, specs, exclusions, rank, children(fs, e, exclusions).reverse(), rank(e));
        let rest = visit_all(fs, specs, exclusions, rank, w2.pending.reverse(), b);
        assert(visit(fs, specs, exclusions, rank, e) == own_from(fs, e, specs, 0) + kids);
        assert(visit_all(fs, specs, exclusions, rank, w.pending.reverse(), b) == visit(
            fs,
            specs,
            exclusions,
            rank,
            e,
        ) + rest);
        assert(remaining(fs, specs, exclusions, rank, b, w2) == (own_from(fs, e, specs, 0) + kids) + rest);
        assert(remaining(fs, specs, exclusions, rank, b, w2) == visit_all(
            fs,
            specs,
            exclusions,
            rank,
            w.pending.reverse(),
            b,
        ));
        assert(settle_view(w).candidates + remaining(fs, specs, exclusions, rank, b, settle_view(w)) == visit(
            fs,
            specs,
            exclusions,
            rank,
            root,
        ));
    }
}

proof fn lemma_dfs_step(
    fs: FsModel,
    root: PathView,
    specs: Seq<PathSpecView>,
    exclusions: Seq<Seq<char>>,
    rank: spec_fn(PathView) -> nat,
    v: ScanView,
)
    requires
        dfs_at(fs, root, specs, exclusions, rank, v),
        ranked(fs, exclusions, rank),
        forall|p: PathView, c: EntryCheck| !(#[trigger] (fs.probe)(p, c) is Failed),
    ensures
        dfs_at(fs, root, specs, exclusions, rank, answer(v, fs_answer(fs, step_of(v)))),
{
    let b = (rank(root) + 1) as nat;
    let a = fs_answer(fs, step_of(v));
    match v.current {
        None => {
            assert(answer(v, a) == v);
        },
        Some(d) => {
            let j = v.next_spec;
            let kids = visit_all(fs, specs, exclusions, rank, children(fs, d, exclusions).reverse(), rank(d));
            let rest = visit_all(fs, specs, exclusions, rank, v.pending.reverse(), b);
            if j < specs.len() {
                let spec = specs[j];
                let o = (fs.probe)(join_view(d, segments_of(spec.rel)), spec.check);
                assert(a == Answer::Probe(o));
                assert(!(o is Failed));
                let found = if accepts(spec.check, o) {
                    v.candidates.push(candidate_view(d, spec))
                } else {
                    v.candidates
                };
                let w = ScanView { candidates: found, next_spec: j + 1, ..v };
                assert(answer(v, a) == settle_view(w));
                assert(settle_view(w) == w);
                assert(found =~= v.candidates + probe_find(fs, d, spec));
                assert(own_from(fs, d, specs, j) == probe_find(fs, d, spec) + own_from(fs, d, specs, j + 1));
                assert(w.candidates + remaining(fs, specs, exclusions, rank, b, w) =~= v.candidates + remaining(
                    fs,
                    specs,
                    exclusions,
                    rank,
                    b,
                    v,
                ));
            } else {
                let subs = children(fs, d, exclusions);
                assert(a == Answer::Listing((fs.listing)(d)));
                let w = ScanView { pending: v.pending + subs, current: None, ..v };
                assert(answer(v, a) == settle_view(w));
                assert(own_from(fs, d, specs, j) == Seq::<CandidateView>::empty());
                assert forall|i: int| 0 <= i < subs.len() implies #[trigger] rank(subs[i]) < rank(d) by {
                    assert(rank(children(fs, d, exclusions)[i]) < rank(d));
                }
                assert forall|i: int| 0 <= i < w.pending.len() implies #[trigger] rank(w.pending[i]) <= rank(root) by {
                    if i < v.pending.len() {
                        assert(w.pending[i] == v.pending[i]);
                    } else {
                        assert(w.pending[i] == subs[i - v.pending.len()]);
                    }
                }
                assert(w.pending.reverse() =~= subs.reverse() + v.pending.reverse());
                lemma_visit_all_concat(fs, specs, exclusions, rank, subs.reverse(), v.pending.reverse(), b);
                assert forall|i: int| 0 <= i < subs.reverse().len() implies #[trigger] rank(subs.reverse()[i])
                    < rank(d) && rank(subs.reverse()[i]) < b by {
                    assert(subs.reverse()[i] == subs[subs.len() - 1 - i]);
                }
                lemma_visit_all_bound(fs, specs, exclusions, rank, subs.reverse(), rank(d), b);
                assert(v.candidates + visit_all(fs, specs, exclusions, rank, w.pending.reverse(), b) =~= v.candidates
                    + remaining(fs, specs, exclusions, rank, b, v));
                lemma_dfs_pop(fs, root, specs, exclusions, rank, w);
            }
        },
    }
}

proof fn lemma_dfs_run(
    fs: FsModel,
    root: PathView,
    specs: Seq<PathSpecView>,
    exclusions: Seq<Seq<char>>,
    rank: spec_fn(PathView) -> nat,
    v: ScanView,
    k: nat,
)
    requires
        dfs_at(fs, root, specs, exclusions, rank, v),
        ranked(fs, exclusions, rank),
        forall|p: PathView, c: EntryCheck| !(#[trigger] (fs.probe)(p, c) is Failed),
    ensures
        dfs_at(fs, root, specs, exclusions, rank, run(fs, v, k)),
    decreases k,
{
    if k > 0 {
        lemma_dfs_step(fs, root, specs, exclusions, rank, v);
        lemma_dfs_run(fs, root, specs, exclusions, rank, answer(v, fs_answer(fs, step_of(v))), (k - 1) as nat);
    }
}

/// Law (what a downward scan reports): when a filesystem `fs` answers every
/// question of a downward scan of `root` (no probe fails, and the tree it
/// enters is finite and without cycles, as `rank` shows), then after any
/// number of answers the candidates found are the first ones of
/// [`visit`] of `root`, and once the scan is finished they are exactly
/// [`visit`] of `root`: one candidate per directory entered (`root` and,
/// depth first, each non-excluded subdirectory) and marker whose probe
/// passes, in depth-first pre-order, the markers of one directory together
/// and in marker order, each subtree's candidates together.
pub proof fn law_downward_scan_is_depth_first(
    fs: FsModel,
    root: PathView,
    specs: Seq<PathSpecView>,
    exclusions: Seq<Seq<char>>,
    rank: spec_fn(PathView) -> nat,
    k: nat,
)
    requires
        ranked(fs, exclusions, rank),
        forall|p: PathView, c: EntryCheck| !(#[trigger] (fs.probe)(p, c) is Failed),
    ensures
        ({
            let v = run(fs, settle_view(fresh_scan(specs, exclusions, Walk::Downward, false, seq![root])), k);
            let all = visit(fs, specs, exclusions, rank, root);
            &&& v.candidates.len() <= all.len()
            &&& v.candidates == all.take(v.candidates.len() as int)
            &&& step_of(v) is Finished ==> v.candidates == all
        }),
{
    let v0 = fresh_scan(specs, exclusions, Walk::Downward, false, seq![root]);
    assert(v0.candidates + visit_all(fs, specs, exclusions, rank, v0.pending.reverse(), (rank(root) + 1) as nat)
        =~= visit(fs, specs, exclusions, rank, root)) by {
        let b = (rank(root) + 1) as nat;
        assert(v0.pending.reverse() =~= seq![root]);
        assert(seq![root].drop_first() =~= Seq::<PathView>::empty());
        assert(visit_all(fs, specs, exclusions, rank, Seq::<PathView>::empty(), b) =~= Seq::<CandidateView>::empty());
        assert(visit_all(fs, specs, exclusions, rank, seq![root], b) =~= visit(fs, specs, exclusions, rank, root));
    }
    lemma_dfs_pop(fs, root, specs, exclusions, rank, v0);
    lemma_dfs_run(fs, root, specs, exclusions, rank, settle_view(v0), k);
    let v = run(fs, settle_view(v0), k);
    let all = visit(fs, specs, exclusions, rank, root);
    let rem = remaining(fs, specs, exclusions, rank, (rank(root) + 1) as nat, v);
    assert(all.take(v.candidates.len() as int) =~= v.candidates);
    if step_of(v) is Finished {
        assert(v.pending.reverse() =~= Seq::<PathView>::empty());
        assert(rem =~= Seq::<CandidateView>::empty());
        assert(v.candidates =~= all);
    }
}

/// The directories of an upward scan from `start`, in the order it
/// examines them: `start` first, then each ancestor, nearest first.
pub open spec fn nearest_first(start: PathView) -> Seq<PathView> {
    Seq::new((start.parts.len() + 1) as nat, |i: int| ancestor_view(start, start.parts.len() - i))
}

/// What a scan that examines the directories `order` in turn, asking about
/// each of `specs` in each, reports when its probes have the outcomes
/// `outcomes`: for each probe whose outcome passes its marker's check, the
/// candidate of that marker in that directory, in order.
pub open spec fn list_finds(order: Seq<PathView>, specs: Seq<PathSpecView>, outcomes: Seq<Outcome>) -> Seq<CandidateView>
    decreases outcomes.len(),
{
    if outcomes.len() == 0 {
        Seq::empty()
    } else {
        let t = outcomes.len() - 1;
        let spec = specs[t % specs.len() as int];
        let rest = list_finds(order, specs, outcomes.drop_last());
        if accepts(spec.check, outcomes.last()) {
            rest.push(candidate_view(order[t / specs.len() as int], spec))
        } else {
            rest
        }
    }
}

/// The state of a scan of the directories `order` after the outcomes
/// `outcomes`.
spec fn list_at(
    v: ScanView,
    order: Seq<PathView>,
    specs: Seq<PathSpecView>,
    first_only: bool,
    outcomes: Seq<Outcome>,
) -> bool {
    let a = outcomes.len() as int;
    let m = specs.len() as int;
    &&& !v.failed
    &&& v.first_only == first_only
    &&& v.walk != Walk::Downward
    &&& v.specs == specs
    &&& v.candidates == list_finds(order, specs, outcomes)
    &&& if a / m < order.len() {
        &&& v.current == Some(order[a / m])
        &&& v.next_spec == a % m
        &&& v.pending == order.reverse().take(order.len() - 1 - a / m)
    } else {
        v.current is None
    }
}

proof fn lemma_list_run(
    order: Seq<PathView>,
    specs: Seq<PathSpecView>,
    walk: Walk,
    first_only: bool,
    outcomes: Seq<Outcome>,
)
    requires
        specs.len() > 0,
        first_only ==> list_finds(order, specs, outcomes).len() == 0,
        walk != Walk::Downward,
        outcomes.len() / specs.len() <= order.len(),
        outcomes.len() % specs.len() == 0 || outcomes.len() / specs.len() < order.len(),
        forall|i: int| 0 <= i < outcomes.len() ==> !(#[trigger] outcomes[i] is Failed),
    ensures
        list_at(
            replay(
                settle_view(fresh_scan(specs, Seq::empty(), walk, first_only, order.reverse())),
                probe_answers(outcomes),
            ),
            order,
            specs,
            first_only,
            outcomes,
        ),
    decreases outcomes.len(),
{
    let m = specs.len() as int;
    let len = order.len() as int;
    let v0 = fresh_scan(specs, Seq::empty(), walk, first_only, order.reverse());
    if outcomes.len() == 0 {
        assert(0int / m == 0 && 0int % m == 0) by {
            lemma_fundamental_div_mod_converse(0, m, 0, 0);
        }
        assert(probe_answers(outcomes) =~= Seq::<Answer>::empty());
        if len > 0 {
            let w = ScanView {
                current: Some(v0.pending.last()),
                pending: v0.pending.drop_last(),
                next_spec: 0,
                ..v0
            };
            assert(settle_view(w) == w);
            assert(settle_view(v0) == settle_view(w));
            assert(w.pending =~= order.reverse().take(len - 1));
        }
    } else {
        let prev = outcomes.drop_last();
        let o = outcomes.last();
        let a = prev.len() as int;
        lemma_fundamental_div_mod(a, m);
        let q = a / m;
        let r = a % m;
        assert(0 <= r < m);
        assert(a == m * q + r);
        lemma_fundamental_div_mod(a + 1, m);
        if r + 1 < m {
            assert(a + 1 == q * m + (r + 1)) by (nonlinear_arith)
                requires
                    a == m * q + r,
            ;
            lemma_fundamental_div_mod_converse(a + 1, m, q, r + 1);
        } else {
            assert(a + 1 == (q + 1) * m + 0) by (nonlinear_arith)
                requires
                    a == m * q + r,
                    r + 1 == m,
            ;
            lemma_fundamental_div_mod_converse(a + 1, m, q + 1, 0);
        }
        assert(outcomes.drop_last() == prev);
        assert(list_finds(order, specs, prev).len() <= list_finds(order, specs, outcomes).len());
        lemma_list_run(order, specs, walk, first_only, prev);
        assert(probe_answers(outcomes).drop_last() =~= probe_answers(prev));
        let v = replay(settle_view(v0), probe_answers(prev));
        assert(replay(settle_view(v0), probe_answers(outcomes)) == answer(v, Answer::Probe(o)));
        assert(awaits_probe(v));
        assert(!(o is Failed)) by {
            assert(!(outcomes[outcomes.len() - 1] is Failed));
        }
        let spec = specs[r];
        let found = if accepts(spec.check, o) {
            v.candidates.push(candidate_view(v.current.unwrap(), spec))
        } else {
            v.candidates
        };
        assert(found == list_finds(order, specs, outcomes)) by {
            assert(outcomes.drop_last() == prev);
        }
        let w = ScanView { candidates: found, next_spec: v.next_spec + 1, ..v };
        assert(answer(v, Answer::Probe(o)) == settle_view(w));
        if r + 1 < m {
            assert(settle_view(w) == w);
        } else if len - 1 - q == 0 {
            assert(settle_view(w).current is None);
        } else {
            let w2 = ScanView {
                current: Some(w.pending.last()),
                pending: w.pending.drop_last(),
                next_spec: 0,
                ..w
            };
            assert(settle_view(w2) == w2);
            assert(settle_view(w) == settle_view(w2));
            assert(w2.pending =~= order.reverse().take(len - 1 - (q + 1)));
        }
    }
}

/// A scan of the directories `order`, after the outcomes `outcomes`,
/// reports what [`list_finds`] says, and then asks about the next marker of
/// the same directory, or the first of the next directory, or is finished
/// once every marker of every directory has an outcome.
proof fn lemma_list_law(order: Seq<PathView>, specs: Seq<PathSpecView>, walk: Walk, outcomes: Seq<Outcome>)
    requires
        specs.len() > 0,
        walk != Walk::Downward,
        outcomes.len() <= order.len() * specs.len(),
        forall|i: int| 0 <= i < outcomes.len() ==> !(#[trigger] outcomes[i] is Failed),
    ensures
        ({
            let v = replay(
                settle_view(fresh_scan(specs, Seq::empty(), walk, false, order.reverse())),
                probe_answers(outcomes),
            );
            let m = specs.len() as int;
            let t = outcomes.len() as int;
            &&& v.candidates == list_finds(order, specs, outcomes)
            &&& t < order.len() * m ==> step_of(v) == (StepView::Probe {
                path: join_view(order[t / m], segments_of(specs[t % m].rel)),
                check: specs[t % m].check,
            })
            &&& t == order.len() * m ==> step_of(v) == StepView::Finished
        }),
{
    let m = specs.len() as int;
    let len = order.len() as int;
    let t = outcomes.len() as int;
    lemma_fundamental_div_mod(t, m);
    let q = t / m;
    let r = t % m;
    assert(q <= len) by (nonlinear_arith)
        requires
            t == m * q + r,
            0 <= r < m,
            t <= len * m,
            m > 0,
    ;
    assert(r == 0 || q < len) by (nonlinear_arith)
        requires
            t == m * q + r,
            0 <= r < m,
            t <= len * m,
            m > 0,
    ;
    lemma_list_run(order, specs, walk, false, outcomes);
    if t < len * m {
        assert(q < len) by (nonlinear_arith)
            requires
                t == m * q + r,
                0 <= r < m,
                t < len * m,
                m > 0,
        ;
    } else {
        assert(q == len) by (nonlinear_arith)
            requires
                t == m * q + r,
                0 <= r < m,
                t == len * m,
                m > 0,
        ;
    }
}

/// Law (a scan that stops at its first find): a scan of the directories
/// `order` that stops at its first find, while none of the outcomes of its
/// probes so far passes, has found nothing and asks the same next probe as
/// a scan that does not stop; the first probe whose outcome passes gives
/// its only candidate, and the scan is then finished.
pub proof fn law_first_only_list_scan_reports_first_find(
    order: Seq<PathView>,
    specs: Seq<PathSpecView>,
    walk: Walk,
    outcomes: Seq<Outcome>,
    last: Outcome,
)
    requires
        specs.len() > 0,
        walk != Walk::Downward,
        outcomes.len() <= order.len() * specs.len(),
        forall|i: int| 0 <= i < outcomes.len() ==> !(#[trigger] outcomes[i] is Failed),
        list_finds(order, specs, outcomes).len() == 0,
    ensures
        ({
            let v0 = settle_view(fresh_scan(specs, Seq::empty(), walk, true, order.reverse()));
            let v = replay(v0, probe_answers(outcomes));
            let m = specs.len() as int;
            let t = outcomes.len() as int;
            &&& v.candidates.len() == 0
            &&& t < order.len() * m ==> step_of(v) == (StepView::Probe {
                path: join_view(order[t / m], segments_of(specs[t % m].rel)),
                check: specs[t % m].check,
            })
            &&& t == order.len() * m ==> step_of(v) == StepView::Finished
            &&& (t < order.len() * m && !(last is Failed) && accepts(specs[t % m].check, last)) ==> {
                let w = replay(v0, probe_answers(outcomes.push(last)));
                &&& w.candidates == seq![candidate_view(order[t / m], specs[t % m])]
                &&& step_of(w) == StepView::Finished
            }
        }),
{
    let m = specs.len() as int;
    let len = order.len() as int;
    let t = outcomes.len() as int;
    lemma_fundamental_div_mod(t, m);
    let q = t / m;
    let r = t % m;
    assert(q <= len) by (nonlinear_arith)
        requires
            t == m * q + r,
            0 <= r < m,
            t <= len * m,
            m > 0,
    ;
    assert(r == 0 || q < len) by (nonlinear_arith)
        requires
            t == m * q + r,
            0 <= r < m,
            t <= len * m,
            m > 0,
    ;
    if t < len * m {
        assert(q < len) by (nonlinear_arith)
            requires
                t == m * q + r,
                0 <= r < m,
                t < len * m,
                m > 0,
        ;
    } else {
        assert(q == len) by (nonlinear_arith)
            requires
                t == m * q + r,
                0 <= r < m,
                t == len * m,
                m > 0,
        ;
    }
    lemma_list_run(order, specs, walk, true, outcomes);
    let v0 = settle_view(fresh_scan(specs, Seq::empty(), walk, true, order.reverse()));
    let v = replay(v0, probe_answers(outcomes));
    if t < len * m && !(last is Failed) && accepts(specs[r].check, last) {
        let all = outcomes.push(last);
        assert(probe_answers(all).drop_last() =~= probe_answers(outcomes));
        assert(replay(v0, probe_answers(all)) == answer(v, Answer::Probe(last)));
        assert(awaits_probe(v));
        let found = v.candidates.push(candidate_view(v.current.unwrap(), specs[r]));
        let w = ScanView { candidates: found, next_spec: v.next_spec + 1, ..v };
        assert(answer(v, Answer::Probe(last)) == settle_view(w));
        assert(halted(w));
        assert(found =~= seq![candidate_view(order[q], specs[r])]);
    }
}

/// Law (what an upward scan reports): when the probes of an upward scan
/// from `start`, asked in turn, have the outcomes `outcomes` (none of them a
/// failure), the scan reports exactly the candidates of the probes whose
/// outcome passes, in order, the `t`-th probe being about marker `t % m` in
/// the `t / m`-th directory of `start` and its ancestors, nearest first; it
/// then asks the next such probe, and once every marker of every ancestor
/// has an outcome it is finished.
pub proof fn law_upward_scan_reports_accepted_probes(
    start: PathView,
    specs: Seq<PathSpecView>,
    outcomes: Seq<Outcome>,
)
    requires
        specs.len() > 0,
        outcomes.len() <= (start.parts.len() + 1) * specs.len(),
        forall|i: int| 0 <= i < outcomes.len() ==> !(#[trigger] outcomes[i] is Failed),
    ensures
        ({
            let v = replay(
                settle_view(fresh_scan(specs, Seq::empty(), Walk::Upward, false, ancestor_chain(start))),
                probe_answers(outcomes),
            );
            let m = specs.len() as int;
            let t = outcomes.len() as int;
            let order = nearest_first(start);
            &&& v.candidates == list_finds(order, specs, outcomes)
            &&& t < (start.parts.len() + 1) * m ==> step_of(v) == (StepView::Probe {
                path: join_view(order[t / m], segments_of(specs[t % m].rel)),
                check: specs[t % m].check,
            })
            &&& t == (start.parts.len() + 1) * m ==> step_of(v) == StepView::Finished
        }),
{
    assert(nearest_first(start).reverse() =~= ancestor_chain(start));
    lemma_list_law(nearest_first(start), specs, Walk::Upward, outcomes);
}

/// Law (what a given-list scan reports): when the probes of a scan of the
/// directories `dirs`, asked in turn, have the outcomes `outcomes` (none of
/// them a failure), the scan reports exactly the candidates of the probes
/// whose outcome passes, in order, the `t`-th probe being about marker
/// `t % m` in `dirs[t / m]`; it then asks the next such probe, and once every
/// marker of every directory has an outcome it is finished.
pub proof fn law_given_scan_reports_accepted_probes(
    dirs: Seq<PathView>,
    specs: Seq<PathSpecView>,
    outcomes: Seq<Outcome>,
)
    requires
        specs.len() > 0,
        outcomes.len() <= dirs.len() * specs.len(),
        forall|i: int| 0 <= i < outcomes.len() ==> !(#[trigger] outcomes[i] is Failed),
    ensures
        ({
            let v = replay(
                settle_view(fresh_scan(specs, Seq::empty(), Walk::Given, false, dirs.reverse())),
                probe_answers(outcomes),
            );
            let m = specs.len() as int;
            let t = outcomes.len() as int;
            &&& v.candidates == list_finds(dirs, specs, outcomes)
            &&& t < dirs.len() * m ==> step_of(v) == (StepView::Probe {
                path: join_view(dirs[t / m], segments_of(specs[t % m].rel)),
                check: specs[t % m].check,
            })
            &&& t == dirs.len() * m ==> step_of(v) == StepView::Finished
        }),
{
    lemma_list_law(dirs, specs, Walk::Given, outcomes);
}

} // verus!
