use vstd::prelude::*;

use crate::candidate::{Candidate, CandidateView, Evidence};
use crate::exclusion::{exclusion_names, excluded, is_excluded, ExclusionSpec};
use crate::framework::{contains_next_js, declares_next_js, PackageManifest};
use crate::path::{ancestor_view, join_view, name_of, segments_of, PathView, ProjectPath};
use crate::views::{lemma_views_drop_last, lemma_views_push, views_of};

verus! {

/// The kind of filesystem entry a marker must be.
#[derive(Debug, Clone, Copy, PartialEq, Eq, Structural)]
pub enum EntryKind {
    File,
    Directory,
}

/// A test on the contents of a marker file.
#[derive(Debug, Clone, Copy, PartialEq, Eq, Structural)]
pub enum ContentRule {
    /// The file is a `package.json` that declares a dependency on Next.js.
    NextJsDependency,
}

/// What must hold of a marker path for its directory to count as evidence.
#[derive(Debug, Clone, Copy, PartialEq, Eq, Structural)]
pub enum EntryCheck {
    /// An entry of the given kind is there.
    Kind(EntryKind),
    /// Some entry is there, of any kind.
    Exists,
    /// The file is there and its contents pass the rule.
    Content(ContentRule),
}

/// A marker: a path relative to a directory, the check on it, and the
/// evidence its presence gives.
pub struct PathSpec {
    pub relative_path: String,
    pub check: EntryCheck,
    pub evidence: Evidence,
}

/// The mathematical content of a [`PathSpec`].
pub struct PathSpecView {
    pub rel: Seq<char>,
    pub check: EntryCheck,
    pub evidence: Evidence,
}

impl View for PathSpec {
    type V = PathSpecView;

    open spec fn view(&self) -> PathSpecView {
        PathSpecView { rel: self.relative_path@, check: self.check, evidence: self.evidence }
    }
}

/// A marker as a value of its view.
pub open spec fn spec_view(rel: Seq<char>, check: EntryCheck, evidence: Evidence) -> PathSpecView {
    PathSpecView { rel, check, evidence }
}

/// Builds a marker.
pub fn path_spec(relative_path: &str, check: EntryCheck, evidence: Evidence) -> (s: PathSpec)
    ensures
        s@ == spec_view(relative_path@, check, evidence),
{
    PathSpec { relative_path: String::from_str(relative_path), check, evidence }
}

/// What was found at a probed path.
pub enum Outcome {
    /// Nothing is there.
    Missing,
    /// The filesystem reported an error other than absence.
    Failed,
    /// An entry is there; whether it is a regular file or a directory.
    Found { is_file: bool, is_dir: bool },
    /// A file was read; the manifest its text parses to, if it parses.
    Read(Option<PackageManifest>),
}

/// A directory entry as a listing shows it.
pub struct DirEntry {
    pub name: String,
    pub is_dir: bool,
}

/// The mathematical content of a [`DirEntry`].
pub struct DirEntryView {
    pub name: Seq<char>,
    pub is_dir: bool,
}

impl View for DirEntry {
    type V = DirEntryView;

    open spec fn view(&self) -> DirEntryView {
        DirEntryView { name: self.name@, is_dir: self.is_dir }
    }
}

/// Whether an entry with these facts is of the given kind.
pub open spec fn entry_kind_matches(is_file: bool, is_dir: bool, kind: EntryKind) -> bool {
    match kind {
        EntryKind::File => is_file,
        EntryKind::Directory => is_dir,
    }
}

/// Whether an outcome satisfies a check.
pub open spec fn accepts(check: EntryCheck, outcome: Outcome) -> bool {
    match check {
        EntryCheck::Kind(kind) => match outcome {
            Outcome::Found { is_file, is_dir } => entry_kind_matches(is_file, is_dir, kind),
            _ => false,
        },
        EntryCheck::Exists => outcome is Found,
        EntryCheck::Content(ContentRule::NextJsDependency) => match outcome {
            Outcome::Read(Some(m)) => declares_next_js(m),
            _ => false,
        },
    }
}

/// Whether an entry with these facts is of the given kind.
pub fn matches_entry_kind(is_file: bool, is_dir: bool, kind: EntryKind) -> (b: bool)
    ensures
        b == entry_kind_matches(is_file, is_dir, kind),
{
    match kind {
        EntryKind::File => is_file,
        EntryKind::Directory => is_dir,
    }
}

/// Whether `outcome` satisfies `check`.
pub fn check_accepts(check: EntryCheck, outcome: &Outcome) -> (b: bool)
    ensures
        b == accepts(check, *outcome),
{
    match check {
        EntryCheck::Kind(kind) => match outcome {
            Outcome::Found { is_file, is_dir } => matches_entry_kind(*is_file, *is_dir, kind),
            _ => false,
        },
        EntryCheck::Exists => match outcome {
            Outcome::Found { .. } => true,
            _ => false,
        },
        EntryCheck::Content(ContentRule::NextJsDependency) => match outcome {
            Outcome::Read(Some(m)) => contains_next_js(Some(m)),
            _ => false,
        },
    }
}

/// The candidate that a marker found in `dir` gives.
pub open spec fn candidate_view(dir: PathView, spec: PathSpecView) -> CandidateView {
    CandidateView {
        name: name_of(dir),
        scope: dir,
        evidence: spec.evidence,
        source: join_view(dir, segments_of(spec.rel)),
    }
}

/// The candidate that the marker `spec` found in `dir` gives.
pub fn candidate_for(dir: &ProjectPath, spec: &PathSpec) -> (c: Candidate)
    ensures
        c@ == candidate_view(dir@, spec@),
{
    Candidate {
        name: dir.name(),
        scope_path: dir.duplicate(),
        evidence: spec.evidence,
        source_path: dir.join(spec.relative_path.as_str()),
    }
}

/// Which directories a scan examines.
#[derive(Debug, Clone, Copy, PartialEq, Eq, Structural)]
pub enum Walk {
    /// The start directory and each of its ancestors, nearest first.
    Upward,
    /// The root and every directory below it that is not excluded,
    /// depth first.
    Downward,
    /// A given list of directories, in order.
    Given,
}

/// A search for markers, driven one filesystem question at a time: the
/// caller asks [`Scan::next_step`] what to look at and hands the answer
/// back through [`Scan::record`], [`Scan::record_listing`] or
/// [`Scan::record_listing_failure`].
pub struct Scan {
    specs: Vec<PathSpec>,
    exclusions: Vec<ExclusionSpec>,
    walk: Walk,
    first_only: bool,
    pending: Vec<ProjectPath>,
    current: Option<ProjectPath>,
    next_spec: usize,
    candidates: Vec<Candidate>,
    failed: bool,
}

/// The mathematical content of a [`Scan`].
#[verifier::ext_equal]
pub struct ScanView {
    pub specs: Seq<PathSpecView>,
    pub exclusions: Seq<Seq<char>>,
    pub walk: Walk,
    pub first_only: bool,
    /// Directories still to examine; the last one is examined next.
    pub pending: Seq<PathView>,
    /// The directory being examined.
    pub current: Option<PathView>,
    /// The index of the next marker to look for in the current directory.
    pub next_spec: int,
    pub candidates: Seq<CandidateView>,
    pub failed: bool,
}

/// The view of an optional path.
pub open spec fn opt_view(p: Option<ProjectPath>) -> Option<PathView> {
    match p {
        Some(q) => Some(q@),
        None => None,
    }
}

impl View for Scan {
    type V = ScanView;

    closed spec fn view(&self) -> ScanView {
        ScanView {
            specs: views_of(self.specs@),
            exclusions: exclusion_names(self.exclusions@),
            walk: self.walk,
            first_only: self.first_only,
            pending: views_of(self.pending@),
            current: opt_view(self.current),
            next_spec: self.next_spec as int,
            candidates: views_of(self.candidates@),
            failed: self.failed,
        }
    }
}

/// A scan that stops at its first find has found something.
pub open spec fn halted(v: ScanView) -> bool {
    v.first_only && v.candidates.len() > 0
}

/// The scan has nothing left to do with its current directory.
pub open spec fn idle(v: ScanView) -> bool {
    match v.current {
        None => true,
        Some(_) => v.next_spec >= v.specs.len() && v.walk != Walk::Downward,
    }
}

/// The scan moved on to the next directory that has work left, if any.
pub open spec fn settle_view(v: ScanView) -> ScanView
    decreases v.pending.len(),
{
    if v.failed {
        v
    } else if halted(v) {
        ScanView { current: None, pending: Seq::empty(), ..v }
    } else if idle(v) {
        if v.pending.len() == 0 {
            ScanView { current: None, ..v }
        } else {
            settle_view(
                ScanView {
                    current: Some(v.pending.last()),
                    pending: v.pending.drop_last(),
                    next_spec: 0,
                    ..v
                },
            )
        }
    } else {
        v
    }
}

/// The scan waits for the outcome of a probe.
pub open spec fn awaits_probe(v: ScanView) -> bool {
    !v.failed && v.current is Some && 0 <= v.next_spec < v.specs.len()
}

/// The scan waits for the listing of its current directory.
pub open spec fn awaits_listing(v: ScanView) -> bool {
    !v.failed && v.current is Some && v.next_spec >= v.specs.len() && v.walk == Walk::Downward
}

/// The scan after the outcome `o` of its pending probe.
pub open spec fn after_probe(v: ScanView, o: Outcome) -> ScanView {
    if !awaits_probe(v) {
        v
    } else if o is Failed {
        ScanView { failed: true, ..v }
    } else {
        let spec = v.specs[v.next_spec];
        let found = if accepts(spec.check, o) {
            v.candidates.push(candidate_view(v.current.unwrap(), spec))
        } else {
            v.candidates
        };
        settle_view(ScanView { candidates: found, next_spec: v.next_spec + 1, ..v })
    }
}

/// The subdirectories of `dir` that a listing shows and that are not
/// excluded, in listing order.
pub open spec fn subdirectories(dir: PathView, entries: Seq<DirEntryView>, exclusions: Seq<Seq<char>>) -> Seq<PathView>
    decreases entries.len(),
{
    if entries.len() == 0 {
        Seq::empty()
    } else {
        let rest = subdirectories(dir, entries.drop_last(), exclusions);
        let e = entries.last();
        if e.is_dir && !excluded(e.name, exclusions) {
            rest.push(join_view(dir, seq![e.name]))
        } else {
            rest
        }
    }
}

/// The scan after the listing `entries` of its current directory.
pub open spec fn after_listing(v: ScanView, entries: Seq<DirEntryView>) -> ScanView {
    if !awaits_listing(v) {
        v
    } else {
        settle_view(
            ScanView {
                pending: v.pending + subdirectories(v.current.unwrap(), entries, v.exclusions),
                current: None,
                ..v
            },
        )
    }
}

/// The scan after its current directory could not be listed.
pub open spec fn after_listing_failure(v: ScanView) -> ScanView {
    if awaits_listing(v) {
        ScanView { failed: true, ..v }
    } else {
        v
    }
}

/// What a scan asks of the filesystem next, or how it ended.
pub enum Step {
    /// Report what is at `path`: its metadata, or, for a content check,
    /// the manifest its text parses to.
    Probe { path: ProjectPath, check: EntryCheck },
    /// List the entries of `directory`.
    List { directory: ProjectPath },
    /// The scan is over; its candidates are final.
    Finished,
    /// A filesystem error ended the scan.
    Failed,
}

/// The mathematical content of a [`Step`].
pub enum StepView {
    Probe { path: PathView, check: EntryCheck },
    List { directory: PathView },
    Finished,
    Failed,
}

impl View for Step {
    type V = StepView;

    open spec fn view(&self) -> StepView {
        match self {
            Step::Probe { path, check } => StepView::Probe { path: path@, check: *check },
            Step::List { directory } => StepView::List { directory: directory@ },
            Step::Finished => StepView::Finished,
            Step::Failed => StepView::Failed,
        }
    }
}

/// What a scan in state `v` asks next.
pub open spec fn step_of(v: ScanView) -> StepView {
    if v.failed {
        StepView::Failed
    } else {
        match v.current {
            None => StepView::Finished,
            Some(dir) => if 0 <= v.next_spec < v.specs.len() {
                StepView::Probe {
                    path: join_view(dir, segments_of(v.specs[v.next_spec].rel)),
                    check: v.specs[v.next_spec].check,
                }
            } else {
                StepView::List { directory: dir }
            },
        }
    }
}

/// The start directory and its ancestors, farthest first.
pub open spec fn ancestor_chain(p: PathView) -> Seq<PathView> {
    Seq::new((p.parts.len() + 1) as nat, |k: int| ancestor_view(p, k))
}

/// A fresh scan, before it settles on its first directory.
pub open spec fn fresh_scan(
    specs: Seq<PathSpecView>,
    exclusions: Seq<Seq<char>>,
    walk: Walk,
    first_only: bool,
    pending: Seq<PathView>,
) -> ScanView {
    ScanView {
        specs,
        exclusions,
        walk,
        first_only,
        pending,
        current: None,
        next_spec: 0,
        candidates: Seq::empty(),
        failed: false,
    }
}

impl Scan {
    fn settle(&mut self)
        ensures
            final(self)@ == settle_view(old(self)@),
    {
        loop
            invariant
                settle_view(self@) == settle_view(old(self)@),
            decreases self.pending.len(),
        {
            if self.failed {
                return;
            }
            if self.first_only && self.candidates.len() > 0 {
                self.current = None;
                self.pending = Vec::new();
                assert(self@ =~= settle_view(old(self)@));
                return;
            }
            let idle = match &self.current {
                None => true,
                Some(_) => self.next_spec >= self.specs.len() && self.walk != Walk::Downward,
            };
            if !idle {
                return;
            }
            let ghost before = self@;
            let ghost old_pending = self.pending@;
            match self.pending.pop() {
                None => {
                    self.current = None;
                    assert(self@ =~= settle_view(old(self)@));
                    return;
                },
                Some(p) => {
                    proof {
                        lemma_views_drop_last(old_pending);
                    }
                    self.current = Some(p);
                    self.next_spec = 0;
                    assert(self@ =~= ScanView {
                        current: Some(before.pending.last()),
                        pending: before.pending.drop_last(),
                        next_spec: 0,
                        ..before
                    });
                },
            }
        }
    }

    /// A scan of `start` and its ancestors, nearest first, for the markers
    /// `specs`; with `first_only` it ends at its first find.
    pub fn upward(start: &ProjectPath, specs: Vec<PathSpec>, first_only: bool) -> (s: Scan)
        ensures
            s@ == settle_view(
                fresh_scan(views_of(specs@), Seq::empty(), Walk::Upward, first_only, ancestor_chain(start@)),
            ),
    {
        let n = start.components.len();
        let mut pending: Vec<ProjectPath> = Vec::new();
        let mut k: usize = 0;
        while k < n
            invariant
                k <= n,
                n == start@.parts.len(),
                views_of(pending@) =~= ancestor_chain(start@).take(k as int),
            decreases n - k,
        {
            let a = start.ancestor(k);
            let ghost before = pending@;
            pending.push(a);
            proof {
                lemma_views_push(before, a);
                assert(ancestor_chain(start@).take(k + 1) =~= ancestor_chain(start@).take(k as int).push(a@));
            }
            k = k + 1;
        }
        let a = start.ancestor(n);
        let ghost before = pending@;
        pending.push(a);
        proof {
            lemma_views_push(before, a);
            assert(views_of(pending@) =~= ancestor_chain(start@));
        }
        let mut s = Scan {
            specs,
            exclusions: Vec::new(),
            walk: Walk::Upward,
            first_only,
            pending,
            current: None,
            next_spec: 0,
            candidates: Vec::new(),
            failed: false,
        };
        assert(s@ =~= fresh_scan(views_of(specs@), Seq::empty(), Walk::Upward, first_only, ancestor_chain(start@)));
        s.settle();
        s
    }

    /// A depth-first scan of `root` and of every directory below it whose
    /// name is not excluded, for the markers `specs`.
    pub fn downward(root: &ProjectPath, specs: Vec<PathSpec>, exclusions: Vec<ExclusionSpec>) -> (s: Scan)
        ensures
            s@ == settle_view(
                fresh_scan(views_of(specs@), exclusion_names(exclusions@), Walk::Downward, false, seq![root@]),
            ),
    {
        let r = root.duplicate();
        let pending = vec![r];
        let mut s = Scan {
            specs,
            exclusions,
            walk: Walk::Downward,
            first_only: false,
            pending,
            current: None,
            next_spec: 0,
            candidates: Vec::new(),
            failed: false,
        };
        assert(s@ =~= fresh_scan(views_of(specs@), exclusion_names(exclusions@), Walk::Downward, false, seq![root@]));
        s.settle();
        s
    }

    /// A scan of each directory of `dirs`, in order, for the markers `specs`.
    pub fn given(dirs: &Vec<ProjectPath>, specs: Vec<PathSpec>) -> (s: Scan)
        ensures
            s@ == settle_view(
                fresh_scan(views_of(specs@), Seq::empty(), Walk::Given, false, views_of(dirs@).reverse()),
            ),
    {
        let n = dirs.len();
        let mut pending: Vec<ProjectPath> = Vec::new();
        let mut k: usize = n;
        while k > 0
            invariant
                k <= n,
                n == dirs@.len(),
                views_of(pending@) =~= views_of(dirs@).reverse().take(n - k),
            decreases k,
        {
            k = k - 1;
            let d = dirs[k].duplicate();
            let ghost before = pending@;
            pending.push(d);
            proof {
                lemma_views_push(before, d);
                assert(views_of(dirs@).reverse().take(n - k) =~= views_of(dirs@).reverse().take(n - k - 1).push(d@));
            }
        }
        assert(views_of(dirs@).reverse().take(n as int) =~= views_of(dirs@).reverse());
        let mut s = Scan {
            specs,
            exclusions: Vec::new(),
            walk: Walk::Given,
            first_only: false,
            pending,
            current: None,
            next_spec: 0,
            candidates: Vec::new(),
            failed: false,
        };
        assert(s@ =~= fresh_scan(views_of(specs@), Seq::empty(), Walk::Given, false, views_of(dirs@).reverse()));
        s.settle();
        s
    }

    /// What the scan asks next, or how it ended.
    pub fn next_step(&self) -> (st: Step)
        ensures
            st@ == step_of(self@),
    {
        if self.failed {
            return Step::Failed;
        }
        match &self.current {
            None => Step::Finished,
            Some(dir) => {
                if self.next_spec < self.specs.len() {
                    let spec = &self.specs[self.next_spec];
                    Step::Probe { path: dir.join(spec.relative_path.as_str()), check: spec.check }
                } else {
                    Step::List { directory: dir.duplicate() }
                }
            },
        }
    }

    /// Hands the scan the outcome of the probe it asked for; a scan that
    /// asked for no probe is left as it is.
    pub fn record(&mut self, outcome: Outcome)
        ensures
            final(self)@ == after_probe(old(self)@, outcome),
    {
        if self.failed || self.next_spec >= self.specs.len() {
            return;
        }
        let found: Option<Candidate> = match &self.current {
            None => {
                return;
            },
            Some(dir) => {
                if let Outcome::Failed = outcome {
                    self.failed = true;
                    assert(self@ =~= after_probe(old(self)@, outcome));
                    return;
                }
                let spec = &self.specs[self.next_spec];
                if check_accepts(spec.check, &outcome) {
                    Some(candidate_for(dir, spec))
                } else {
                    None
                }
            },
        };
        let ghost before = self.candidates@;
        match found {
            Some(c) => {
                self.candidates.push(c);
                proof {
                    lemma_views_push(before, c);
                }
            },
            None => {},
        }
        self.next_spec = self.next_spec + 1;
        self.settle();
    }

    /// Hands the scan the listing of the directory it asked to list; a
    /// scan that asked for no listing is left as it is.
    pub fn record_listing(&mut self, entries: Vec<DirEntry>)
        ensures
            final(self)@ == after_listing(old(self)@, views_of(entries@)),
    {
        if self.failed || self.next_spec < self.specs.len() || self.walk != Walk::Downward {
            return;
        }
        let dir = match &self.current {
            None => {
                return;
            },
            Some(d) => d.duplicate(),
        };
        let ghost start_pending = views_of(self.pending@);
        assert(views_of(entries@).take(0) =~= Seq::<DirEntryView>::empty());
        assert(self@ =~= ScanView {
            pending: start_pending + subdirectories(dir@, views_of(entries@).take(0), exclusion_names(self.exclusions@)),
            ..old(self)@
        });
        let mut i: usize = 0;
        while i < entries.len()
            invariant
                i <= entries.len(),
                self.exclusions == old(self).exclusions,
                dir@ == old(self)@.current.unwrap(),
                self@ == (ScanView {
                    pending: start_pending + subdirectories(
                        dir@,
                        views_of(entries@).take(i as int),
                        exclusion_names(self.exclusions@),
                    ),
                    ..old(self)@
                }),
            decreases entries.len() - i,
        {
            proof {
                assert(views_of(entries@).take(i + 1).drop_last() =~= views_of(entries@).take(i as int));
            }
            let e = &entries[i];
            if e.is_dir && !is_excluded(&e.name, &self.exclusions) {
                let sub = dir.child(&e.name);
                let ghost before = self.pending@;
                self.pending.push(sub);
                proof {
                    lemma_views_push(before, sub);
                    assert(self@ =~= ScanView {
                        pending: start_pending + subdirectories(
                            dir@,
                            views_of(entries@).take(i + 1),
                            exclusion_names(self.exclusions@),
                        ),
                        ..old(self)@
                    });
                }
            }
            i = i + 1;
        }
        assert(views_of(entries@).take(entries.len() as int) =~= views_of(entries@));
        self.current = None;
        assert(self@ =~= ScanView {
            pending: old(self)@.pending + subdirectories(old(self)@.current.unwrap(), views_of(entries@), old(self)@.exclusions),
            current: None,
            ..old(self)@
        });
        self.settle();
    }

    /// Tells the scan that the directory it asked to list could not be
    /// listed; a scan that asked for no listing is left as it is.
    pub fn record_listing_failure(&mut self)
        ensures
            final(self)@ == after_listing_failure(old(self)@),
    {
        if self.failed || self.next_spec < self.specs.len() || self.walk != Walk::Downward {
            return;
        }
        if self.current.is_none() {
            return;
        }
        self.failed = true;
        assert(self@ =~= after_listing_failure(old(self)@));
    }

    /// The candidates found so far, borrowed.
    pub fn candidates(&self) -> (c: &Vec<Candidate>)
        ensures
            views_of(c@) == self@.candidates,
    {
        &self.candidates
    }

    /// The candidates found so far.
    pub fn into_candidates(self) -> (c: Vec<Candidate>)
        ensures
            views_of(c@) == self@.candidates,
    {
        self.candidates
    }
}

/// A scan of `start` and each of its ancestors, nearest first, for the
/// markers `specs`.
pub fn find_path_in_ancestors(start: &ProjectPath, specs: Vec<PathSpec>) -> (s: Scan)
    ensures
        s@ == settle_view(fresh_scan(views_of(specs@), Seq::empty(), Walk::Upward, false, ancestor_chain(start@))),
{
    Scan::upward(start, specs, false)
}

/// A depth-first scan of `root` and of every directory below it whose name
/// is not among `exclusions`, for the markers `specs`.
pub fn find_path_in_descendants(root: &ProjectPath, specs: Vec<PathSpec>, exclusions: Vec<ExclusionSpec>) -> (s: Scan)
    ensures
        s@ == settle_view(
            fresh_scan(views_of(specs@), exclusion_names(exclusions@), Walk::Downward, false, seq![root@]),
        ),
{
    Scan::downward(root, specs, exclusions)
}

/// A scan of the one directory `directory` for the markers `specs`.
pub fn find_by_content_in_directory(directory: &ProjectPath, specs: Vec<PathSpec>) -> (s: Scan)
    ensures
        s@ == settle_view(fresh_scan(views_of(specs@), Seq::empty(), Walk::Given, false, seq![directory@])),
{
    let dirs = vec![directory.duplicate()];
    let s = Scan::given(&dirs, specs);
    assert(views_of(dirs@).reverse() =~= seq![directory@]);
    s
}

} // verus!
