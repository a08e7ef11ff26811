use vstd::prelude::*;

use crate::views::{lemma_views_push, views_of};

verus! {

/// A filesystem location as the discovery logic sees it: the text of its
/// root (`"/"` for an absolute path, `""` for a relative one) followed by
/// the names of its components, outermost first.
#[derive(Debug, PartialEq, Eq)]
pub struct ProjectPath {
    pub root: String,
    pub components: Vec<String>,
}

/// The mathematical content of a [`ProjectPath`].
pub struct PathView {
    pub root: Seq<char>,
    pub parts: Seq<Seq<char>>,
}

impl View for ProjectPath {
    type V = PathView;

    open spec fn view(&self) -> PathView {
        PathView { root: self.root@, parts: views_of(self.components@) }
    }
}

/// The parts joined by single `/` separators.
pub open spec fn join_parts(parts: Seq<Seq<char>>) -> Seq<char>
    decreases parts.len(),
{
    if parts.len() == 0 {
        Seq::empty()
    } else if parts.len() == 1 {
        parts[0]
    } else {
        join_parts(parts.drop_last()) + seq!['/'] + parts.last()
    }
}

/// How a path is shown to a person: its root followed by its components.
pub open spec fn display_of(p: PathView) -> Seq<char> {
    p.root + join_parts(p.parts)
}

/// `.` and `..` name no entry of their own.
pub open spec fn is_dot_name(s: Seq<char>) -> bool {
    s == seq!['.'] || s == seq!['.', '.']
}

/// The name a discovered scope is reported under: its last component, or,
/// where the path ends in no nameable component, the whole path as shown.
pub open spec fn name_of(p: PathView) -> Seq<char> {
    if p.parts.len() > 0 && !is_dot_name(p.parts.last()) {
        p.parts.last()
    } else {
        display_of(p)
    }
}

/// The path `p` extended by the relative components `rel`.
pub open spec fn join_view(p: PathView, rel: Seq<Seq<char>>) -> PathView {
    PathView { root: p.root, parts: p.parts + rel }
}

/// The ancestor of `p` that keeps its first `k` components.
pub open spec fn ancestor_view(p: PathView, k: int) -> PathView {
    PathView { root: p.root, parts: p.parts.take(k) }
}

/// Splitting `/`-separated text: the segments finished so far, and the
/// segment still being read.
pub open spec fn split_state(s: Seq<char>) -> (Seq<Seq<char>>, Seq<char>)
    decreases s.len(),
{
    if s.len() == 0 {
        (Seq::empty(), Seq::empty())
    } else {
        let (done, cur) = split_state(s.drop_last());
        if s.last() == '/' {
            if cur.len() > 0 {
                (done.push(cur), Seq::empty())
            } else {
                (done, Seq::empty())
            }
        } else {
            (done, cur.push(s.last()))
        }
    }
}

/// The non-empty `/`-separated segments of a relative path, in order.
pub open spec fn segments_of(s: Seq<char>) -> Seq<Seq<char>> {
    let (done, cur) = split_state(s);
    if cur.len() > 0 {
        done.push(cur)
    } else {
        done
    }
}

/// Text with no `/` is a single segment of itself, or none if empty.
pub proof fn lemma_segments_plain(s: Seq<char>)
    requires
        forall|i: int| 0 <= i < s.len() ==> s[i] != '/',
    ensures
        split_state(s) == (Seq::<Seq<char>>::empty(), s),
        s.len() > 0 ==> segments_of(s) == seq![s],
    decreases s.len(),
{
    if s.len() > 0 {
        lemma_segments_plain(s.drop_last());
        assert(s.drop_last().push(s.last()) =~= s);
    }
}

/// Text without `/` appended to `a` only extends the segment being read.
proof fn lemma_split_plain_suffix(a: Seq<char>, b: Seq<char>)
    requires
        forall|i: int| 0 <= i < b.len() ==> b[i] != '/',
    ensures
        split_state(a + b) == (split_state(a).0, split_state(a).1 + b),
    decreases b.len(),
{
    if b.len() == 0 {
        assert(a + b =~= a);
        assert(split_state(a).1 + b =~= split_state(a).1);
    } else {
        lemma_split_plain_suffix(a, b.drop_last());
        assert((a + b).drop_last() =~= a + b.drop_last());
        assert((split_state(a).1 + b.drop_last()).push(b.last()) =~= split_state(a).1 + b);
    }
}

/// The components of a path as its display shows them: non-empty and
/// without `/`.
pub open spec fn plain_parts(parts: Seq<Seq<char>>) -> bool {
    &&& forall|i: int| 0 <= i < parts.len() ==> #[trigger] parts[i].len() > 0
    &&& forall|i: int, j: int| 0 <= i < parts.len() && 0 <= j < parts[i].len() ==> #[trigger] parts[i][j] != '/'
}

/// Reading the text of a root leaves no segment.
proof fn lemma_split_root(lead: Seq<char>)
    requires
        lead == Seq::<char>::empty() || lead == seq!['/'],
    ensures
        split_state(lead) == (Seq::<Seq<char>>::empty(), Seq::<char>::empty()),
{
    let e = Seq::<char>::empty();
    assert(split_state(e) == (Seq::<Seq<char>>::empty(), e));
    if lead.len() > 0 {
        assert(lead.drop_last() =~= e);
        assert(lead.last() == '/');
        assert(split_state(lead) == (Seq::<Seq<char>>::empty(), e));
    } else {
        assert(lead =~= e);
    }
}

/// A path whose text form reads back as itself: rooted at `/` or relative,
/// with plain components.
pub open spec fn well_formed_path(p: PathView) -> bool {
    &&& p.root == Seq::<char>::empty() || p.root == seq!['/']
    &&& plain_parts(p.parts)
    &&& forall|i: int| 0 <= i < p.parts.len() ==> #[trigger] p.parts[i] != seq!['.']
}

proof fn lemma_split_join(lead: Seq<char>, parts: Seq<Seq<char>>)
    requires
        lead == Seq::<char>::empty() || lead == seq!['/'],
        plain_parts(parts),
        parts.len() > 0,
    ensures
        split_state(lead + join_parts(parts)) == (parts.drop_last(), parts.last()),
    decreases parts.len(),
{
    lemma_split_root(lead);
    if parts.len() == 1 {
        assert forall|i: int| 0 <= i < parts[0].len() implies parts[0][i] != '/' by {
            assert(parts[0][i] != '/');
        }
        lemma_split_plain_suffix(lead, parts[0]);
        assert(parts.drop_last() =~= Seq::<Seq<char>>::empty());
        assert(Seq::<char>::empty() + parts[0] =~= parts[0]);
    } else {
        let init = parts.drop_last();
        let last = parts.last();
        assert(plain_parts(init)) by {
            assert forall|i: int| 0 <= i < init.len() implies #[trigger] init[i].len() > 0 by {
                assert(init[i] == parts[i]);
            }
            assert forall|i: int, j: int| 0 <= i < init.len() && 0 <= j < init[i].len() implies #[trigger] init[i][j]
                != '/' by {
                assert(init[i] == parts[i]);
                assert(parts[i][j] != '/');
            }
        }
        lemma_split_join(lead, init);
        let a = lead + join_parts(init);
        assert(lead + join_parts(parts) =~= a.push('/') + last);
        assert forall|i: int| 0 <= i < last.len() implies last[i] != '/' by {
            assert(parts[parts.len() - 1][i] != '/');
        }
        lemma_split_plain_suffix(a.push('/'), last);
        assert(a.push('/').drop_last() =~= a);
        assert(init.last().len() > 0) by {
            assert(parts[parts.len() - 2].len() > 0);
        }
        assert(init.drop_last().push(init.last()) =~= init);
        assert(Seq::<char>::empty() + last =~= last);
    }
}

/// The first character of joined plain parts is that of the first part.
proof fn lemma_join_parts_first(parts: Seq<Seq<char>>)
    requires
        plain_parts(parts),
        parts.len() > 0,
    ensures
        join_parts(parts).len() > 0,
        join_parts(parts)[0] == parts[0][0],
    decreases parts.len(),
{
    assert(parts[0].len() > 0);
    if parts.len() > 1 {
        let init = parts.drop_last();
        assert(plain_parts(init)) by {
            assert forall|i: int| 0 <= i < init.len() implies #[trigger] init[i].len() > 0 by {
                assert(init[i] == parts[i]);
            }
            assert forall|i: int, j: int| 0 <= i < init.len() && 0 <= j < init[i].len() implies #[trigger] init[i][j]
                != '/' by {
                assert(init[i] == parts[i]);
                assert(parts[i][j] != '/');
            }
        }
        lemma_join_parts_first(init);
    }
}

/// Law: a well-formed path, shown as text and read back, is the same path;
/// the filesystem side hands paths over as text and gets them back.
pub proof fn law_display_then_parse_is_identity(p: PathView)
    requires
        well_formed_path(p),
    ensures
        parse_view(display_of(p)) == p,
{
    let s = display_of(p);
    if p.parts.len() == 0 {
        assert(s =~= p.root);
        lemma_split_root(p.root);
        assert(segments_of(s) =~= p.parts);
    } else {
        lemma_split_join(p.root, p.parts);
        assert(p.parts.drop_last().push(p.parts.last()) =~= p.parts);
        assert(p.parts.last().len() > 0) by {
            assert(p.parts[p.parts.len() - 1].len() > 0);
        }
        if p.root.len() == 0 {
            lemma_join_parts_first(p.parts);
            assert(s =~= join_parts(p.parts));
            assert(p.parts[0][0] != '/');
        }
    }
    assert(parse_view(s).root =~= p.root);
    assert(segments_of(s) == p.parts);
    lemma_without_inner_dots_plain(p.parts, s.len() > 0 && s[0] == '/');
}

proof fn lemma_join_parts_push(parts: Seq<Seq<char>>, i: int)
    requires
        0 <= i < parts.len(),
    ensures
        join_parts(parts.take(i + 1)) == if i == 0 {
            parts[0]
        } else {
            join_parts(parts.take(i)) + seq!['/'] + parts[i]
        },
{
    assert(parts.take(i + 1).drop_last() =~= parts.take(i));
    if i == 0 {
        assert(parts.take(1).len() == 1);
    }
}

/// Copies a string.
fn copy_string(s: &String) -> (r: String)
    ensures
        r@ == s@,
{
    s.clone()
}

/// The `/`-separated segments of `rel`, empty segments left out.
pub fn segments(rel: &str) -> (parts: Vec<String>)
    ensures
        views_of(parts@) == segments_of(rel@),
{
    let n = rel.unicode_len();
    let mut parts: Vec<String> = Vec::new();
    let mut start: usize = 0;
    let mut i: usize = 0;
    while i < n
        invariant
            n == rel@.len(),
            start <= i <= n,
            views_of(parts@) == split_state(rel@.take(i as int)).0,
            rel@.subrange(start as int, i as int) == split_state(rel@.take(i as int)).1,
        decreases n - i,
    {
        let c = rel.get_char(i);
        let ghost prefix = rel@.take(i as int);
        assert(rel@.take(i + 1).drop_last() =~= prefix);
        if c == '/' {
            if start < i {
                let seg = String::from_str(rel.substring_char(start, i));
                parts.push(seg);
                assert(views_of(parts@) =~= split_state(rel@.take(i + 1)).0);
            }
            start = i + 1;
            assert(rel@.subrange(start as int, i + 1) =~= Seq::<char>::empty());
        } else {
            assert(rel@.subrange(start as int, i + 1) =~= rel@.subrange(start as int, i as int).push(c));
        }
        i = i + 1;
    }
    assert(rel@.take(n as int) =~= rel@);
    if start < n {
        let seg = String::from_str(rel.substring_char(start, n));
        parts.push(seg);
        assert(views_of(parts@) =~= segments_of(rel@));
    } else {
        assert(views_of(parts@) =~= segments_of(rel@));
    }
    parts
}

/// The components kept of `parts`, as a path's components are read: a `.`
/// names the directory before it and is dropped, unless it is the very
/// first component of a relative path.
pub open spec fn without_inner_dots(parts: Seq<Seq<char>>, rooted: bool) -> Seq<Seq<char>>
    decreases parts.len(),
{
    if parts.len() == 0 {
        Seq::empty()
    } else {
        let rest = without_inner_dots(parts.drop_last(), rooted);
        if parts.last() == seq!['.'] && (rooted || parts.len() > 1) {
            rest
        } else {
            rest.push(parts.last())
        }
    }
}

/// Parts with no `.` among them are kept whole.
proof fn lemma_without_inner_dots_plain(parts: Seq<Seq<char>>, rooted: bool)
    requires
        forall|i: int| 0 <= i < parts.len() ==> #[trigger] parts[i] != seq!['.'],
    ensures
        without_inner_dots(parts, rooted) == parts,
    decreases parts.len(),
{
    if parts.len() > 0 {
        lemma_without_inner_dots_plain(parts.drop_last(), rooted);
        assert(parts.drop_last().push(parts.last()) =~= parts);
    }
}

/// Whether `s` is `.`.
fn single_dot(s: &str) -> (b: bool)
    ensures
        b == (s@ == seq!['.']),
{
    if s.unicode_len() == 1 {
        let b = s.get_char(0) == '.';
        assert(b ==> s@ =~= seq!['.']);
        b
    } else {
        false
    }
}

/// The components of `parts` that a path keeps (see [`without_inner_dots`]).
fn drop_inner_dots(parts: Vec<String>, rooted: bool) -> (r: Vec<String>)
    ensures
        views_of(r@) == without_inner_dots(views_of(parts@), rooted),
{
    let mut r: Vec<String> = Vec::new();
    let mut i: usize = 0;
    assert(views_of(parts@).take(0) =~= Seq::<Seq<char>>::empty());
    while i < parts.len()
        invariant
            i <= parts.len(),
            views_of(r@) == without_inner_dots(views_of(parts@).take(i as int), rooted),
        decreases parts.len() - i,
    {
        proof {
            assert(views_of(parts@).take(i + 1).drop_last() =~= views_of(parts@).take(i as int));
        }
        let dot = single_dot(parts[i].as_str());
        if !(dot && (rooted || i > 0)) {
            let c = copy_string(&parts[i]);
            let ghost before = r@;
            r.push(c);
            proof {
                lemma_views_push(before, c);
            }
        }
        i = i + 1;
    }
    assert(views_of(parts@).take(parts.len() as int) =~= views_of(parts@));
    r
}

/// The path that the text `s` names: rooted when it begins with `/`, its
/// components the non-empty `/`-separated segments, `.` dropped but as the
/// first component of a relative path.
pub open spec fn parse_view(s: Seq<char>) -> PathView {
    PathView {
        root: if s.len() > 0 && s[0] == '/' {
            seq!['/']
        } else {
            Seq::empty()
        },
        parts: without_inner_dots(segments_of(s), s.len() > 0 && s[0] == '/'),
    }
}

impl ProjectPath {
    /// The path that `text` names.
    pub fn parse(text: &str) -> (p: ProjectPath)
        ensures
            p@ == parse_view(text@),
    {
        let rooted = text.unicode_len() > 0 && text.get_char(0) == '/';
        proof {
            reveal_strlit("/");
        }
        let root = if rooted {
            String::from_str("/")
        } else {
            String::new()
        };
        assert(root@ =~= parse_view(text@).root);
        ProjectPath { root, components: drop_inner_dots(segments(text), rooted) }
    }

    /// A copy of this path.
    pub fn duplicate(&self) -> (r: ProjectPath)
        ensures
            r@ == self@,
    {
        let mut parts: Vec<String> = Vec::new();
        let mut i: usize = 0;
        while i < self.components.len()
            invariant
                i <= self.components.len(),
                views_of(parts@) =~= self@.parts.take(i as int),
            decreases self.components.len() - i,
        {
            let c = copy_string(&self.components[i]);
            assert(c@ == self@.parts[i as int]);
            let ghost before = parts@;
            parts.push(c);
            assert(parts@ == before.push(c));
            proof {
                lemma_views_push(before, c);
                assert(self@.parts.take(i as int).push(self@.parts[i as int]) =~= self@.parts.take(i + 1));
            }
            i = i + 1;
        }
        assert(self@.parts.take(i as int) =~= self@.parts);
        ProjectPath { root: copy_string(&self.root), components: parts }
    }

    /// This path extended by the segments of the relative path `rel`.
    pub fn join(&self, rel: &str) -> (r: ProjectPath)
        ensures
            r@ == join_view(self@, segments_of(rel@)),
    {
        let mut r = self.duplicate();
        let mut extra = segments(rel);
        r.components.append(&mut extra);
        assert(r@.parts =~= self@.parts + segments_of(rel@));
        r
    }

    /// This path extended by one component named `name`.
    pub fn child(&self, name: &String) -> (r: ProjectPath)
        ensures
            r@ == join_view(self@, seq![name@]),
    {
        let mut r = self.duplicate();
        r.components.push(copy_string(name));
        assert(r@.parts =~= self@.parts + seq![name@]);
        r
    }

    /// The ancestor of this path that keeps its first `k` components.
    pub fn ancestor(&self, k: usize) -> (r: ProjectPath)
        requires
            k <= self@.parts.len(),
        ensures
            r@ == ancestor_view(self@, k as int),
    {
        let mut parts: Vec<String> = Vec::new();
        let mut i: usize = 0;
        while i < k
            invariant
                k <= self.components.len(),
                i <= k,
                views_of(parts@) =~= self@.parts.take(i as int),
            decreases k - i,
        {
            let c = copy_string(&self.components[i]);
            assert(c@ == self@.parts[i as int]);
            let ghost before = parts@;
            parts.push(c);
            assert(parts@ == before.push(c));
            proof {
                lemma_views_push(before, c);
                assert(self@.parts.take(i as int).push(self@.parts[i as int]) =~= self@.parts.take(i + 1));
            }
            i = i + 1;
        }
        ProjectPath { root: copy_string(&self.root), components: parts }
    }

    /// The path as shown to a person.
    pub fn display(&self) -> (s: String)
        ensures
            s@ == display_of(self@),
    {
        let mut s = copy_string(&self.root);
        let mut i: usize = 0;
        while i < self.components.len()
            invariant
                i <= self.components.len(),
                s@ == self@.root + join_parts(self@.parts.take(i as int)),
            decreases self.components.len() - i,
        {
            proof {
                lemma_join_parts_push(self@.parts, i as int);
            }
            if i > 0 {
                s.append("/");
                proof {
                    reveal_strlit("/");
                }
            }
            s.append(self.components[i].as_str());
            proof {
                assert(s@ =~= self@.root + join_parts(self@.parts.take(i + 1)));
            }
            i = i + 1;
        }
        assert(self@.parts.take(i as int) =~= self@.parts);
        s
    }

    /// The name this path is reported under.
    pub fn name(&self) -> (s: String)
        ensures
            s@ == name_of(self@),
    {
        let n = self.components.len();
        if n > 0 && !dot_name(self.components[n - 1].as_str()) {
            copy_string(&self.components[n - 1])
        } else {
            self.display()
        }
    }
}

/// Whether `s` is `.` or `..`.
pub fn dot_name(s: &str) -> (b: bool)
    ensures
        b == is_dot_name(s@),
{
    let n = s.unicode_len();
    if n == 1 {
        let b = s.get_char(0) == '.';
        assert(b ==> s@ =~= seq!['.']);
        b
    } else if n == 2 {
        let b = s.get_char(0) == '.' && s.get_char(1) == '.';
        assert(b ==> s@ =~= seq!['.', '.']);
        b
    } else {
        false
    }
}

} // verus!
