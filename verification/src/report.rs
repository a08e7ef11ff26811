use vstd::prelude::*;

use owo_colors::{OwoColorize, Rgb};

use crate::candidate::Labelled;
use crate::path::{display_of, PathView};
use crate::project_context::{Detected, DetectedView, ProjectContext, ProjectContextView};
use crate::views::views_of;
use vstd::seq_lib::lemma_concat_associative;

verus! {

/// The version of this package, shown in the report header. It is written
/// here by hand and must be kept equal to the `version` under `[package]`
/// in Cargo.toml.
pub const PKG_VERSION: &'static str = "0.1.0";

/// The decimal digit `d`.
pub open spec fn digit(d: int) -> char {
    (48 + d) as char
}

/// The decimal rendering of a byte, without leading zeros.
pub open spec fn decimal(n: u8) -> Seq<char> {
    let v = n as int;
    if v < 10 {
        seq![digit(v)]
    } else if v < 100 {
        seq![digit(v / 10), digit(v % 10)]
    } else {
        seq![digit(v / 100), digit((v / 10) % 10), digit(v % 10)]
    }
}

/// `text` set in the 24-bit foreground colour `(r, g, b)` by ANSI escape
/// sequences, the default foreground restored after it.
pub open spec fn painted(text: Seq<char>, r: u8, g: u8, b: u8) -> Seq<char> {
    "\x1b[38;2;"@ + decimal(r) + seq![';'] + decimal(g) + seq![';'] + decimal(b) + seq!['m'] + text
        + "\x1b[39m"@
}

/// Renders `text` in the colour `Rgb(r, g, b)` of `owo_colors`: the
/// `Display` of `text.color(Rgb(r, g, b))`. The contract states what that
/// `Display` writes: the foreground escape `ESC[38;2;r;g;bm` with the
/// components in decimal, the text, and `ESC[39m`.
#[verifier::external_body]
fn paint(text: &str, r: u8, g: u8, b: u8) -> (s: String)
    ensures
        s@ == painted(text@, r, g, b),
{
    format!("{}", text.color(Rgb(r, g, b)))
}

/// The two report lines of one detection.
pub open spec fn item_text<E: Labelled>(d: DetectedView<E>) -> Seq<char> {
    "  "@ + painted(d.evidence.label_text(), 117, 251, 76) + "\n"@ + "  \u{2514}\u{2500} "@ + display_of(
        d.source,
    ) + "\n"@
}

/// The report lines of a sequence of detections, in order.
pub open spec fn items_text<E: Labelled>(ds: Seq<DetectedView<E>>) -> Seq<char>
    decreases ds.len(),
{
    if ds.len() == 0 {
        Seq::empty()
    } else {
        items_text(ds.drop_last()) + item_text(ds.last())
    }
}

/// A titled report section, or nothing for a section with no detections.
pub open spec fn section_text<E: Labelled>(title: Seq<char>, ds: Seq<DetectedView<E>>) -> Seq<char> {
    if ds.len() == 0 {
        Seq::empty()
    } else {
        "\n"@ + painted(title, 247, 104, 60) + "\n"@ + items_text(ds)
    }
}

/// Nothing at all was detected.
pub open spec fn context_is_empty(c: ProjectContextView) -> bool {
    c.vcs.len() == 0 && c.ecosystems.len() == 0 && c.frameworks.len() == 0 && c.build_systems.len() == 0
        && c.infrastructure.len() == 0
}

/// The report header: the tool and its version, and the project root.
pub open spec fn header_text(c: ProjectContextView) -> Seq<char> {
    "Uridim "@ + painted(PKG_VERSION@, 78, 172, 248) + "\n"@ + "Project: "@ + display_of(c.root) + "\n"@
}

/// The whole report on a project context.
pub open spec fn report_text(c: ProjectContextView) -> Seq<char> {
    if context_is_empty(c) {
        header_text(c) + "\n"@ + "No project context found.\n"@
    } else {
        header_text(c) + section_text("Version Control Systems"@, c.vcs) + section_text("Ecosystems"@, c.ecosystems)
            + section_text("Frameworks"@, c.frameworks) + section_text("Build Systems"@, c.build_systems)
            + section_text("Infrastructure"@, c.infrastructure)
    }
}

/// `t` occurs in `s` as a contiguous block.
pub open spec fn holds_block(s: Seq<char>, t: Seq<char>) -> bool {
    exists|before: Seq<char>, after: Seq<char>| s == #[trigger] (before + t + after)
}

/// The report `s` shows a detection labelled `label` whose source is
/// `source`: the label in green on one line, then the source's path under
/// it.
pub open spec fn shows_detection(s: Seq<char>, label: Seq<char>, source: PathView) -> bool {
    holds_block(
        s,
        "  "@ + painted(label, 117, 251, 76) + "\n"@ + "  \u{2514}\u{2500} "@ + display_of(source) + "\n"@,
    )
}

proof fn lemma_block_in_concat(a: Seq<char>, b: Seq<char>, t: Seq<char>)
    ensures
        holds_block(b, t) ==> holds_block(a + b, t) && holds_block(b + a, t),
        holds_block(t, t),
{
    let e = Seq::<char>::empty();
    assert(t =~= e + t + e);
    if holds_block(b, t) {
        let (x, y) = choose|x: Seq<char>, y: Seq<char>| b == #[trigger] (x + t + y);
        assert(a + b =~= (a + x) + t + y);
        assert(b + a =~= x + t + (y + a));
    }
}

proof fn lemma_items_block<E: Labelled>(ds: Seq<DetectedView<E>>, j: int)
    requires
        0 <= j < ds.len(),
    ensures
        holds_block(items_text(ds), item_text(ds[j])),
    decreases ds.len(),
{
    let init = ds.drop_last();
    lemma_block_in_concat(items_text(init), item_text(ds.last()), item_text(ds[j]));
    if j < ds.len() - 1 {
        lemma_items_block(init, j);
        assert(init[j] == ds[j]);
        lemma_block_in_concat(item_text(ds.last()), items_text(init), item_text(ds[j]));
    }
}

proof fn lemma_section_block<E: Labelled>(title: Seq<char>, ds: Seq<DetectedView<E>>, j: int)
    requires
        0 <= j < ds.len(),
    ensures
        holds_block(section_text(title, ds), item_text(ds[j])),
{
    lemma_items_block(ds, j);
    lemma_block_in_concat("\n"@ + painted(title, 247, 104, 60) + "\n"@, items_text(ds), item_text(ds[j]));
}

proof fn lemma_report_block(c: ProjectContextView, t: Seq<char>)
    requires
        !context_is_empty(c),
    ensures
        holds_block(section_text("Version Control Systems"@, c.vcs), t) ==> holds_block(report_text(c), t),
        holds_block(section_text("Ecosystems"@, c.ecosystems), t) ==> holds_block(report_text(c), t),
        holds_block(section_text("Frameworks"@, c.frameworks), t) ==> holds_block(report_text(c), t),
        holds_block(section_text("Build Systems"@, c.build_systems), t) ==> holds_block(report_text(c), t),
        holds_block(section_text("Infrastructure"@, c.infrastructure), t) ==> holds_block(report_text(c), t),
{
    let s1 = section_text("Version Control Systems"@, c.vcs);
    let s2 = section_text("Ecosystems"@, c.ecosystems);
    let s3 = section_text("Frameworks"@, c.frameworks);
    let s4 = section_text("Build Systems"@, c.build_systems);
    let s5 = section_text("Infrastructure"@, c.infrastructure);
    let h = header_text(c);
    assert(report_text(c) == h + s1 + s2 + s3 + s4 + s5);
    lemma_block_in_concat(h, s1, t);
    lemma_block_in_concat(s2, h + s1, t);
    lemma_block_in_concat(s3, h + s1 + s2, t);
    lemma_block_in_concat(s4, h + s1 + s2 + s3, t);
    lemma_block_in_concat(s5, h + s1 + s2 + s3 + s4, t);
    lemma_block_in_concat(h + s1, s2, t);
    lemma_block_in_concat(s3, h + s1 + s2, t);
    lemma_block_in_concat(h + s1 + s2, s3, t);
    lemma_block_in_concat(h + s1 + s2 + s3, s4, t);
    lemma_block_in_concat(h + s1 + s2 + s3 + s4, s5, t);
}

/// Law (every detection is reported): whatever the context, each
/// detection of each section, version control included, is shown in the
/// report with its label and its source path; so "No project context
/// found." can stand only in the report of a context with no detection.
pub proof fn law_report_shows_every_detection(c: ProjectContextView)
    ensures
        forall|j: int| 0 <= j < c.vcs.len() ==> shows_detection(
            report_text(c),
            #[trigger] c.vcs[j].evidence.label_text(),
            c.vcs[j].source,
        ),
        forall|j: int| 0 <= j < c.ecosystems.len() ==> shows_detection(
            report_text(c),
            #[trigger] c.ecosystems[j].evidence.label_text(),
            c.ecosystems[j].source,
        ),
        forall|j: int| 0 <= j < c.frameworks.len() ==> shows_detection(
            report_text(c),
            #[trigger] c.frameworks[j].evidence.label_text(),
            c.frameworks[j].source,
        ),
        forall|j: int| 0 <= j < c.build_systems.len() ==> shows_detection(
            report_text(c),
            #[trigger] c.build_systems[j].evidence.label_text(),
            c.build_systems[j].source,
        ),
        forall|j: int| 0 <= j < c.infrastructure.len() ==> shows_detection(
            report_text(c),
            #[trigger] c.infrastructure[j].evidence.label_text(),
            c.infrastructure[j].source,
        ),
{
    assert forall|j: int| 0 <= j < c.vcs.len() implies shows_detection(
        report_text(c),
        #[trigger] c.vcs[j].evidence.label_text(),
        c.vcs[j].source,
    ) by {
        lemma_section_block("Version Control Systems"@, c.vcs, j);
        lemma_report_block(c, item_text(c.vcs[j]));
    }
    assert forall|j: int| 0 <= j < c.ecosystems.len() implies shows_detection(
        report_text(c),
        #[trigger] c.ecosystems[j].evidence.label_text(),
        c.ecosystems[j].source,
    ) by {
        lemma_section_block("Ecosystems"@, c.ecosystems, j);
        lemma_report_block(c, item_text(c.ecosystems[j]));
    }
    assert forall|j: int| 0 <= j < c.frameworks.len() implies shows_detection(
        report_text(c),
        #[trigger] c.frameworks[j].evidence.label_text(),
        c.frameworks[j].source,
    ) by {
        lemma_section_block("Frameworks"@, c.frameworks, j);
        lemma_report_block(c, item_text(c.frameworks[j]));
    }
    assert forall|j: int| 0 <= j < c.build_systems.len() implies shows_detection(
        report_text(c),
        #[trigger] c.build_systems[j].evidence.label_text(),
        c.build_systems[j].source,
    ) by {
        lemma_section_block("Build Systems"@, c.build_systems, j);
        lemma_report_block(c, item_text(c.build_systems[j]));
    }
    assert forall|j: int| 0 <= j < c.infrastructure.len() implies shows_detection(
        report_text(c),
        #[trigger] c.infrastructure[j].evidence.label_text(),
        c.infrastructure[j].source,
    ) by {
        lemma_section_block("Infrastructure"@, c.infrastructure, j);
        lemma_report_block(c, item_text(c.infrastructure[j]));
    }
}

/// Appends the report header on `context` to `out`.
fn write_header(out: &mut String, context: &ProjectContext)
    ensures
        final(out)@ == old(out)@ + header_text(context@),
{
    let ghost start = out@;
    out.append("Uridim ");
    let version = paint(PKG_VERSION, 78, 172, 248);
    out.append(version.as_str());
    out.append("\n");
    out.append("Project: ");
    let root = context.root.display();
    out.append(root.as_str());
    out.append("\n");
    assert(out@ =~= start + header_text(context@));
}

/// Appends the report on `context` to `out`.
pub fn write_project_context(out: &mut String, context: &ProjectContext)
    ensures
        final(out)@ == old(out)@ + report_text(context@),
{
    let ghost c = context@;
    let ghost start = out@;
    write_header(out, context);
    if context.vcs.len() == 0 && context.ecosystems.len() == 0 && context.frameworks.len() == 0
        && context.build_systems.len() == 0 && context.infrastructure.len() == 0 {
        out.append("\n");
        out.append("No project context found.\n");
        proof {
            lemma_concat_associative(start, header_text(c), "\n"@);
            lemma_concat_associative(start, header_text(c) + "\n"@, "No project context found.\n"@);
        }
        return;
    }
    let ghost x0 = header_text(c);
    let ghost x1 = x0 + section_text("Version Control Systems"@, c.vcs);
    let ghost x2 = x1 + section_text("Ecosystems"@, c.ecosystems);
    let ghost x3 = x2 + section_text("Frameworks"@, c.frameworks);
    let ghost x4 = x3 + section_text("Build Systems"@, c.build_systems);
    let ghost x5 = x4 + section_text("Infrastructure"@, c.infrastructure);
    write_section(out, "Version Control Systems", &context.vcs);
    proof {
        lemma_concat_associative(start, x0, section_text("Version Control Systems"@, c.vcs));
    }
    write_section(out, "Ecosystems", &context.ecosystems);
    proof {
        lemma_concat_associative(start, x1, section_text("Ecosystems"@, c.ecosystems));
    }
    write_section(out, "Frameworks", &context.frameworks);
    proof {
        lemma_concat_associative(start, x2, section_text("Frameworks"@, c.frameworks));
    }
    write_section(out, "Build Systems", &context.build_systems);
    proof {
        lemma_concat_associative(start, x3, section_text("Build Systems"@, c.build_systems));
    }
    write_section(out, "Infrastructure", &context.infrastructure);
    proof {
        lemma_concat_associative(start, x4, section_text("Infrastructure"@, c.infrastructure));
    }
}

/// Appends the section titled `title` on `detected` to `out`; a section
/// with no detections adds nothing.
pub fn write_section<E: Labelled>(out: &mut String, title: &str, detected: &Vec<Detected<E>>)
    ensures
        final(out)@ == old(out)@ + section_text(title@, views_of(detected@)),
{
    if detected.len() == 0 {
        assert(out@ =~= old(out)@ + section_text(title@, views_of(detected@)));
        return;
    }
    let ghost start = out@;
    let ghost ds = views_of(detected@);
    out.append("\n");
    let heading = paint(title, 247, 104, 60);
    out.append(heading.as_str());
    out.append("\n");
    let ghost head = out@;
    assert(ds.take(0) =~= Seq::<DetectedView<E>>::empty());
    assert(out@ =~= head + items_text(ds.take(0)));
    let mut i: usize = 0;
    while i < detected.len()
        invariant
            i <= detected.len(),
            ds == views_of(detected@),
            head == start + "\n"@ + painted(title@, 247, 104, 60) + "\n"@,
            out@ == head + items_text(ds.take(i as int)),
        decreases detected.len() - i,
    {
        let item = &detected[i];
        proof {
            assert(ds.take(i + 1).drop_last() =~= ds.take(i as int));
            assert(ds[i as int] == item@);
        }
        out.append("  ");
        let label = paint(item.evidence.label(), 117, 251, 76);
        out.append(label.as_str());
        out.append("\n");
        out.append("  \u{2514}\u{2500} ");
        let source = item.source_path.display();
        out.append(source.as_str());
        out.append("\n");
        assert(out@ =~= head + items_text(ds.take(i + 1)));
        i = i + 1;
    }
    assert(ds.take(detected.len() as int) =~= ds);
    assert(out@ =~= start + section_text(title@, ds));
}

} // verus!
