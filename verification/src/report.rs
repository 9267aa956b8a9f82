//! The terminal report of a search: which lines are printed, with which
//! text and which style; the caller only applies the styles and prints.
use vstd::prelude::*;
use crate::grep::{GrepRefKind, QueryView};
use crate::order::{insert_sorted_text, lemma_sorted_text_set, sorted_text_set, strictly_sorted, texts};
use crate::search::{match_views, GrepMatch, GrepMatchView};
use crate::text::push_char;

verus! {

/// How a piece of text is shown.
#[derive(Clone, Copy, Debug, PartialEq, Eq, Structural)]
pub enum Style {
    Plain,
    Bold,
    Dimmed,
    GreenBold,
}

/// A piece of a line, with its style.
#[derive(Debug)]
pub struct Segment {
    pub text: String,
    pub style: Style,
}

/// A line as plain values: its pieces and their styles.
pub type LineView = Seq<(Seq<char>, Style)>;

/// The view of a line.
pub open spec fn line_view(l: Seq<Segment>) -> LineView {
    l.map_values(|s: Segment| (s.text@, s.style))
}

/// The views of several lines.
pub open spec fn lines_view(ls: Seq<Vec<Segment>>) -> Seq<LineView> {
    ls.map_values(|l: Vec<Segment>| line_view(l@))
}

// ---------------------------------------------------------------------
// Specification
// ---------------------------------------------------------------------

/// The decimal digit for `d < 10`.
pub open spec fn digit_char(d: nat) -> char {
    if d == 0 {
        '0'
    } else if d == 1 {
        '1'
    } else if d == 2 {
        '2'
    } else if d == 3 {
        '3'
    } else if d == 4 {
        '4'
    } else if d == 5 {
        '5'
    } else if d == 6 {
        '6'
    } else if d == 7 {
        '7'
    } else if d == 8 {
        '8'
    } else {
        '9'
    }
}

/// The decimal notation of `n`, without leading zeros.
pub open spec fn decimal(n: nat) -> Seq<char>
    decreases n,
{
    if n < 10 {
        seq![digit_char(n)]
    } else {
        decimal(n / 10).push(digit_char(n % 10))
    }
}

/// The parts, with `sep` between each two.
pub open spec fn join(parts: Seq<Seq<char>>, sep: Seq<char>) -> Seq<char>
    decreases parts.len(),
{
    if parts.len() == 0 {
        Seq::empty()
    } else if parts.len() == 1 {
        parts[0]
    } else {
        join(parts.drop_last(), sep) + sep + parts.last()
    }
}

/// The first line: how many matches there are.
pub open spec fn heading(n: nat) -> LineView {
    if n == 0 {
        seq![("grep:"@, Style::GreenBold), (" "@, Style::Plain), ("no matches"@, Style::Dimmed)]
    } else {
        seq![("grep:"@, Style::GreenBold), (" "@, Style::Plain), (decimal(n) + " matches"@, Style::Bold)]
    }
}

/// A summary line: an indented dimmed label and a bold value.
pub open spec fn labelled(label: Seq<char>, value: Seq<char>) -> LineView {
    seq![("  "@, Style::Plain), (label, Style::Dimmed), (" "@, Style::Plain), (value, Style::Bold)]
}

/// How a reference-kind restriction is described.
pub open spec fn relation_text(kind: Option<GrepRefKind>) -> Seq<char> {
    match kind {
        Some(k) => k.name(),
        None => "any ref"@,
    }
}

/// The summary lines: the pattern, the type filters, the path filter and the
/// dependency filter, each only when given.
pub open spec fn filter_lines(q: QueryView) -> Seq<LineView> {
    let pattern = match q.pattern {
        Some(p) => seq![labelled("pattern"@, p)],
        None => Seq::empty(),
    };
    let types = if q.entity_types.len() > 0 {
        seq![labelled("types"@, join(q.entity_types, ", "@))]
    } else {
        Seq::empty()
    };
    let path = match q.path_substring {
        Some(p) => seq![labelled("path"@, p)],
        None => Seq::empty(),
    };
    let depends = if q.depends_on.len() > 0 {
        seq![
            labelled("depends on"@, join(q.depends_on, ", "@)) + seq![
                (" ("@, Style::Plain),
                (relation_text(q.ref_kind), Style::Dimmed),
                (")"@, Style::Plain),
            ],
        ]
    } else {
        Seq::empty()
    };
    pattern + types + path + depends
}

/// The details of a match: its lines, its counts, whether it is a test and
/// the dependencies it was found through.
pub open spec fn entry_details(m: GrepMatchView) -> Seq<char> {
    "L"@ + decimal(m.start_line) + "-"@ + decimal(m.end_line) + ", deps: "@ + decimal(m.dependency_count)
        + ", dependents: "@ + decimal(m.dependent_count) + (if m.is_test {
        ", test"@
    } else {
        Seq::empty()
    }) + (if m.matched_dependencies.len() > 0 {
        ", via: "@ + join(m.matched_dependencies, ", "@)
    } else {
        Seq::empty()
    })
}

/// The line of one match.
pub open spec fn entry_line(m: GrepMatchView) -> LineView {
    seq![
        ("    "@, Style::Plain),
        (m.entity_type, Style::Dimmed),
        (" "@, Style::Plain),
        (m.name, Style::Bold),
        (" ("@, Style::Plain),
        (entry_details(m), Style::Dimmed),
        (")"@, Style::Plain),
    ]
}

/// The line that opens the matches of one file.
pub open spec fn file_line(file: Seq<char>) -> LineView {
    seq![("  "@, Style::Plain), (file, Style::Bold)]
}

/// The lines of the matches among the first `n` that lie in `file`, in order.
pub open spec fn entries_in_file(ms: Seq<GrepMatchView>, file: Seq<char>, n: int) -> Seq<LineView>
    decreases n,
{
    if n <= 0 {
        Seq::empty()
    } else if ms[n - 1].file_path == file {
        entries_in_file(ms, file, n - 1).push(entry_line(ms[n - 1]))
    } else {
        entries_in_file(ms, file, n - 1)
    }
}

/// For each file in turn: its line, then the lines of its matches.
pub open spec fn file_blocks(ms: Seq<GrepMatchView>, files: Seq<Seq<char>>) -> Seq<LineView>
    decreases files.len(),
{
    if files.len() == 0 {
        Seq::empty()
    } else {
        file_blocks(ms, files.drop_last()) + seq![file_line(files.last())] + entries_in_file(
            ms,
            files.last(),
            ms.len() as int,
        )
    }
}

/// The file paths of the matches.
pub open spec fn file_set(ms: Seq<GrepMatchView>) -> Set<Seq<char>> {
    Set::new(|f: Seq<char>| exists|i: int| 0 <= i < ms.len() && #[trigger] ms[i].file_path == f)
}

/// The whole report: the heading; then, when there are matches, the summary
/// lines, an empty line, and the matches grouped by file, the files in
/// increasing order and the matches of a file in their given order.
pub open spec fn terminal_lines(ms: Seq<GrepMatchView>, q: QueryView) -> Seq<LineView> {
    if ms.len() == 0 {
        seq![heading(0)]
    } else {
        seq![heading(ms.len())] + filter_lines(q) + seq![Seq::empty()] + file_blocks(
            ms,
            sorted_text_set(file_set(ms)),
        )
    }
}

// ---------------------------------------------------------------------
// Executable rendering
// ---------------------------------------------------------------------

/// A segment with the given text and style.
fn segment(text: &str, style: Style) -> (s: Segment)
    ensures
        s.text@ == text@,
        s.style == style,
{
    Segment { text: text.to_owned(), style }
}

/// The decimal digit for `d < 10`.
fn digit(d: usize) -> (c: char)
    requires
        d < 10,
    ensures
        c == digit_char(d as nat),
{
    if d == 0 {
        '0'
    } else if d == 1 {
        '1'
    } else if d == 2 {
        '2'
    } else if d == 3 {
        '3'
    } else if d == 4 {
        '4'
    } else if d == 5 {
        '5'
    } else if d == 6 {
        '6'
    } else if d == 7 {
        '7'
    } else if d == 8 {
        '8'
    } else {
        '9'
    }
}

/// Appends the decimal notation of `n` to `out`.
fn push_decimal(out: &mut String, n: usize)
    ensures
        final(out)@ == old(out)@ + decimal(n as nat),
    decreases n,
{
    if n >= 10 {
        push_decimal(out, n / 10);
    }
    push_char(out, digit(n % 10));
    assert(decimal(n as nat) == if n < 10 {
        seq![digit_char(n as nat)]
    } else {
        decimal((n / 10) as nat).push(digit_char((n % 10) as nat))
    });
}

/// The decimal notation of `n`, as `usize`'s `Display` writes it.
pub fn decimal_text(n: usize) -> (s: String)
    ensures
        s@ == decimal(n as nat),
{
    let mut s = String::new();
    push_decimal(&mut s, n);
    s
}

/// The strings of `parts` with `sep` between each two, as `join` on a slice of
/// strings writes them.
pub fn join_texts(parts: &Vec<String>, sep: &str) -> (s: String)
    ensures
        s@ == join(texts(parts@), sep@),
{
    let mut s = String::new();
    let n = parts.len();
    for i in 0..n
        invariant
            n == parts.len(),
            s@ == join(texts(parts@).take(i as int), sep@),
    {
        let ghost done = texts(parts@).take(i as int);
        let ghost next = texts(parts@).take(i + 1);
        assert(next.drop_last() =~= done);
        assert(next.last() == parts@[i as int]@);
        if i > 0 {
            s.append(sep);
        } else {
            assert(next =~= seq![parts@[0]@]);
        }
        s.append(parts[i].as_str());
    }
    assert(texts(parts@).take(n as int) =~= texts(parts@));
    s
}

/// The heading line for `n` matches.
fn heading_line(n: usize) -> (l: Vec<Segment>)
    ensures
        line_view(l@) == heading(n as nat),
{
    let mut l: Vec<Segment> = Vec::new();
    l.push(segment("grep:", Style::GreenBold));
    l.push(segment(" ", Style::Plain));
    if n == 0 {
        l.push(segment("no matches", Style::Dimmed));
    } else {
        let mut count = decimal_text(n);
        count.append(" matches");
        l.push(Segment { text: count, style: Style::Bold });
    }
    assert(line_view(l@) =~= heading(n as nat));
    l
}

/// A summary line with the given label and value.
fn labelled_line(label: &str, value: String) -> (l: Vec<Segment>)
    ensures
        line_view(l@) == labelled(label@, value@),
{
    let mut l: Vec<Segment> = Vec::new();
    l.push(segment("  ", Style::Plain));
    l.push(segment(label, Style::Dimmed));
    l.push(segment(" ", Style::Plain));
    l.push(Segment { text: value, style: Style::Bold });
    assert(line_view(l@) =~= labelled(label@, value@));
    l
}

/// The summary lines of a query.
fn push_filter_lines(
    lines: &mut Vec<Vec<Segment>>,
    pattern: &Option<String>,
    entity_types: &Vec<String>,
    path_substring: &Option<String>,
    depends_on: &Vec<String>,
    ref_kind: Option<GrepRefKind>,
    q: Ghost<QueryView>,
)
    requires
        q@.pattern == crate::order::opt_text(*pattern),
        q@.entity_types == texts(entity_types@),
        q@.path_substring == crate::order::opt_text(*path_substring),
        q@.depends_on == texts(depends_on@),
        q@.ref_kind == ref_kind,
    ensures
        lines_view(final(lines)@) == lines_view(old(lines)@) + filter_lines(q@),
{
    let ghost start = lines_view(lines@);
    let ghost pattern_part: Seq<LineView> = match q@.pattern {
        Some(p) => seq![labelled("pattern"@, p)],
        None => Seq::empty(),
    };
    let ghost types_part: Seq<LineView> = if q@.entity_types.len() > 0 {
        seq![labelled("types"@, join(q@.entity_types, ", "@))]
    } else {
        Seq::empty()
    };
    let ghost path_part: Seq<LineView> = match q@.path_substring {
        Some(p) => seq![labelled("path"@, p)],
        None => Seq::empty(),
    };
    match pattern {
        Some(p) => {
            lines.push(labelled_line("pattern", p.clone()));
        },
        None => {},
    }
    assert(lines_view(lines@) =~= start + pattern_part);
    if entity_types.len() > 0 {
        lines.push(labelled_line("types", join_texts(entity_types, ", ")));
    }
    assert(lines_view(lines@) =~= start + pattern_part + types_part);
    match path_substring {
        Some(p) => {
            lines.push(labelled_line("path", p.clone()));
        },
        None => {},
    }
    assert(lines_view(lines@) =~= start + pattern_part + types_part + path_part);
    if depends_on.len() > 0 {
        let mut l = labelled_line("depends on", join_texts(depends_on, ", "));
        let ghost head = line_view(l@);
        l.push(segment(" (", Style::Plain));
        let relation = match ref_kind {
            Some(k) => k.as_str(),
            None => "any ref",
        };
        l.push(segment(relation, Style::Dimmed));
        l.push(segment(")", Style::Plain));
        assert(line_view(l@) =~= head + seq![
            (" ("@, Style::Plain),
            (relation_text(q@.ref_kind), Style::Dimmed),
            (")"@, Style::Plain),
        ]);
        lines.push(l);
    }
    assert(lines_view(lines@) =~= start + filter_lines(q@));
}

/// The line of one match.
fn entry_line_of(m: &GrepMatch) -> (l: Vec<Segment>)
    ensures
        line_view(l@) == entry_line(m@),
{
    let mut details = String::new();
    details.append("L");
    push_decimal(&mut details, m.start_line);
    details.append("-");
    push_decimal(&mut details, m.end_line);
    details.append(", deps: ");
    push_decimal(&mut details, m.dependency_count);
    details.append(", dependents: ");
    push_decimal(&mut details, m.dependent_count);
    let ghost base = details@;
    if m.is_test {
        details.append(", test");
    }
    let ghost with_test = details@;
    if m.matched_dependencies.len() > 0 {
        details.append(", via: ");
        let via = join_texts(&m.matched_dependencies, ", ");
        details.append(via.as_str());
    }
    assert(details@ =~= entry_details(m@));
    let mut l: Vec<Segment> = Vec::new();
    l.push(segment("    ", Style::Plain));
    l.push(Segment { text: m.entity_type.clone(), style: Style::Dimmed });
    l.push(segment(" ", Style::Plain));
    l.push(Segment { text: m.name.clone(), style: Style::Bold });
    l.push(segment(" (", Style::Plain));
    l.push(Segment { text: details, style: Style::Dimmed });
    l.push(segment(")", Style::Plain));
    assert(line_view(l@) =~= entry_line(m@));
    l
}

/// The line that opens the matches of a file.
fn file_line_of(file: &String) -> (l: Vec<Segment>)
    ensures
        line_view(l@) == file_line(file@),
{
    let mut l: Vec<Segment> = Vec::new();
    l.push(segment("  ", Style::Plain));
    l.push(Segment { text: file.clone(), style: Style::Bold });
    assert(line_view(l@) =~= file_line(file@));
    l
}

/// The file paths of the matches, in increasing order and without repetition.
fn sorted_files(matches: &Vec<GrepMatch>) -> (files: Vec<String>)
    ensures
        texts(files@) == sorted_text_set(file_set(match_views(matches@))),
{
    let ghost ms = match_views(matches@);
    let mut files: Vec<String> = Vec::new();
    let n = matches.len();
    for i in 0..n
        invariant
            n == matches.len(),
            ms == match_views(matches@),
            strictly_sorted(texts(files@)),
            texts(files@).to_set() == Set::new(|f: Seq<char>| exists|k: int| 0 <= k < i && #[trigger] ms[k].file_path == f),
    {
        let ghost before = texts(files@).to_set();
        insert_sorted_text(&mut files, matches[i].file_path.clone());
        assert(ms[i as int].file_path == matches@[i as int].file_path@);
        assert(texts(files@).to_set() =~= Set::new(|f: Seq<char>| exists|k: int| 0 <= k < i + 1 && #[trigger] ms[k].file_path == f)) by {
            assert forall|f: Seq<char>| texts(files@).to_set().contains(f) <==> (exists|k: int| 0 <= k < i + 1 && #[trigger] ms[k].file_path == f) by {
                if texts(files@).to_set().contains(f) && f != ms[i as int].file_path {
                    assert(before.contains(f));
                }
            }
        }
    }
    assert(Set::new(|f: Seq<char>| exists|k: int| 0 <= k < n && #[trigger] ms[k].file_path == f) =~= file_set(ms));
    proof {
        lemma_sorted_text_set(texts(files@));
    }
    files
}

/// Appends the lines of the matches that lie in `file`, in order.
fn push_entries_in_file(lines: &mut Vec<Vec<Segment>>, matches: &Vec<GrepMatch>, file: &String)
    ensures
        lines_view(final(lines)@) == lines_view(old(lines)@) + entries_in_file(
            match_views(matches@),
            file@,
            matches@.len() as int,
        ),
{
    let ghost ms = match_views(matches@);
    let ghost start = lines_view(lines@);
    let n = matches.len();
    for j in 0..n
        invariant
            n == matches.len(),
            ms == match_views(matches@),
            lines_view(lines@) == start + entries_in_file(ms, file@, j as int),
    {
        assert(ms[j as int] == matches@[j as int]@);
        if matches[j].file_path == *file {
            let l = entry_line_of(&matches[j]);
            let ghost prev = lines_view(lines@);
            let ghost lv = line_view(l@);
            lines.push(l);
            assert(lines_view(lines@) =~= prev.push(lv));
            assert(lines_view(lines@) =~= start + entries_in_file(ms, file@, j + 1));
        } else {
            assert(entries_in_file(ms, file@, j + 1) == entries_in_file(ms, file@, j as int));
        }
    }
}

/// The lines of the terminal report of `matches` for a query with the given
/// pattern and filters.
pub(crate) fn render_lines(
    matches: &Vec<GrepMatch>,
    pattern: &Option<String>,
    entity_types: &Vec<String>,
    path_substring: &Option<String>,
    depends_on: &Vec<String>,
    ref_kind: Option<GrepRefKind>,
    q: Ghost<QueryView>,
) -> (lines: Vec<Vec<Segment>>)
    requires
        q@.pattern == crate::order::opt_text(*pattern),
        q@.entity_types == texts(entity_types@),
        q@.path_substring == crate::order::opt_text(*path_substring),
        q@.depends_on == texts(depends_on@),
        q@.ref_kind == ref_kind,
    ensures
        lines_view(lines@) == terminal_lines(match_views(matches@), q@),
{
    let ghost ms = match_views(matches@);
    let mut lines: Vec<Vec<Segment>> = Vec::new();
    if matches.len() == 0 {
        lines.push(heading_line(0));
        assert(lines_view(lines@) =~= terminal_lines(ms, q@));
        return lines;
    }
    lines.push(heading_line(matches.len()));
    assert(lines_view(lines@) =~= seq![heading(ms.len())]);
    push_filter_lines(&mut lines, pattern, entity_types, path_substring, depends_on, ref_kind, q);
    let ghost middle = lines_view(lines@);
    let blank: Vec<Segment> = Vec::new();
    assert(line_view(blank@) =~= Seq::<(Seq<char>, Style)>::empty());
    lines.push(blank);
    assert(lines_view(lines@) =~= middle.push(Seq::<(Seq<char>, Style)>::empty()));
    let ghost top = lines_view(lines@);
    assert(top =~= seq![heading(ms.len())] + filter_lines(q@) + seq![Seq::<(Seq<char>, Style)>::empty()]);
    let files = sorted_files(matches);
    let m = files.len();
    for i in 0..m
        invariant
            m == files.len(),
            ms == match_views(matches@),
            lines_view(lines@) == top + file_blocks(ms, texts(files@).take(i as int)),
    {
        let ghost done = texts(files@).take(i as int);
        let ghost next = texts(files@).take(i + 1);
        assert(next.drop_last() =~= done);
        assert(next.last() == files@[i as int]@);
        let fl = file_line_of(&files[i]);
        let ghost prev = lines_view(lines@);
        let ghost flv = line_view(fl@);
        lines.push(fl);
        assert(lines_view(lines@) =~= prev + seq![flv]);
        push_entries_in_file(&mut lines, matches, &files[i]);
        assert(lines_view(lines@) =~= top + file_blocks(ms, next));
    }
    assert(texts(files@).take(m as int) =~= texts(files@));
    lines
}

} // verus!
