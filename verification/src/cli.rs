//! The `grep` command: its options, their checks, and what it reports.
use vstd::prelude::*;
use crate::entity::SemanticEntity;
use crate::graph::{clone_optional, EntityGraph, RefType};
use crate::grep::{validation, GrepQuery, GrepRefKind, GrepValidationError, QueryView};
use crate::order::{opt_text, texts};
use crate::report::{lines_view, render_lines, terminal_lines, Segment};
use crate::search::{is_search_result, match_views, search_entities, GrepMatch};

verus! {

/// The options of the `grep` command.
pub struct GrepOptions {
    pub cwd: String,
    pub pattern: Option<String>,
    pub content: bool,
    pub case_sensitive: bool,
    pub entity_types: Vec<String>,
    pub path_substring: Option<String>,
    pub tests: bool,
    pub depends_on: Vec<String>,
    pub ref_kind: Option<RefKind>,
    pub min_dependencies: Option<usize>,
    pub min_dependents: Option<usize>,
    pub json: bool,
    pub file_exts: Vec<String>,
    pub no_cache: bool,
}

/// The reference kind a `--depends-on` filter may be restricted to.
#[derive(Clone, Copy, Debug, PartialEq, Eq, Structural)]
pub enum RefKind {
    Calls,
    Imports,
    Type,
}

impl RefKind {
    /// The query kind this option stands for.
    pub open spec fn grep_kind(self) -> GrepRefKind {
        match self {
            RefKind::Calls => GrepRefKind::Calls,
            RefKind::Imports => GrepRefKind::Imports,
            RefKind::Type => GrepRefKind::Type,
        }
    }

    /// Whether a reference of type `ref_type` is of this kind.
    pub fn matches(self, ref_type: &RefType) -> (r: bool)
        ensures
            r == self.grep_kind().accepts(*ref_type),
    {
        match self {
            RefKind::Calls => match ref_type {
                RefType::Calls => true,
                _ => false,
            },
            RefKind::Imports => match ref_type {
                RefType::Imports => true,
                _ => false,
            },
            RefKind::Type => match ref_type {
                RefType::TypeRef => true,
                _ => false,
            },
        }
    }

    /// The name of this kind: `calls`, `imports` or `type`.
    pub fn as_str(self) -> (s: &'static str)
        ensures
            s@ == self.grep_kind().name(),
    {
        match self {
            RefKind::Calls => "calls",
            RefKind::Imports => "imports",
            RefKind::Type => "type",
        }
    }

    /// The query kind this option stands for.
    pub fn to_grep_kind(self) -> (k: GrepRefKind)
        ensures
            k == self.grep_kind(),
    {
        match self {
            RefKind::Calls => GrepRefKind::Calls,
            RefKind::Imports => GrepRefKind::Imports,
            RefKind::Type => GrepRefKind::Type,
        }
    }
}

/// The query kind of an optional option kind.
pub open spec fn grep_kind_of(kind: Option<RefKind>) -> Option<GrepRefKind> {
    match kind {
        Some(k) => Some(k.grep_kind()),
        None => None,
    }
}

/// The query that the options describe.
pub open spec fn options_query(o: GrepOptions) -> QueryView {
    QueryView {
        pattern: opt_text(o.pattern),
        content: o.content,
        case_sensitive: o.case_sensitive,
        entity_types: texts(o.entity_types@),
        path_substring: opt_text(o.path_substring),
        tests: o.tests,
        depends_on: texts(o.depends_on@),
        ref_kind: grep_kind_of(o.ref_kind),
        min_dependencies: o.min_dependencies,
        min_dependents: o.min_dependents,
    }
}

/// A copy of a vector of strings.
fn copy_strings(v: &Vec<String>) -> (r: Vec<String>)
    ensures
        r@ == v@,
{
    let mut r: Vec<String> = Vec::new();
    let n = v.len();
    for i in 0..n
        invariant
            n == v.len(),
            r@ == v@.take(i as int),
    {
        r.push(v[i].clone());
        assert(r@ =~= v@.take(i + 1));
    }
    assert(v@.take(n as int) =~= v@);
    r
}

impl GrepOptions {
    /// The query these options describe.
    pub fn to_query(&self) -> (q: GrepQuery)
        ensures
            q@ == options_query(*self),
    {
        let ref_kind = match self.ref_kind {
            Some(k) => Some(k.to_grep_kind()),
            None => None,
        };
        let q = GrepQuery {
            pattern: clone_optional(&self.pattern),
            content: self.content,
            case_sensitive: self.case_sensitive,
            entity_types: copy_strings(&self.entity_types),
            path_substring: clone_optional(&self.path_substring),
            tests: self.tests,
            depends_on: copy_strings(&self.depends_on),
            ref_kind,
            min_dependencies: self.min_dependencies,
            min_dependents: self.min_dependents,
        };
        assert(q@ =~= options_query(*self));
        q
    }
}

/// Checks the options as the command does before it reads any file: a pattern
/// or a filter must be given, `--content` needs a pattern and `--ref-kind`
/// needs `--depends-on`.
pub fn validate_options(opts: &GrepOptions) -> (r: Result<(), GrepValidationError>)
    ensures
        r == validation(options_query(*opts)),
{
    let has_selector = opts.pattern.is_some() || opts.entity_types.len() > 0
        || opts.path_substring.is_some() || opts.tests || opts.depends_on.len() > 0
        || opts.min_dependencies.is_some() || opts.min_dependents.is_some();
    if !has_selector {
        return Err(GrepValidationError::MissingSelector);
    }
    if opts.content && opts.pattern.is_none() {
        return Err(GrepValidationError::ContentRequiresPattern);
    }
    if opts.ref_kind.is_some() && opts.depends_on.len() == 0 {
        return Err(GrepValidationError::RefKindRequiresDependsOn);
    }
    Ok(())
}

/// The matches of the options' query (which is not checked here): every graph
/// entity that passes it, reported once, sorted by file path, start line, end
/// line and name.
pub fn find_matches(graph: &EntityGraph, all_entities: &Vec<SemanticEntity>, opts: &GrepOptions) -> (matches: Vec<GrepMatch>)
    ensures
        is_search_result(match_views(matches@), *graph, all_entities@, options_query(*opts)),
{
    let query = opts.to_query();
    search_entities(graph, all_entities, &query)
}

/// The terminal report of `matches` under the options' filters.
pub fn render_terminal(matches: &Vec<GrepMatch>, opts: &GrepOptions) -> (lines: Vec<Vec<Segment>>)
    ensures
        lines_view(lines@) == terminal_lines(match_views(matches@), options_query(*opts)),
{
    let ref_kind = match opts.ref_kind {
        Some(k) => Some(k.to_grep_kind()),
        None => None,
    };
    render_lines(
        matches,
        &opts.pattern,
        &opts.entity_types,
        &opts.path_substring,
        &opts.depends_on,
        ref_kind,
        Ghost(options_query(*opts)),
    )
}

/// What the command prints: the matches as JSON, or the terminal report.
pub enum GrepOutput {
    Json(Vec<GrepMatch>),
    Terminal(Vec<Vec<Segment>>),
}

/// The `grep` command once the graph is built: the options are checked, the
/// matches found, and the output chosen by `--json`.
pub fn grep_command(opts: &GrepOptions, graph: &EntityGraph, all_entities: &Vec<SemanticEntity>) -> (r: Result<GrepOutput, GrepValidationError>)
    ensures
        r is Err <==> validation(options_query(*opts)) is Err,
        r matches Err(e) ==> validation(options_query(*opts)) == Err::<(), GrepValidationError>(e),
        r matches Ok(GrepOutput::Json(ms)) ==> opts.json && is_search_result(match_views(ms@), *graph, all_entities@, options_query(*opts)),
        r matches Ok(GrepOutput::Terminal(lines)) ==> !opts.json && exists|ms: Seq<GrepMatch>| is_search_result(match_views(ms), *graph, all_entities@, options_query(*opts)) && lines_view(lines@) == terminal_lines(match_views(ms), options_query(*opts)),
{
    match validate_options(opts) {
        Err(e) => {
            return Err(e);
        },
        Ok(()) => {},
    }
    let matches = find_matches(graph, all_entities, opts);
    if opts.json {
        Ok(GrepOutput::Json(matches))
    } else {
        let lines = render_terminal(&matches, opts);
        assert(is_search_result(match_views(matches@), *graph, all_entities@, options_query(*opts)));
        Ok(GrepOutput::Terminal(lines))
    }
}

} // verus!
