//! Structural grep: find the entities of a graph that match a name pattern and
//! a set of filters (type, path, tests, dependencies, fan-in and fan-out).
use vstd::prelude::*;
use crate::text::equals_str;
use crate::graph::RefType;
use crate::order::{opt_text, texts};

verus! {

/// The kind of reference a `depends_on` filter may follow.
#[derive(Clone, Copy, Debug, PartialEq, Eq, Structural)]
pub enum GrepRefKind {
    Calls,
    Imports,
    Type,
}

/// The text that `s` parses to, or the parse error: one of the three kind names.
pub open spec fn parse_ref_kind(s: Seq<char>) -> Result<GrepRefKind, ParseGrepRefKindError> {
    if s == "calls"@ {
        Ok(GrepRefKind::Calls)
    } else if s == "imports"@ {
        Ok(GrepRefKind::Imports)
    } else if s == "type"@ {
        Ok(GrepRefKind::Type)
    } else {
        Err(ParseGrepRefKindError)
    }
}

impl GrepRefKind {
    /// The reference type this kind stands for.
    pub open spec fn accepts(self, ref_type: RefType) -> bool {
        match self {
            GrepRefKind::Calls => ref_type == RefType::Calls,
            GrepRefKind::Imports => ref_type == RefType::Imports,
            GrepRefKind::Type => ref_type == RefType::TypeRef,
        }
    }

    /// The name of this kind.
    pub open spec fn name(self) -> Seq<char> {
        match self {
            GrepRefKind::Calls => "calls"@,
            GrepRefKind::Imports => "imports"@,
            GrepRefKind::Type => "type"@,
        }
    }

    /// Whether a reference of type `ref_type` is of this kind.
    pub fn matches(self, ref_type: &RefType) -> (r: bool)
        ensures
            r == self.accepts(*ref_type),
    {
        match self {
            GrepRefKind::Calls => match ref_type {
                RefType::Calls => true,
                _ => false,
            },
            GrepRefKind::Imports => match ref_type {
                RefType::Imports => true,
                _ => false,
            },
            GrepRefKind::Type => match ref_type {
                RefType::TypeRef => true,
                _ => false,
            },
        }
    }

    /// The name of this kind: `calls`, `imports` or `type`.
    pub fn as_str(self) -> (s: &'static str)
        ensures
            s@ == self.name(),
    {
        match self {
            GrepRefKind::Calls => "calls",
            GrepRefKind::Imports => "imports",
            GrepRefKind::Type => "type",
        }
    }

    /// Reads a kind from its name; any other text is refused.
    pub fn parse(value: &str) -> (r: Result<GrepRefKind, ParseGrepRefKindError>)
        ensures
            r == parse_ref_kind(value@),
    {
        if equals_str(value, "calls") {
            Ok(GrepRefKind::Calls)
        } else if equals_str(value, "imports") {
            Ok(GrepRefKind::Imports)
        } else if equals_str(value, "type") {
            Ok(GrepRefKind::Type)
        } else {
            Err(ParseGrepRefKindError)
        }
    }
}

impl std::str::FromStr for GrepRefKind {
    type Err = ParseGrepRefKindError;

    fn from_str(value: &str) -> (r: Result<Self, Self::Err>)
        ensures
            r == parse_ref_kind(value@),
    {
        GrepRefKind::parse(value)
    }
}

/// The three kind names are distinct.
pub proof fn lemma_ref_kind_names_distinct()
    ensures
        "calls"@ != "imports"@,
        "calls"@ != "type"@,
        "imports"@ != "type"@,
{
    reveal_strlit("calls");
    reveal_strlit("imports");
    reveal_strlit("type");
    assert("calls"@[0] != "imports"@[0]);
    assert("calls"@[0] != "type"@[0]);
    assert("imports"@[0] != "type"@[0]);
}

/// A kind's name reads back as that kind, and a text that reads as a kind is
/// that kind's name.
pub proof fn lemma_ref_kind_name_roundtrip(kind: GrepRefKind, text: Seq<char>)
    ensures
        parse_ref_kind(kind.name()) == Ok::<GrepRefKind, ParseGrepRefKindError>(kind),
        parse_ref_kind(text) matches Ok(k) ==> k.name() == text,
{
    lemma_ref_kind_names_distinct();
}

/// A text that names no reference kind.
#[derive(Debug, Clone, Copy, PartialEq, Eq)]
pub struct ParseGrepRefKindError;

impl ParseGrepRefKindError {
    /// The message of this error.
    pub fn message(&self) -> (s: &'static str)
        ensures
            s@ == "ref_kind must be one of: calls, imports, type"@,
    {
        "ref_kind must be one of: calls, imports, type"
    }
}

/// A query: an optional name pattern and the filters every match must pass.
#[derive(Debug, Clone, PartialEq, Eq)]
pub struct GrepQuery {
    pub pattern: Option<String>,
    pub content: bool,
    pub case_sensitive: bool,
    pub entity_types: Vec<String>,
    pub path_substring: Option<String>,
    pub tests: bool,
    pub depends_on: Vec<String>,
    pub ref_kind: Option<GrepRefKind>,
    pub min_dependencies: Option<usize>,
    pub min_dependents: Option<usize>,
}

impl Default for GrepQuery {
    fn default() -> (q: Self)
        ensures
            q.pattern is None,
            !q.content,
            !q.case_sensitive,
            q.entity_types@.len() == 0,
            q.path_substring is None,
            !q.tests,
            q.depends_on@.len() == 0,
            q.ref_kind is None,
            q.min_dependencies is None,
            q.min_dependents is None,
    {
        GrepQuery {
            pattern: None,
            content: false,
            case_sensitive: false,
            entity_types: Vec::new(),
            path_substring: None,
            tests: false,
            depends_on: Vec::new(),
            ref_kind: None,
            min_dependencies: None,
            min_dependents: None,
        }
    }
}

/// What a query asks for, as plain values.
#[verifier::ext_equal]
pub struct QueryView {
    pub pattern: Option<Seq<char>>,
    pub content: bool,
    pub case_sensitive: bool,
    pub entity_types: Seq<Seq<char>>,
    pub path_substring: Option<Seq<char>>,
    pub tests: bool,
    pub depends_on: Seq<Seq<char>>,
    pub ref_kind: Option<GrepRefKind>,
    pub min_dependencies: Option<usize>,
    pub min_dependents: Option<usize>,
}

impl View for GrepQuery {
    type V = QueryView;

    open spec fn view(&self) -> QueryView {
        QueryView {
            pattern: opt_text(self.pattern),
            content: self.content,
            case_sensitive: self.case_sensitive,
            entity_types: texts(self.entity_types@),
            path_substring: opt_text(self.path_substring),
            tests: self.tests,
            depends_on: texts(self.depends_on@),
            ref_kind: self.ref_kind,
            min_dependencies: self.min_dependencies,
            min_dependents: self.min_dependents,
        }
    }
}

/// Why a query is refused.
#[derive(Debug, Clone, Copy, PartialEq, Eq, Structural)]
pub enum GrepValidationError {
    MissingSelector,
    ContentRequiresPattern,
    RefKindRequiresDependsOn,
}

impl GrepValidationError {
    /// The message of this error.
    pub open spec fn text(self) -> Seq<char> {
        match self {
            GrepValidationError::MissingSelector => "provide a pattern or at least one filter (`--type`, `--path`, `--tests`, `--depends-on`, `--min-dependencies`, `--min-dependents`)"@,
            GrepValidationError::ContentRequiresPattern => "`--content` requires a pattern"@,
            GrepValidationError::RefKindRequiresDependsOn => "`--ref-kind` requires at least one `--depends-on` filter"@,
        }
    }

    /// The message of this error.
    pub fn message(&self) -> (s: &'static str)
        ensures
            s@ == self.text(),
    {
        match self {
            GrepValidationError::MissingSelector => "provide a pattern or at least one filter (`--type`, `--path`, `--tests`, `--depends-on`, `--min-dependencies`, `--min-dependents`)",
            GrepValidationError::ContentRequiresPattern => "`--content` requires a pattern",
            GrepValidationError::RefKindRequiresDependsOn => "`--ref-kind` requires at least one `--depends-on` filter",
        }
    }
}

/// The query names a pattern or at least one filter.
pub open spec fn has_selector(q: QueryView) -> bool {
    ||| q.pattern is Some
    ||| q.entity_types.len() > 0
    ||| q.path_substring is Some
    ||| q.tests
    ||| q.depends_on.len() > 0
    ||| q.min_dependencies is Some
    ||| q.min_dependents is Some
}

/// The verdict on a query: the first rule it breaks, in this order, or `Ok`.
pub open spec fn validation(q: QueryView) -> Result<(), GrepValidationError> {
    if !has_selector(q) {
        Err(GrepValidationError::MissingSelector)
    } else if q.content && q.pattern is None {
        Err(GrepValidationError::ContentRequiresPattern)
    } else if q.ref_kind is Some && q.depends_on.len() == 0 {
        Err(GrepValidationError::RefKindRequiresDependsOn)
    } else {
        Ok(())
    }
}

impl GrepQuery {
    /// Checks that the query selects something: a pattern or a filter; that
    /// `content` comes with a pattern; and that `ref_kind` comes with `depends_on`.
    pub fn validate(&self) -> (r: Result<(), GrepValidationError>)
        ensures
            r == validation(self@),
    {
        if !self.has_selector() {
            return Err(GrepValidationError::MissingSelector);
        }
        if self.content && self.pattern.is_none() {
            return Err(GrepValidationError::ContentRequiresPattern);
        }
        if self.ref_kind.is_some() && self.depends_on.len() == 0 {
            return Err(GrepValidationError::RefKindRequiresDependsOn);
        }
        Ok(())
    }

    /// Whether the query names a pattern or at least one filter.
    fn has_selector(&self) -> (r: bool)
        ensures
            r == has_selector(self@),
    {
        self.pattern.is_some() || self.entity_types.len() > 0 || self.path_substring.is_some()
            || self.tests || self.depends_on.len() > 0 || self.min_dependencies.is_some()
            || self.min_dependents.is_some()
    }
}

} // verus!
