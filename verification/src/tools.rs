//! Parameters of the tools the server offers.
use vstd::prelude::*;

verus! {

/// Parameters of the `entities` tool.
#[derive(Debug)]
pub struct EntitiesParams {
    /// Path to the file (relative to repo root or absolute).
    pub file_path: String,
}

/// Parameters of the `diff` tool.
#[derive(Debug)]
pub struct DiffParams {
    /// Base ref to compare from (branch, tag, or commit hash, e.g. 'main').
    pub base_ref: String,
    /// Target ref to compare to. Defaults to HEAD.
    pub target_ref: Option<String>,
    /// Optional: diff only this file.
    pub file_path: Option<String>,
}

/// Parameters of the `blame` tool.
#[derive(Debug)]
pub struct BlameParams {
    /// Path to the file (relative to repo root or absolute).
    pub file_path: String,
}

/// Parameters of the `impact` tool.
#[derive(Debug)]
pub struct ImpactAnalysisParams {
    /// Path to the file containing the entity.
    pub file_path: String,
    /// Name of the entity to analyze impact for.
    pub entity_name: String,
    /// Analysis mode: 'all' (default, shows deps + dependents + transitive
    /// impact + tests), 'deps' (direct dependencies only), 'dependents' (direct
    /// dependents only), 'tests' (affected test entities only).
    pub mode: Option<String>,
}

/// Parameters of the `log` tool.
#[derive(Debug)]
pub struct LogParams {
    /// Name of the entity to trace history for.
    pub entity_name: String,
    /// Path to the file containing the entity. If omitted, auto-detects.
    pub file_path: Option<String>,
    /// Maximum number of commits to analyze. Defaults to 50.
    pub limit: Option<usize>,
}

/// Parameters of the `grep` tool.
#[derive(Debug)]
pub struct GrepParams {
    /// Entity name pattern. If omitted, provide at least one filter.
    pub pattern: Option<String>,
    /// Also search inside entity content. Requires pattern.
    pub content: bool,
    /// Match text filters literally, including case and identifier separators.
    pub case_sensitive: bool,
    /// Only include these entity types, such as function or class.
    pub entity_types: Vec<String>,
    /// Only include entities whose file path contains this substring.
    pub path: Option<String>,
    /// Only include entities that look like tests.
    pub tests: bool,
    /// Only include entities that directly depend on a matching entity name.
    pub depends_on: Vec<String>,
    /// Restrict depends_on matches to one reference kind: calls, imports, or type.
    pub ref_kind: Option<String>,
    /// Only include entities with at least this many direct dependencies.
    pub min_dependencies: Option<usize>,
    /// Only include entities with at least this many direct dependents.
    pub min_dependents: Option<usize>,
    /// Only include files with these extensions, such as .py or .rs.
    pub file_exts: Vec<String>,
}

/// Parameters of the `context` tool.
#[derive(Debug)]
pub struct ContextParams {
    /// Path to the file containing the entity.
    pub file_path: String,
    /// Name of the target entity.
    pub entity_name: String,
    /// Maximum token budget. Defaults to 8000.
    pub token_budget: Option<usize>,
}

} // verus!
