use sem::cli::{grep_command, render_terminal, validate_options, GrepOptions, GrepOutput, RefKind};
use sem::entity::SemanticEntity;
use sem::json::{result_json, JsonValue};
use sem::graph::{build_outgoing_edges, EntityGraph, EntityInfo, EntityRef, RefType};
use sem::grep::{GrepQuery, GrepRefKind, GrepValidationError};
use sem::paths::normalize_file_exts;
use sem::plugins::create_default_registry;
use sem::registry::{dot_suffixes, extensions_of_file_name, ParserPlugin, ParserRegistry};
use sem::report::{decimal_text, join_texts, Style};
use sem::search::{find_matches, find_matching_dependencies, matches_type, search_entities};
use sem::text::{contains_str, equals_ignore_ascii_case, matches_folded, matches_text, normalize_identifier_text};

fn info(id: &str, name: &str, entity_type: &str, file_path: &str, start_line: usize) -> EntityInfo {
    EntityInfo {
        id: id.to_string(),
        name: name.to_string(),
        entity_type: entity_type.to_string(),
        file_path: file_path.to_string(),
        parent_id: None,
        start_line,
        end_line: start_line + 2,
    }
}

fn source(info: &EntityInfo, content: &str) -> SemanticEntity {
    SemanticEntity {
        id: info.id.clone(),
        file_path: info.file_path.clone(),
        entity_type: info.entity_type.clone(),
        name: info.name.clone(),
        parent_id: info.parent_id.clone(),
        content: content.to_string(),
        content_hash: format!("hash-{}", info.id),
        structural_hash: None,
        start_line: info.start_line,
        end_line: info.end_line,
        metadata: None,
    }
}

fn edge(from: &str, to: &str, ref_type: RefType) -> EntityRef {
    EntityRef { from_entity: from.to_string(), to_entity: to.to_string(), ref_type }
}

fn query() -> GrepQuery {
    GrepQuery::default()
}

fn options() -> GrepOptions {
    GrepOptions {
        cwd: ".".to_string(),
        pattern: None,
        content: false,
        case_sensitive: false,
        entity_types: Vec::new(),
        path_substring: None,
        tests: false,
        depends_on: Vec::new(),
        ref_kind: None,
        min_dependencies: None,
        min_dependents: None,
        json: false,
        file_exts: Vec::new(),
        no_cache: false,
    }
}

/// exec, login, runShell, AuthController, test_login and the references between them.
fn fixture() -> (EntityGraph, Vec<SemanticEntity>) {
    let infos = vec![
        info("p::exec", "exec", "function", "src/process.ts", 1),
        info("a::login", "login", "function", "src/auth.ts", 10),
        info("s::runShell", "runShell", "function", "src/shell.ts", 20),
        info("c::AuthController", "AuthController", "class", "src/auth_controller.ts", 5),
        info("t::test_login", "test_login", "function", "tests/auth_test.rs", 3),
    ];
    let contents = [
        "export function exec(command) { return command; }",
        "pub fn login(user: &str) -> bool { !user.is_empty() }",
        "function runShell() { return exec(\"ls\"); }",
        "class AuthController extends login { handle() { return true; } }",
        "#[test]\nfn test_login() {\n    assert!(login(\"alice\"));\n}",
    ];
    let entities: Vec<SemanticEntity> = infos.iter().zip(contents.iter()).map(|(i, c)| source(i, c)).collect();
    let graph = EntityGraph::from_parts(
        infos,
        vec![
            edge("s::runShell", "p::exec", RefType::Calls),
            edge("c::AuthController", "a::login", RefType::TypeRef),
            edge("t::test_login", "a::login", RefType::Calls),
        ],
    );
    (graph, entities)
}

fn names(matches: &[sem::search::GrepMatch]) -> Vec<&str> {
    matches.iter().map(|m| m.name.as_str()).collect()
}

#[test]
fn validation_reports_each_rule() {
    assert_eq!(query().validate(), Err(GrepValidationError::MissingSelector));

    let mut q = query();
    q.content = true;
    q.tests = true;
    assert_eq!(q.validate(), Err(GrepValidationError::ContentRequiresPattern));
    assert_eq!(q.validate().unwrap_err().message(), "`--content` requires a pattern");

    let mut q = query();
    q.ref_kind = Some(GrepRefKind::Imports);
    q.tests = true;
    assert_eq!(q.validate(), Err(GrepValidationError::RefKindRequiresDependsOn));
    assert_eq!(
        q.validate().unwrap_err().message(),
        "`--ref-kind` requires at least one `--depends-on` filter"
    );

    q.depends_on = vec!["x".to_string()];
    assert_eq!(q.validate(), Ok(()));

    let mut q = query();
    q.min_dependents = Some(0);
    assert_eq!(q.validate(), Ok(()));
}

#[test]
fn ref_kind_names_read_back() {
    for kind in [GrepRefKind::Calls, GrepRefKind::Imports, GrepRefKind::Type] {
        assert_eq!(kind.as_str().parse::<GrepRefKind>(), Ok(kind));
        assert_eq!(GrepRefKind::parse(kind.as_str()), Ok(kind));
    }
    assert_eq!("type".parse::<GrepRefKind>(), Ok(GrepRefKind::Type));
    let err = "CALLS".parse::<GrepRefKind>().unwrap_err();
    assert_eq!(err.message(), "ref_kind must be one of: calls, imports, type");
    assert!(GrepRefKind::parse("").is_err());
}

#[test]
fn ref_kinds_match_reference_types() {
    assert!(GrepRefKind::Calls.matches(&RefType::Calls));
    assert!(!GrepRefKind::Calls.matches(&RefType::Imports));
    assert!(GrepRefKind::Type.matches(&RefType::TypeRef));
    assert!(GrepRefKind::Imports.matches(&RefType::Imports));
    for kind in [RefKind::Calls, RefKind::Imports, RefKind::Type] {
        let core = kind.to_grep_kind();
        assert_eq!(kind.as_str(), core.as_str());
        for t in [RefType::Calls, RefType::Imports, RefType::TypeRef] {
            assert_eq!(kind.matches(&t), core.matches(&t));
        }
    }
}

#[test]
fn text_matching_edge_cases() {
    assert!(contains_str("abc", ""));
    assert!(!contains_str("", "a"));
    assert!(contains_str("abcabd", "abd"));
    assert!(matches_text("ÉCOLE", "école", false));
    assert!(!matches_text("ÉCOLE", "école", true));
    assert!(matches_text("a_b", "_", false));
    assert!(!matches_text("ab", "-", false));
    assert!(matches_text("x", "", true));
    assert_eq!(normalize_identifier_text("RUN_SHELL-Now"), "runshellnow");
    assert_eq!(normalize_identifier_text("Ä_B"), "äb");
    assert!(equals_ignore_ascii_case("Class", "cLASS"));
    assert!(!equals_ignore_ascii_case("É", "é"));
    assert!(!equals_ignore_ascii_case("class", "classes"));
}

#[test]
fn literal_match_of_separators_or_nothing_matches_without_case() {
    // the law covers needles whose normalised form is empty too
    assert!(matches_text("abc", "", false));
    assert!(matches_text("", "", false));
    assert!(matches_text("run__shell", "__", true));
    assert!(matches_text("run__shell", "__", false));
    assert!(matches_text("A-B", "-", false));
    assert!(!matches_text("AB", "__", false));
}

#[test]
fn folded_texts_decide_the_case_insensitive_match() {
    assert!(matches_folded("runshell", "shell", "", ""));
    assert!(matches_folded("run_shell", "xyz", "runshell", "nsh"));
    assert!(!matches_folded("run_shell", "xyz", "runshell", ""));
    assert!(!matches_folded("abc", "d", "abc", "d"));
    // the lowered texts come from the lowercasing, not from the raw input
    assert!(matches_text("RunShell", "SHELL", false));
    assert!(!matches_text("RunShell", "SHELL", true));
}

#[test]
fn ascii_identifiers_normalise_to_ascii_lower_case() {
    assert_eq!(normalize_identifier_text("Run_Shell-X9"), "runshellx9");
    assert_eq!(normalize_identifier_text("__--"), "");
    assert_eq!(normalize_identifier_text(""), "");
    let (a, b) = ("Run_", "Shell-X");
    assert_eq!(
        normalize_identifier_text(&format!("{}{}", a, b)),
        normalize_identifier_text(a) + &normalize_identifier_text(b)
    );
}

#[test]
fn literal_match_implies_insensitive_match() {
    // scenario for the law: whenever the needle occurs literally and has
    // characters other than separators, the case-insensitive search accepts it
    for (haystack, needle) in [("handle_mouse_event", "mouse_e"), ("ΑΣΑ", "ΑΣ"), ("a-b-c", "b-c")] {
        assert!(matches_text(haystack, needle, true));
        assert!(matches_text(haystack, needle, false));
    }
}

#[test]
fn type_filters_follow_case_sensitivity() {
    let filters = vec!["CLASS".to_string(), "method".to_string()];
    assert!(matches_type(&"class".to_string(), &filters, false));
    assert!(!matches_type(&"class".to_string(), &filters, true));
    assert!(matches_type(&"anything".to_string(), &Vec::new(), true));

    let (graph, entities) = fixture();
    let mut q = query();
    q.entity_types = vec!["CLASS".to_string()];
    assert_eq!(names(&find_matches(&graph, &entities, &q).unwrap()), vec!["AuthController"]);
    q.case_sensitive = true;
    assert!(find_matches(&graph, &entities, &q).unwrap().is_empty());
}

#[test]
fn results_are_sorted_by_file_then_lines() {
    let (graph, entities) = fixture();
    let mut q = query();
    q.path_substring = Some("auth".to_string());
    let matches = find_matches(&graph, &entities, &q).unwrap();
    let files: Vec<&str> = matches.iter().map(|m| m.file_path.as_str()).collect();
    assert_eq!(files, vec!["src/auth.ts", "src/auth_controller.ts", "tests/auth_test.rs"]);
}

#[test]
fn narrowing_filters_never_add_matches() {
    let (graph, entities) = fixture();
    let mut q = query();
    q.min_dependencies = Some(0);
    let all = names(&find_matches(&graph, &entities, &q).unwrap()).len();
    assert_eq!(all, 5);
    q.min_dependencies = Some(1);
    let fan_out = find_matches(&graph, &entities, &q).unwrap();
    assert_eq!(names(&fan_out), vec!["AuthController", "runShell", "test_login"]);
    q.min_dependencies = Some(2);
    assert!(find_matches(&graph, &entities, &q).unwrap().is_empty());
    q.min_dependencies = None;
    q.min_dependents = Some(1);
    assert_eq!(names(&find_matches(&graph, &entities, &q).unwrap()), vec!["login", "exec"]);
}

#[test]
fn reports_carry_counts_and_test_flags() {
    let (graph, entities) = fixture();
    assert_eq!(graph.dependency_count(&"t::test_login".to_string()), 1);
    assert_eq!(graph.dependent_count(&"a::login".to_string()), 2);
    assert_eq!(graph.dependent_count(&"missing".to_string()), 0);
    assert_eq!(graph.filter_test_entities(&entities), vec!["t::test_login".to_string()]);

    let mut q = query();
    q.pattern = Some("login".to_string());
    let matches = find_matches(&graph, &entities, &q).unwrap();
    assert_eq!(names(&matches), vec!["login", "test_login"]);
    assert_eq!(matches[0].dependent_count, 2);
    assert_eq!(matches[0].dependency_count, 0);
    assert!(!matches[1].is_test, "is_test is only reported when tests are asked for");
    assert_eq!(matches[1].start_line, 3);
    assert_eq!(matches[1].end_line, 5);
}

#[test]
fn dependencies_are_deduplicated_and_sorted() {
    let infos = vec![
        info("a", "caller", "function", "a.rs", 1),
        info("b", "zeta", "function", "b.rs", 1),
        info("c", "alpha", "function", "c.rs", 1),
        info("d", "zeta", "function", "d.rs", 1),
    ];
    let graph = EntityGraph::from_parts(
        infos,
        vec![
            edge("a", "b", RefType::Calls),
            edge("a", "c", RefType::Imports),
            edge("a", "d", RefType::Calls),
            edge("a", "missing", RefType::Calls),
        ],
    );
    let patterns = vec!["a".to_string()];
    let outgoing = build_outgoing_edges(&graph.edges);
    assert_eq!(outgoing.len(), 1);
    assert_eq!(outgoing[0].positions, vec![0, 1, 2, 3]);
    let caller = &graph.entities[0];
    let found = find_matching_dependencies(&graph, caller, &outgoing, &patterns, None, false);
    assert_eq!(found, vec!["alpha".to_string(), "zeta".to_string()]);
    let calls = find_matching_dependencies(&graph, caller, &outgoing, &patterns, Some(GrepRefKind::Calls), false);
    assert_eq!(calls, vec!["zeta".to_string()]);
    let callee = &graph.entities[1];
    assert!(find_matching_dependencies(&graph, callee, &outgoing, &patterns, None, false).is_empty());
}

#[test]
fn later_entities_replace_earlier_ones_with_the_same_id() {
    let graph = EntityGraph::from_parts(
        vec![info("x", "first", "function", "a.rs", 1), info("y", "other", "function", "a.rs", 5), info("x", "second", "function", "a.rs", 9)],
        Vec::new(),
    );
    let kept: Vec<&str> = graph.entities.iter().map(|e| e.name.as_str()).collect();
    assert_eq!(kept, vec!["other", "second"]);
}

#[test]
fn entities_without_source_are_skipped() {
    let (graph, mut entities) = fixture();
    entities.retain(|e| e.name != "exec");
    let mut q = query();
    q.pattern = Some("exec".to_string());
    assert!(find_matches(&graph, &entities, &q).unwrap().is_empty());
    assert!(search_entities(&graph, &entities, &q).is_empty());
}

#[test]
fn file_extensions_get_a_leading_dot() {
    let exts = vec!["rs".to_string(), ".py".to_string(), "".to_string()];
    let once = normalize_file_exts(&exts);
    assert_eq!(once, vec![".rs".to_string(), ".py".to_string(), ".".to_string()]);
    assert_eq!(normalize_file_exts(&once), once);
}

#[test]
fn numbers_and_lists_are_written_out() {
    assert_eq!(decimal_text(0), "0");
    assert_eq!(decimal_text(1234), "1234");
    assert_eq!(decimal_text(usize::MAX), usize::MAX.to_string());
    assert_eq!(join_texts(&vec![], ", "), "");
    assert_eq!(join_texts(&vec!["a".to_string(), "b".to_string(), "c".to_string()], ", "), "a, b, c");
}

#[test]
fn extensions_come_from_the_lowercased_file_name() {
    assert_eq!(dot_suffixes("a.svelte.ts"), vec![".svelte.ts".to_string(), ".ts".to_string()]);
    assert!(dot_suffixes("Makefile").is_empty());
    assert_eq!(extensions_of_file_name("Page.SVELTE.Ts"), vec![".svelte.ts".to_string(), ".ts".to_string()]);
}

#[test]
fn registry_prefers_latest_registration_and_falls_back() {
    let mut registry = ParserRegistry::new();
    assert!(registry.get_plugin("a.x").is_none());
    registry.register(ParserPlugin::new("first", vec![".x".to_string()]));
    registry.register(ParserPlugin::new("fallback", Vec::new()));
    assert_eq!(registry.get_plugin("dir/a.x").unwrap().id(), "first");
    registry.register(ParserPlugin::new("second", vec![".x".to_string(), ".y.x".to_string()]));
    assert_eq!(registry.get_plugin("a.x").unwrap().id(), "second");
    assert_eq!(registry.get_plugin("README").unwrap().id(), "fallback");
    assert_eq!(registry.get_plugin_by_id("first").unwrap().extensions(), &vec![".x".to_string()]);
    assert!(registry.get_plugin_by_id("third").is_none());
}

#[test]
fn default_registry_routes_common_files() {
    let registry = create_default_registry();
    assert_eq!(registry.get_plugin("src/main.rs").unwrap().id(), "code");
    assert_eq!(registry.get_plugin("src/App.TSX").unwrap().id(), "code");
    assert_eq!(registry.get_plugin("config.yml").unwrap().id(), "yaml");
    assert_eq!(registry.get_plugin("LICENSE").unwrap().id(), "fallback");
    assert_eq!(registry.get_plugin("").unwrap().id(), "fallback");
    // the file name is the last component, even behind a trailing slash
    assert_eq!(registry.get_plugin("notes.md/").unwrap().id(), "markdown");
    assert_eq!(registry.get_plugin("notes.md/..").unwrap().id(), "fallback");
}

#[test]
fn plugin_choice_depends_on_the_file_name_only() {
    let registry = create_default_registry();
    // dots in directories do not count
    assert_eq!(registry.get_plugin("src.d/README").unwrap().id(), "fallback");
    assert_eq!(registry.get_plugin("a.json/b.d/config.toml").unwrap().id(), "toml");
    // nor does the case of the file name
    assert_eq!(registry.get_plugin("X.SVELTE.TS").unwrap().id(), "svelte");
    assert_eq!(registry.get_plugin("lib/x.svelte.ts").unwrap().id(), "svelte");
    assert_eq!(registry.get_plugin("Data.CSV").unwrap().id(), "csv");
    assert_eq!(registry.get_plugin("data.csv").unwrap().id(), "csv");
    // trailing `/` and `.` parts are not file names; a last `..` part has none
    assert_eq!(registry.get_plugin("src/main.rs/").unwrap().id(), "code");
    assert_eq!(registry.get_plugin("a/./b.toml/.").unwrap().id(), "toml");
    assert_eq!(registry.get_plugin("x.md/../").unwrap().id(), "fallback");
    assert_eq!(registry.get_plugin("..").unwrap().id(), "fallback");
    assert_eq!(registry.get_plugin("/").unwrap().id(), "fallback");
    // non-ASCII names lowercase too
    assert_eq!(registry.get_plugin("docs/ÜBER.MD").unwrap().id(), "markdown");
}

#[test]
fn registering_a_plugin_routes_its_extensions_only() {
    let mut registry = create_default_registry();
    assert_eq!(registry.get_plugin("file.vue").unwrap().id(), "fallback");
    assert_eq!(registry.get_plugin("file.ts").unwrap().id(), "code");
    registry.register(ParserPlugin::new("vue", vec![".vue".to_string(), ".ts".to_string()]));
    // its extensions now lead to it, also one an earlier plugin listed
    assert_eq!(registry.get_plugin("file.vue").unwrap().id(), "vue");
    assert_eq!(registry.get_plugin("file.ts").unwrap().id(), "vue");
    // other files keep their plugin
    assert_eq!(registry.get_plugin("file.rs").unwrap().id(), "code");
    assert_eq!(registry.get_plugin("file.svelte.ts").unwrap().id(), "svelte");
    assert_eq!(registry.get_plugin("Makefile").unwrap().id(), "fallback");
    assert_eq!(registry.get_plugin_by_id("vue").unwrap().id(), "vue");
}

#[test]
fn outgoing_index_has_no_empty_group() {
    let edges = vec![
        edge("a", "b", RefType::Calls),
        edge("c", "a", RefType::Calls),
        edge("a", "c", RefType::Imports),
    ];
    let index = build_outgoing_edges(&edges);
    assert_eq!(index.len(), 2);
    assert!(index.iter().all(|group| !group.positions.is_empty()));
    assert_eq!(index[0].from_entity, "a");
    assert_eq!(index[0].positions, vec![0, 2]);
    assert_eq!(index[1].from_entity, "c");
    assert_eq!(index[1].positions, vec![1]);
    assert!(build_outgoing_edges(&Vec::new()).is_empty());
}

fn line_text(line: &[sem::report::Segment]) -> String {
    line.iter().map(|s| s.text.as_str()).collect()
}

#[test]
fn terminal_report_groups_matches_by_file() {
    let (graph, entities) = fixture();
    let mut opts = options();
    opts.depends_on = vec!["login".to_string()];
    opts.ref_kind = Some(RefKind::Calls);
    opts.tests = true;
    let matches = sem::cli::find_matches(&graph, &entities, &opts);
    let lines = render_terminal(&matches, &opts);
    let text: Vec<String> = lines.iter().map(|l| line_text(l)).collect();
    assert_eq!(
        text,
        vec![
            "grep: 1 matches".to_string(),
            "  depends on login (calls)".to_string(),
            "".to_string(),
            "  tests/auth_test.rs".to_string(),
            "    function test_login (L3-5, deps: 1, dependents: 0, test, via: login)".to_string(),
        ]
    );
    assert_eq!(lines[0][0].style, Style::GreenBold);
    assert_eq!(lines[4][5].style, Style::Dimmed);

    let none = render_terminal(&Vec::new(), &opts);
    assert_eq!(none.len(), 1);
    assert_eq!(line_text(&none[0]), "grep: no matches");
}

#[test]
fn grep_command_checks_options_and_picks_the_output() {
    let (graph, entities) = fixture();
    let opts = options();
    assert_eq!(validate_options(&opts), Err(GrepValidationError::MissingSelector));
    assert!(matches!(grep_command(&opts, &graph, &entities), Err(GrepValidationError::MissingSelector)));

    let mut opts = options();
    opts.pattern = Some("auth".to_string());
    opts.json = true;
    match grep_command(&opts, &graph, &entities) {
        Ok(GrepOutput::Json(matches)) => assert_eq!(names(&matches), vec!["AuthController"]),
        _ => panic!("expected JSON output"),
    }
    opts.json = false;
    opts.entity_types = vec!["class".to_string(), "function".to_string()];
    opts.path_substring = Some("src".to_string());
    match grep_command(&opts, &graph, &entities) {
        Ok(GrepOutput::Terminal(lines)) => {
            let text: Vec<String> = lines.iter().map(|l| line_text(l)).collect();
            assert_eq!(text[1], "  pattern auth");
            assert_eq!(text[2], "  types class, function");
            assert_eq!(text[3], "  path src");
        }
        _ => panic!("expected terminal output"),
    }
}

fn member<'a>(value: &'a JsonValue, key: &str) -> &'a JsonValue {
    match value {
        JsonValue::Object(fields) => &fields.iter().find(|(k, _)| k == key).unwrap().1,
        other => panic!("not an object: {:?}", other),
    }
}

#[test]
fn json_document_holds_summary_and_matches() {
    let entry = sem::search::GrepMatch {
        name: "login".to_string(),
        entity_type: "function".to_string(),
        file_path: "src/auth.rs".to_string(),
        start_line: 3,
        end_line: 9,
        parent_id: None,
        dependency_count: 2,
        dependent_count: 1,
        is_test: false,
        matched_dependencies: vec!["exec".to_string()],
    };
    let mut q = GrepQuery::default();
    q.pattern = Some("log".to_string());
    q.depends_on = vec!["exec".to_string()];
    q.ref_kind = Some(GrepRefKind::Calls);
    q.min_dependents = Some(1);
    let doc = result_json(&vec![entry], &q);
    match &doc {
        JsonValue::Object(fields) => {
            let keys: Vec<&str> = fields.iter().map(|(k, _)| k.as_str()).collect();
            assert_eq!(keys, vec!["summary", "matches"]);
        }
        other => panic!("not an object: {:?}", other),
    }
    let summary = member(&doc, "summary");
    assert_eq!(member(summary, "matches"), &JsonValue::Number(1));
    assert_eq!(member(summary, "pattern"), &JsonValue::Text("log".to_string()));
    assert_eq!(member(summary, "content"), &JsonValue::Bool(false));
    assert_eq!(member(summary, "path"), &JsonValue::Null);
    assert_eq!(member(summary, "dependsOn"), &JsonValue::Array(vec![JsonValue::Text("exec".to_string())]));
    assert_eq!(member(summary, "refKind"), &JsonValue::Text("calls".to_string()));
    assert_eq!(member(summary, "minDependencies"), &JsonValue::Null);
    assert_eq!(member(summary, "minDependents"), &JsonValue::Number(1));
    let found = match member(&doc, "matches") {
        JsonValue::Array(items) => items,
        other => panic!("not an array: {:?}", other),
    };
    assert_eq!(found.len(), 1);
    assert_eq!(member(&found[0], "name"), &JsonValue::Text("login".to_string()));
    assert_eq!(member(&found[0], "file"), &JsonValue::Text("src/auth.rs".to_string()));
    assert_eq!(member(&found[0], "lines"), &JsonValue::Array(vec![JsonValue::Number(3), JsonValue::Number(9)]));
    assert_eq!(member(&found[0], "parentId"), &JsonValue::Null);
    assert_eq!(member(&found[0], "dependencyCount"), &JsonValue::Number(2));
    assert_eq!(member(&found[0], "isTest"), &JsonValue::Bool(false));
    let empty = result_json(&Vec::new(), &GrepQuery::default());
    assert_eq!(member(&empty, "matches"), &JsonValue::Array(Vec::new()));
    assert_eq!(member(member(&empty, "summary"), "refKind"), &JsonValue::Null);
}
