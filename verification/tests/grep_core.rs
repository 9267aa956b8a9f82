use sem::entity::SemanticEntity;
use sem::graph::{EntityGraph, EntityInfo, EntityRef, RefType};
use sem::grep::{GrepQuery, GrepRefKind};
use sem::search::find_matches;
use sem::text::matches_text;

fn entity_info(id: &str, name: &str, entity_type: &str, file_path: &str, start_line: usize) -> EntityInfo {
    EntityInfo {
        id: id.to_string(),
        name: name.to_string(),
        entity_type: entity_type.to_string(),
        file_path: file_path.to_string(),
        parent_id: None,
        start_line,
        end_line: start_line + 2,
    }
}

fn clone_info(info: &EntityInfo) -> EntityInfo {
    EntityInfo {
        id: info.id.clone(),
        name: info.name.clone(),
        entity_type: info.entity_type.clone(),
        file_path: info.file_path.clone(),
        parent_id: info.parent_id.clone(),
        start_line: info.start_line,
        end_line: info.end_line,
    }
}

fn semantic_entity(info: &EntityInfo, content: &str) -> SemanticEntity {
    SemanticEntity {
        id: info.id.clone(),
        file_path: info.file_path.clone(),
        entity_type: info.entity_type.clone(),
        name: info.name.clone(),
        parent_id: info.parent_id.clone(),
        content: content.to_string(),
        content_hash: format!("hash-{}", info.id),
        structural_hash: None,
        start_line: info.start_line,
        end_line: info.end_line,
        metadata: None,
    }
}

fn test_query() -> GrepQuery {
    GrepQuery {
        pattern: None,
        content: false,
        case_sensitive: false,
        entity_types: Vec::new(),
        path_substring: None,
        tests: false,
        depends_on: Vec::new(),
        ref_kind: None,
        min_dependencies: None,
        min_dependents: None,
    }
}

fn fixture_graph() -> (EntityGraph, Vec<SemanticEntity>) {
    let exec = entity_info("src/process.ts::function::exec", "exec", "function", "src/process.ts", 1);
    let login = entity_info("src/auth.ts::function::login", "login", "function", "src/auth.ts", 10);
    let run_shell = entity_info("src/shell.ts::function::runShell", "runShell", "function", "src/shell.ts", 20);
    let auth_controller = entity_info(
        "src/auth_controller.ts::class::AuthController",
        "AuthController",
        "class",
        "src/auth_controller.ts",
        5,
    );
    let login_test = entity_info(
        "tests/auth_test.rs::function::test_login",
        "test_login",
        "function",
        "tests/auth_test.rs",
        3,
    );

    let graph = EntityGraph::from_parts(
        vec![
            clone_info(&exec),
            clone_info(&login),
            clone_info(&run_shell),
            clone_info(&auth_controller),
            clone_info(&login_test),
        ],
        vec![
            EntityRef { from_entity: run_shell.id.clone(), to_entity: exec.id.clone(), ref_type: RefType::Calls },
            EntityRef {
                from_entity: auth_controller.id.clone(),
                to_entity: login.id.clone(),
                ref_type: RefType::TypeRef,
            },
            EntityRef { from_entity: login_test.id.clone(), to_entity: login.id.clone(), ref_type: RefType::Calls },
        ],
    );

    let entities = vec![
        semantic_entity(&exec, "export function exec(command) { return command; }"),
        semantic_entity(&login, "pub fn login(user: &str) -> bool { !user.is_empty() }"),
        semantic_entity(&run_shell, "function runShell() { return exec(\"ls\"); }"),
        semantic_entity(&auth_controller, "class AuthController extends login { handle() { return true; } }"),
        semantic_entity(&login_test, "#[test]\nfn test_login() {\n    assert!(login(\"alice\"));\n}"),
    ];

    (graph, entities)
}

#[test]
fn grep_matches_name_by_default_and_content_when_requested() {
    let (graph, entities) = fixture_graph();

    let mut query = test_query();
    query.pattern = Some("exec".to_string());

    let name_only = find_matches(&graph, &entities, &query).expect("valid grep query");
    assert_eq!(name_only.len(), 1);
    assert_eq!(name_only[0].name, "exec");

    query.content = true;
    let with_content = find_matches(&graph, &entities, &query).expect("valid grep query");
    let names: Vec<_> = with_content.iter().map(|entry| entry.name.as_str()).collect();
    assert_eq!(names, vec!["exec", "runShell"]);
}

#[test]
fn grep_matches_common_identifier_styles_by_default() {
    let (graph, entities) = fixture_graph();
    let mut query = test_query();

    query.pattern = Some("auth-controller".to_string());
    let kebab_to_pascal = find_matches(&graph, &entities, &query).expect("valid grep query");
    assert_eq!(kebab_to_pascal.len(), 1);
    assert_eq!(kebab_to_pascal[0].name, "AuthController");

    query.pattern = Some("RUN_SHELL".to_string());
    let screaming_to_camel = find_matches(&graph, &entities, &query).expect("valid grep query");
    assert_eq!(screaming_to_camel.len(), 1);
    assert_eq!(screaming_to_camel[0].name, "runShell");
}

#[test]
fn grep_case_sensitive_requires_literal_text() {
    let (graph, entities) = fixture_graph();
    let mut query = test_query();
    query.case_sensitive = true;
    query.pattern = Some("RUN_SHELL".to_string());

    let matches = find_matches(&graph, &entities, &query).expect("valid grep query");
    assert!(matches.is_empty());

    query.pattern = Some("runShell".to_string());
    let matches = find_matches(&graph, &entities, &query).expect("valid grep query");
    assert_eq!(matches.len(), 1);
    assert_eq!(matches[0].name, "runShell");
}

#[test]
fn smart_text_matching_is_not_sparse() {
    assert!(matches_text("authenticate_user", "authenticateUser", false));
    assert!(matches_text("AUTHENTICATE-USER", "authenticate_user", false));
    assert!(!matches_text("authenticate user", "authenticateUser", false));
    assert!(!matches_text("handle_mouse_event", "hm", false));
    assert!(!matches_text("authenticate_user", "authenticateUser", true));
}

#[test]
fn grep_filters_by_dependency_name_and_reference_kind() {
    let (graph, entities) = fixture_graph();
    let mut query = test_query();
    query.depends_on = vec!["login".to_string()];

    let any_ref = find_matches(&graph, &entities, &query).expect("valid grep query");
    let names: Vec<_> = any_ref.iter().map(|entry| entry.name.as_str()).collect();
    assert_eq!(names, vec!["AuthController", "test_login"]);

    query.ref_kind = Some(GrepRefKind::Calls);
    let calls_only = find_matches(&graph, &entities, &query).expect("valid grep query");
    assert_eq!(calls_only.len(), 1);
    assert_eq!(calls_only[0].name, "test_login");
    assert_eq!(calls_only[0].matched_dependencies, vec!["login"]);
}

#[test]
fn grep_combines_test_and_graph_threshold_filters() {
    let (graph, entities) = fixture_graph();
    let mut query = test_query();
    query.tests = true;
    query.depends_on = vec!["login".to_string()];
    query.min_dependencies = Some(1);

    let matches = find_matches(&graph, &entities, &query).expect("valid grep query");
    assert_eq!(matches.len(), 1);
    assert_eq!(matches[0].name, "test_login");
    assert!(matches[0].is_test);

    query.tests = false;
    query.depends_on.clear();
    query.min_dependencies = None;
    query.min_dependents = Some(2);

    let high_fan_in = find_matches(&graph, &entities, &query).expect("valid grep query");
    assert_eq!(high_fan_in.len(), 1);
    assert_eq!(high_fan_in[0].name, "login");
}

#[test]
fn grep_rejects_filterless_queries() {
    let (graph, entities) = fixture_graph();
    let err = find_matches(&graph, &entities, &test_query()).expect_err("filterless grep should fail");
    assert_eq!(err.message(), "provide a pattern or at least one filter (`--type`, `--path`, `--tests`, `--depends-on`, `--min-dependencies`, `--min-dependents`)");
}
